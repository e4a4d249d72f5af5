//! Key authorizations: the proof strings that tie a challenge token to the
//! account key, and their digests.

use vstd::prelude::*;
use vstd::slice::slice_subrange;
use vstd::string::*;
use vstd::utf8::{encode_utf8, is_ascii_chars, is_ascii_chars_concat, is_ascii_chars_encode_utf8};
use crate::encoding::{
    base64url, base64url_nopad, digestible, is_base64url_text, lemma_base64url_text_is_ascii,
    sha256, sha256_digest, DIGEST_INPUT_LIMIT, SHA256_LEN,
};
use crate::text::clone_bytes;

verus! {

/// Length of an uncompressed P-256 point: a tag byte and two coordinates.
pub const P256_POINT_LEN: usize = 65;

/// Tag byte that opens an uncompressed elliptic-curve point.
pub const UNCOMPRESSED_TAG: u8 = 4;

/// Why a key authorization could not be computed.
#[derive(Clone, Copy, Debug, PartialEq, Eq, Structural)]
pub enum JoseError {
    /// The account key has no JSON Web Key thumbprint: it is not an
    /// uncompressed P-256 point.
    UnsupportedKey,
    /// The key authorization is too long to be digested.
    TokenTooLong,
}

/// The public half of an account key, as the bytes of its curve point.
#[derive(Debug)]
pub struct AccountKey {
    point: Vec<u8>,
}

/// Whether `point` is an uncompressed P-256 point, the only kind of key
/// for which a thumbprint is defined here.
pub open spec fn supported_point(point: Seq<u8>) -> bool {
    point.len() == P256_POINT_LEN && point[0] == UNCOMPRESSED_TAG
}

/// The canonical JSON Web Key of a supported point: its members in
/// lexicographic order, the coordinates in unpadded URL-safe base64.
pub open spec fn jwk_json(point: Seq<u8>) -> Seq<char> {
    "{\"crv\":\"P-256\",\"kty\":\"EC\",\"x\":\""@ + base64url_nopad(point.subrange(1, 33))
        + "\",\"y\":\""@ + base64url_nopad(point.subrange(33, 65)) + "\"}"@
}

/// The thumbprint of a supported point: the base64 text of the digest of
/// its canonical JSON Web Key.
pub open spec fn jwk_thumbprint(point: Seq<u8>) -> Seq<char> {
    base64url_nopad(sha256_digest(encode_utf8(jwk_json(point))))
}

/// The key authorization of `token` under the key `point`: the token, a
/// full stop, and the key's thumbprint.
pub open spec fn key_authorization_text(point: Seq<u8>, token: Seq<char>) -> Seq<char> {
    token + "."@ + jwk_thumbprint(point)
}

/// What `key_authorization` returns for a key and a token.
pub open spec fn key_authorization_result(point: Seq<u8>, token: Seq<char>) -> Result<
    Seq<char>,
    JoseError,
> {
    if supported_point(point) {
        Ok(key_authorization_text(point, token))
    } else {
        Err(JoseError::UnsupportedKey)
    }
}

/// What `key_authorization_sha256` returns for a key and a token.
pub open spec fn key_authorization_digest_result(point: Seq<u8>, token: Seq<char>) -> Result<
    Seq<u8>,
    JoseError,
> {
    if !supported_point(point) {
        Err(JoseError::UnsupportedKey)
    } else if !digestible(encode_utf8(key_authorization_text(point, token))) {
        Err(JoseError::TokenTooLong)
    } else {
        Ok(sha256_digest(encode_utf8(key_authorization_text(point, token))))
    }
}

impl View for AccountKey {
    type V = Seq<u8>;

    closed spec fn view(&self) -> Seq<u8> {
        self.point@
    }
}

impl AccountKey {
    /// Wraps the bytes of a public key point.
    pub fn new(point: Vec<u8>) -> (key: AccountKey)
        ensures
            key@ == point@,
    {
        AccountKey { point }
    }

    /// The bytes of the public key point.
    pub fn point(&self) -> (point: &Vec<u8>)
        ensures
            point@ == self@,
    {
        &self.point
    }

    /// Whether a thumbprint is defined for this key.
    pub fn is_supported(&self) -> (b: bool)
        ensures
            b == supported_point(self@),
    {
        self.point.len() == P256_POINT_LEN && self.point[0] == UNCOMPRESSED_TAG
    }

    /// A copy of this key.
    pub fn duplicate(&self) -> (key: AccountKey)
        ensures
            key@ == self@,
    {
        AccountKey { point: clone_bytes(&self.point) }
    }
}

/// The canonical JSON Web Key of a supported point is plain ASCII of a
/// fixed length.
proof fn lemma_jwk_json_ascii(point: Seq<u8>, x: Seq<char>, y: Seq<char>)
    requires
        supported_point(point),
        x == base64url_nopad(point.subrange(1, 33)),
        y == base64url_nopad(point.subrange(33, 65)),
        is_ascii_chars(x),
        is_ascii_chars(y),
        x.len() == 43,
        y.len() == 43,
    ensures
        is_ascii_chars(jwk_json(point)),
        encode_utf8(jwk_json(point)).len() == 126,
{
    reveal_strlit("{\"crv\":\"P-256\",\"kty\":\"EC\",\"x\":\"");
    reveal_strlit("\",\"y\":\"");
    reveal_strlit("\"}");
    let head = "{\"crv\":\"P-256\",\"kty\":\"EC\",\"x\":\""@;
    let mid = "\",\"y\":\""@;
    let tail = "\"}"@;
    assert(is_ascii_chars(head));
    assert(is_ascii_chars(mid));
    assert(is_ascii_chars(tail));
    is_ascii_chars_concat(head + x, head, x);
    is_ascii_chars_concat(head + x + mid, head + x, mid);
    is_ascii_chars_concat(head + x + mid + y, head + x + mid, y);
    is_ascii_chars_concat(head + x + mid + y + tail, head + x + mid + y, tail);
    is_ascii_chars_encode_utf8(jwk_json(point));
}

/// The thumbprint of an account key: the base64 text of the digest of its
/// canonical JSON Web Key.
pub fn thumbprint(key: &AccountKey) -> (res: Result<String, JoseError>)
    ensures
        match res {
            Ok(s) => supported_point(key@) && s@ == jwk_thumbprint(key@) && s@.len() == 43
                && is_base64url_text(s@),
            Err(e) => !supported_point(key@) && e == JoseError::UnsupportedKey,
        },
{
    if !key.is_supported() {
        return Err(JoseError::UnsupportedKey);
    }
    let point = key.point().as_slice();
    let x = base64url(slice_subrange(point, 1, 33));
    let y = base64url(slice_subrange(point, 33, 65));
    let mut json = String::from_str("{\"crv\":\"P-256\",\"kty\":\"EC\",\"x\":\"");
    json.append(x.as_str());
    json.append("\",\"y\":\"");
    json.append(y.as_str());
    json.append("\"}");
    proof {
        lemma_base64url_text_is_ascii(x@);
        lemma_base64url_text_is_ascii(y@);
        lemma_jwk_json_ascii(key@, x@, y@);
    }
    let digest = sha256(json.as_str().as_bytes());
    Ok(base64url(digest.as_slice()))
}

/// The key authorization of a challenge token under an account key: the
/// token, a full stop, and the key's thumbprint. Fails exactly when the
/// key has no thumbprint.
pub fn key_authorization(key: &AccountKey, token: &str) -> (res: Result<String, JoseError>)
    ensures
        match res {
            Ok(s) => key_authorization_result(key@, token@) == Ok::<Seq<char>, JoseError>(s@),
            Err(e) => key_authorization_result(key@, token@) == Err::<Seq<char>, JoseError>(e),
        },
{
    match thumbprint(key) {
        Ok(print) => {
            let mut text = String::from_str(token);
            text.append(".");
            text.append(print.as_str());
            Ok(text)
        },
        Err(e) => Err(e),
    }
}

/// The SHA-256 digest of the key authorization of a challenge token. Fails
/// when the key has no thumbprint, or when the key authorization is too
/// long to be digested.
pub fn key_authorization_sha256(key: &AccountKey, token: &str) -> (res: Result<Vec<u8>, JoseError>)
    ensures
        match res {
            Ok(d) => key_authorization_digest_result(key@, token@) == Ok::<Seq<u8>, JoseError>(d@)
                && d@.len() == SHA256_LEN,
            Err(e) => key_authorization_digest_result(key@, token@) == Err::<Seq<u8>, JoseError>(e),
        },
{
    match key_authorization(key, token) {
        Ok(text) => {
            let bytes = text.as_str().as_bytes();
            if bytes.len() as u64 >= DIGEST_INPUT_LIMIT {
                return Err(JoseError::TokenTooLong);
            }
            Ok(sha256(bytes))
        },
        Err(e) => Err(e),
    }
}

} // verus!
