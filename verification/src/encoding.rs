//! Digests and text encodings computed by outside crates.

use vstd::prelude::*;

verus! {

/// Number of bytes of a SHA-256 digest.
pub const SHA256_LEN: usize = 32;

/// The digest routine counts its input in bits with a 64-bit counter, so an
/// input must be shorter than this many bytes.
pub const DIGEST_INPUT_LIMIT: u64 = 0x2000_0000_0000_0000;

/// The SHA-256 digest of a byte string.
pub uninterp spec fn sha256_digest(data: Seq<u8>) -> Seq<u8>;

/// The base64 text of a byte string in the URL-safe alphabet, without padding.
pub uninterp spec fn base64url_nopad(data: Seq<u8>) -> Seq<char>;

/// Whether `data` is short enough to be digested.
pub open spec fn digestible(data: Seq<u8>) -> bool {
    data.len() < DIGEST_INPUT_LIMIT
}

/// Length of the unpadded base64 text of `n` bytes: four characters for
/// every three bytes, and two or three for a remainder of one or two bytes.
pub open spec fn base64_nopad_len(n: nat) -> nat {
    (n / 3) * 4 + if n % 3 == 0 {
        0nat
    } else {
        (n % 3 + 1) as nat
    }
}

/// Whether `c` belongs to the URL-safe base64 alphabet: a letter, a digit,
/// a hyphen or an underscore.
pub open spec fn is_base64url_char(c: char) -> bool {
    ||| 'A' <= c <= 'Z'
    ||| 'a' <= c <= 'z'
    ||| '0' <= c <= '9'
    ||| c == '-'
    ||| c == '_'
}

/// Whether `text` consists of characters of the URL-safe base64 alphabet.
pub open spec fn is_base64url_text(text: Seq<char>) -> bool {
    forall|i: int| 0 <= i < text.len() ==> is_base64url_char(#[trigger] text[i])
}

/// A text of the URL-safe base64 alphabet is ASCII, and holds no slash, no
/// full stop and nothing else that would take it out of a file name.
pub proof fn lemma_base64url_text_is_ascii(text: Seq<char>)
    requires
        is_base64url_text(text),
    ensures
        vstd::utf8::is_ascii_chars(text),
        forall|i: int|
            0 <= i < text.len() ==> (#[trigger] text[i]) != '/' && text[i] != '.' && text[i]
                != '\\' && text[i] != '\0' && text[i] != '=' && text[i] != '+',
{
    assert forall|i: int| 0 <= i < text.len() implies '\0' <= #[trigger] text[i] <= '\u{7f}' by {
        assert(is_base64url_char(text[i]));
    }
    assert forall|i: int| 0 <= i < text.len() implies (#[trigger] text[i]) != '/' && text[i] != '.'
        && text[i] != '\\' && text[i] != '\0' && text[i] != '=' && text[i] != '+' by {
        assert(is_base64url_char(text[i]));
    }
}

/// Calls `ring::digest::digest` with `ring::digest::SHA256`. Trusted: the
/// result is the SHA-256 digest of `data`, which is 32 bytes long. The
/// routine panics when the bit length of its input overflows 64 bits, so
/// such inputs are excluded.
#[verifier::external_body]
pub(crate) fn sha256(data: &[u8]) -> (out: Vec<u8>)
    requires
        digestible(data@),
    ensures
        out@ == sha256_digest(data@),
        out@.len() == SHA256_LEN,
{
    ring::digest::digest(&ring::digest::SHA256, data).as_ref().to_vec()
}

/// Calls `base64::encode_config` with `base64::URL_SAFE_NO_PAD`. Trusted:
/// the result is the unpadded URL-safe base64 text of `data`; it consists
/// of characters of the URL-safe alphabet and has the length that the
/// encoding prescribes.
/// The routine panics when a buffer of that length cannot be had, so such
/// inputs are excluded.
#[verifier::external_body]
pub(crate) fn base64url(data: &[u8]) -> (out: String)
    requires
        base64_nopad_len(data@.len()) <= isize::MAX,
    ensures
        out@ == base64url_nopad(data@),
        out@.len() == base64_nopad_len(data@.len()),
        is_base64url_text(out@),
{
    base64::encode_config(data, base64::URL_SAFE_NO_PAD)
}

} // verus!
