//! The certificate state that every TLS handshake consults: the active
//! certificate, the answers to HTTP-01 probes, and the certificates that
//! answer TLS-ALPN-01 probes.

use vstd::hash_map::StringHashMap;
use vstd::prelude::*;
use vstd::string::*;
use crate::text::{byte_rows, clone_byte_rows, clone_bytes, slice_view, strs, text_values};

verus! {

/// What a certified key holds: a chain of certificates in DER, leaf
/// first, and the private key of the leaf in DER.
pub struct CertifiedKeyView {
    pub chain: Seq<Seq<u8>>,
    pub key: Seq<u8>,
}

/// A certificate chain with its private key. It is built once and never
/// changed; a renewal builds another.
#[derive(Debug, PartialEq, Eq)]
pub struct CertifiedKey {
    chain: Vec<Vec<u8>>,
    key: Vec<u8>,
}

impl View for CertifiedKey {
    type V = CertifiedKeyView;

    closed spec fn view(&self) -> CertifiedKeyView {
        CertifiedKeyView { chain: byte_rows(self.chain@), key: self.key@ }
    }
}

impl CertifiedKey {
    /// Puts a chain and its key together.
    pub fn new(chain: Vec<Vec<u8>>, key: Vec<u8>) -> (certified: CertifiedKey)
        ensures
            certified@ == (CertifiedKeyView { chain: byte_rows(chain@), key: key@ }),
    {
        CertifiedKey { chain, key }
    }

    /// The certificates of the chain, leaf first.
    pub fn chain(&self) -> (chain: &Vec<Vec<u8>>)
        ensures
            byte_rows(chain@) == self@.chain,
    {
        &self.chain
    }

    /// The private key of the leaf.
    pub fn private_key(&self) -> (key: &Vec<u8>)
        ensures
            key@ == self@.key,
    {
        &self.key
    }

    /// A copy of this certified key.
    pub fn duplicate(&self) -> (copy: CertifiedKey)
        ensures
            copy@ == self@,
    {
        CertifiedKey { chain: clone_byte_rows(&self.chain), key: clone_bytes(&self.key) }
    }
}

/// The view of an optional certified key.
pub open spec fn certified_view(key: Option<CertifiedKey>) -> Option<CertifiedKeyView> {
    match key {
        Some(k) => Some(k@),
        None => None,
    }
}

/// The view of an optional reference to a certified key.
pub open spec fn certified_ref_view(key: Option<&CertifiedKey>) -> Option<CertifiedKeyView> {
    match key {
        Some(k) => Some(k@),
        None => None,
    }
}

/// The view of an optional reference to a string.
pub open spec fn text_ref_view(text: Option<&String>) -> Option<Seq<char>> {
    match text {
        Some(t) => Some(t@),
        None => None,
    }
}

/// What a resolver holds.
pub struct ResolverView {
    /// The certificate that handshakes are served with, if one was issued.
    pub active: Option<CertifiedKeyView>,
    /// The key authorization that answers the HTTP-01 probe for a token.
    pub http01: Map<Seq<char>, Seq<char>>,
    /// The certificate that answers the TLS-ALPN-01 probe for a domain.
    pub tls_alpn01: Map<Seq<char>, CertifiedKeyView>,
}

impl ResolverView {
    /// A resolver that holds nothing.
    pub open spec fn empty() -> ResolverView {
        ResolverView { active: None, http01: Map::empty(), tls_alpn01: Map::empty() }
    }

    /// This state with `key` as the active certificate.
    pub open spec fn install(self, key: CertifiedKeyView) -> ResolverView {
        ResolverView { active: Some(key), ..self }
    }

    /// This state with `value` as the answer for `token`.
    pub open spec fn set_http01(self, token: Seq<char>, value: Seq<char>) -> ResolverView {
        ResolverView { http01: self.http01.insert(token, value), ..self }
    }

    /// This state without an answer for `token`.
    pub open spec fn clear_http01(self, token: Seq<char>) -> ResolverView {
        ResolverView { http01: self.http01.remove(token), ..self }
    }

    /// This state with `key` as the challenge certificate for `domain`.
    pub open spec fn set_tls_alpn01(
        self,
        domain: Seq<char>,
        key: CertifiedKeyView,
    ) -> ResolverView {
        ResolverView { tls_alpn01: self.tls_alpn01.insert(domain, key), ..self }
    }

    /// This state without a challenge certificate for `domain`.
    pub open spec fn clear_tls_alpn01(self, domain: Seq<char>) -> ResolverView {
        ResolverView { tls_alpn01: self.tls_alpn01.remove(domain), ..self }
    }

    /// This state without the answers for `tokens` and without the
    /// challenge certificates for `domains`.
    pub open spec fn forget(self, tokens: Seq<Seq<char>>, domains: Seq<Seq<char>>) -> ResolverView {
        ResolverView {
            active: self.active,
            http01: without_keys(self.http01, tokens),
            tls_alpn01: without_keys(self.tls_alpn01, domains),
        }
    }

    /// The certificate that a handshake is answered with. A peer that
    /// asks for the TLS-ALPN-01 protocol gets the challenge certificate
    /// for the server name that it sent, and none if it sent no name or if
    /// no challenge is registered for it. Any other peer gets the active
    /// certificate.
    pub open spec fn resolve(self, server_name: Option<Seq<char>>, protocols: Seq<Seq<u8>>) -> Option<
        CertifiedKeyView,
    > {
        if asks_for_challenge(protocols) {
            match server_name {
                Some(domain) => self.tls_alpn01_cert(domain),
                None => None,
            }
        } else {
            self.active
        }
    }

    /// The answer for `token`, if there is one.
    pub open spec fn http01_answer(self, token: Seq<char>) -> Option<Seq<char>> {
        if self.http01.contains_key(token) {
            Some(self.http01[token])
        } else {
            None
        }
    }

    /// The challenge certificate for `domain`, if there is one.
    pub open spec fn tls_alpn01_cert(self, domain: Seq<char>) -> Option<CertifiedKeyView> {
        if self.tls_alpn01.contains_key(domain) {
            Some(self.tls_alpn01[domain])
        } else {
            None
        }
    }
}

/// The name of the TLS-ALPN-01 protocol among the protocols that a peer
/// offers: `acme-tls/1`.
pub open spec fn acme_tls_alpn_name() -> Seq<u8> {
    seq![97u8, 99u8, 109u8, 101u8, 45u8, 116u8, 108u8, 115u8, 47u8, 49u8]
}

/// Whether `acme-tls/1` is among the protocols that a peer offers.
pub open spec fn asks_for_challenge(protocols: Seq<Seq<u8>>) -> bool {
    protocols.contains(acme_tls_alpn_name())
}

/// The entries of `map` whose keys are not among `keys`.
pub open spec fn without_keys<V>(
    map: Map<Seq<char>, V>,
    keys: Seq<Seq<char>>,
) -> Map<Seq<char>, V> {
    Map::new(|k: Seq<char>| map.contains_key(k) && !keys.contains(k), |k: Seq<char>| map[k])
}

/// The views of the values of a map of certified keys.
pub open spec fn certified_values(held: Map<Seq<char>, CertifiedKey>) -> Map<
    Seq<char>,
    CertifiedKeyView,
> {
    Map::new(|k: Seq<char>| held.contains_key(k), |k: Seq<char>| held[k]@)
}

/// The certificate state of one listener. A handle to it is made once,
/// when the listener is set up, and handed both to the handshake path and
/// to the issuer.
pub struct Resolver {
    active: Option<CertifiedKey>,
    http01: StringHashMap<String>,
    tls_alpn01: StringHashMap<CertifiedKey>,
}

impl View for Resolver {
    type V = ResolverView;

    closed spec fn view(&self) -> ResolverView {
        ResolverView {
            active: certified_view(self.active),
            http01: text_values(self.http01@),
            tls_alpn01: certified_values(self.tls_alpn01@),
        }
    }
}

impl Resolver {
    /// A resolver that holds nothing.
    pub fn new() -> (resolver: Resolver)
        ensures
            resolver@ == ResolverView::empty(),
    {
        let resolver = Resolver { active: None, http01: StringHashMap::new(), tls_alpn01: StringHashMap::new() };
        assert(resolver@.http01 =~= Map::<Seq<char>, Seq<char>>::empty());
        assert(resolver@.tls_alpn01 =~= Map::<Seq<char>, CertifiedKeyView>::empty());
        resolver
    }

    /// The active certificate, if one was installed: always a whole
    /// certified key, the one that was installed last.
    pub fn current_certified_key(&self) -> (key: Option<&CertifiedKey>)
        ensures
            certified_ref_view(key) == self@.active,
    {
        self.active.as_ref()
    }

    /// Replaces the active certificate by `key`, in one step. The
    /// challenge answers stay as they are.
    pub fn install_certified_key(&mut self, key: CertifiedKey)
        ensures
            final(self)@ == old(self)@.install(key@),
    {
        self.active = Some(key);
    }

    /// Registers `value` as the answer to the HTTP-01 probe for `token`.
    pub fn set_http01_key_authorization(&mut self, token: String, value: String)
        ensures
            final(self)@ == old(self)@.set_http01(token@, value@),
    {
        self.http01.insert(token, value);
        assert(self@.http01 =~= old(self)@.http01.insert(token@, value@));
    }

    /// The answer to the HTTP-01 probe for `token`, if one is registered.
    pub fn get_http01_key_authorization(&self, token: &str) -> (value: Option<&String>)
        ensures
            text_ref_view(value) == self@.http01_answer(token@),
    {
        self.http01.get(token)
    }

    /// Forgets the answer to the HTTP-01 probe for `token`.
    pub fn clear_http01_key_authorization(&mut self, token: &str)
        ensures
            final(self)@ == old(self)@.clear_http01(token@),
    {
        self.http01.remove(token);
        assert(self@.http01 =~= old(self)@.http01.remove(token@));
    }

    /// Registers `key` as the certificate that answers the TLS-ALPN-01
    /// probe for `domain`.
    pub fn set_tls_alpn01_cert(&mut self, domain: String, key: CertifiedKey)
        ensures
            final(self)@ == old(self)@.set_tls_alpn01(domain@, key@),
    {
        self.tls_alpn01.insert(domain, key);
        assert(self@.tls_alpn01 =~= old(self)@.tls_alpn01.insert(domain@, key@));
    }

    /// The certificate that answers the TLS-ALPN-01 probe for `domain`, if
    /// one is registered.
    pub fn get_tls_alpn01_cert(&self, domain: &str) -> (key: Option<&CertifiedKey>)
        ensures
            certified_ref_view(key) == self@.tls_alpn01_cert(domain@),
    {
        self.tls_alpn01.get(domain)
    }

    /// Forgets the certificate that answers the TLS-ALPN-01 probe for
    /// `domain`.
    pub fn clear_tls_alpn01_cert(&mut self, domain: &str)
        ensures
            final(self)@ == old(self)@.clear_tls_alpn01(domain@),
    {
        self.tls_alpn01.remove(domain);
        assert(self@.tls_alpn01 =~= old(self)@.tls_alpn01.remove(domain@));
    }
}

/// Whether `protocol` is the name of the TLS-ALPN-01 protocol.
fn is_acme_tls_alpn_name(protocol: &Vec<u8>) -> (res: bool)
    ensures
        res == (protocol@ == acme_tls_alpn_name()),
{
    let same = protocol.len() == 10 && protocol[0] == 97 && protocol[1] == 99 && protocol[2] == 109
        && protocol[3] == 101 && protocol[4] == 45 && protocol[5] == 116 && protocol[6] == 108
        && protocol[7] == 115 && protocol[8] == 47 && protocol[9] == 49;
    proof {
        if same {
            assert(protocol@ =~= acme_tls_alpn_name());
        }
    }
    same
}

impl Resolver {
    /// The certificate that a handshake is answered with, given the
    /// server name and the protocols that the peer sent. A peer that asks
    /// for the TLS-ALPN-01 protocol gets the challenge certificate for the
    /// server name, any other peer the active certificate.
    pub fn resolve(&self, server_name: Option<&str>, protocols: &Vec<Vec<u8>>) -> (key: Option<
        &CertifiedKey,
    >)
        ensures
            certified_ref_view(key) == self@.resolve(slice_view(server_name), byte_rows(protocols@)),
    {
        let n: usize = protocols.len();
        let mut i: usize = 0;
        let mut challenge = false;
        while i < n
            invariant
                n == protocols@.len(),
                i <= n,
                challenge == byte_rows(protocols@).take(i as int).contains(acme_tls_alpn_name()),
            decreases n - i,
        {
            proof {
                let rows = byte_rows(protocols@);
                let done = rows.take(i as int);
                let more = rows.take(i + 1);
                assert(more == done.push(protocols@[i as int]@));
                assert forall|k: Seq<u8>| more.contains(k) <==> (done.contains(k) || k
                    == protocols@[i as int]@) by {
                    if done.contains(k) {
                        let j = choose|j: int| 0 <= j < done.len() && done[j] == k;
                        assert(more[j] == k);
                    }
                    if k == protocols@[i as int]@ {
                        assert(more[i as int] == k);
                    }
                }
            }
            if is_acme_tls_alpn_name(&protocols[i]) {
                challenge = true;
            }
            i += 1;
        }
        assert(byte_rows(protocols@).take(n as int) == byte_rows(protocols@));
        if challenge {
            match server_name {
                Some(domain) => self.get_tls_alpn01_cert(domain),
                None => None,
            }
        } else {
            self.current_certified_key()
        }
    }

    /// Forgets the HTTP-01 answers for `tokens` and the TLS-ALPN-01
    /// certificates for `domains`.
    pub fn forget_challenges(&mut self, tokens: &Vec<String>, domains: &Vec<String>)
        ensures
            final(self)@ == old(self)@.forget(strs(tokens@), strs(domains@)),
    {
        let n: usize = tokens.len();
        let mut i: usize = 0;
        proof {
            assert(self@.http01 =~= without_keys(self@.http01, strs(tokens@).take(0)));
            assert(self@.tls_alpn01 =~= without_keys(self@.tls_alpn01, Seq::empty()));
        }
        while i < n
            invariant
                n == tokens@.len(),
                i <= n,
                self@ == old(self)@.forget(strs(tokens@).take(i as int), Seq::empty()),
            decreases n - i,
        {
            let ghost before = self@;
            self.clear_http01_key_authorization(tokens[i].as_str());
            proof {
                let done = strs(tokens@).take(i as int);
                let more = strs(tokens@).take(i + 1);
                assert(more == done.push(tokens@[i as int]@));
                assert forall|k: Seq<char>| more.contains(k) <==> (done.contains(k) || k
                    == tokens@[i as int]@) by {
                    if done.contains(k) {
                        let j = choose|j: int| 0 <= j < done.len() && done[j] == k;
                        assert(more[j] == k);
                    }
                    if k == tokens@[i as int]@ {
                        assert(more[i as int] == k);
                    }
                }
                assert(self@.http01 =~= without_keys(old(self)@.http01, more));
                assert(self@.tls_alpn01 =~= without_keys(old(self)@.tls_alpn01, Seq::empty()));
            }
            i += 1;
        }
        assert(strs(tokens@).take(n as int) == strs(tokens@));
        let m: usize = domains.len();
        let mut j: usize = 0;
        proof {
            assert(self@.tls_alpn01 =~= without_keys(
                old(self)@.tls_alpn01,
                strs(domains@).take(0),
            ));
        }
        while j < m
            invariant
                m == domains@.len(),
                j <= m,
                self@ == old(self)@.forget(strs(tokens@), strs(domains@).take(j as int)),
            decreases m - j,
        {
            self.clear_tls_alpn01_cert(domains[j].as_str());
            proof {
                let done = strs(domains@).take(j as int);
                let more = strs(domains@).take(j + 1);
                assert(more == done.push(domains@[j as int]@));
                assert forall|k: Seq<char>| more.contains(k) <==> (done.contains(k) || k
                    == domains@[j as int]@) by {
                    if done.contains(k) {
                        let x = choose|x: int| 0 <= x < done.len() && done[x] == k;
                        assert(more[x] == k);
                    }
                    if k == domains@[j as int]@ {
                        assert(more[j as int] == k);
                    }
                }
                assert(self@.tls_alpn01 =~= without_keys(old(self)@.tls_alpn01, more));
            }
            j += 1;
        }
        assert(strs(domains@).take(m as int) == strs(domains@));
    }
}

/// A reader that asks for the active certificate after `key` was installed
/// sees exactly `key`, whatever was active before; and installing a
/// certificate touches no challenge answer.
pub proof fn lemma_install_visible(before: ResolverView, key: CertifiedKeyView)
    ensures
        before.install(key).active == Some(key),
        before.install(key).http01 == before.http01,
        before.install(key).tls_alpn01 == before.tls_alpn01,
{
}

/// A challenge answer that was registered is the one found, until it is
/// cleared; registering or clearing under one key leaves the other keys,
/// the other table and the active certificate alone.
pub proof fn lemma_challenge_tables(
    before: ResolverView,
    token: Seq<char>,
    value: Seq<char>,
    domain: Seq<char>,
    key: CertifiedKeyView,
    other: Seq<char>,
)
    ensures
        before.set_http01(token, value).http01_answer(token) == Some(value),
        before.set_http01(token, value).clear_http01(token).http01_answer(token) == None::<
            Seq<char>,
        >,
        other != token ==> before.set_http01(token, value).http01_answer(other)
            == before.http01_answer(other),
        before.set_http01(token, value).active == before.active,
        before.set_http01(token, value).tls_alpn01 == before.tls_alpn01,
        before.set_tls_alpn01(domain, key).tls_alpn01_cert(domain) == Some(key),
        before.set_tls_alpn01(domain, key).clear_tls_alpn01(domain).tls_alpn01_cert(domain)
            == None::<CertifiedKeyView>,
        other != domain ==> before.set_tls_alpn01(domain, key).tls_alpn01_cert(other)
            == before.tls_alpn01_cert(other),
        before.set_tls_alpn01(domain, key).active == before.active,
        before.set_tls_alpn01(domain, key).http01 == before.http01,
{
}

} // verus!
