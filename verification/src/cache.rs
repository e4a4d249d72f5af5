//! The persistent cache of private keys and certificates: how a record is
//! named, what a cache must offer, and a cache held in memory.
//!
//! A record is addressed by the name of the certificate authority's
//! directory and by the exact list of domains. The order of the domains is
//! part of the address.

use vstd::hash_map::StringHashMap;
use vstd::prelude::*;
use vstd::string::*;
use vstd::utf8::{encode_utf8, encode_utf8_decode_utf8, is_ascii_chars};
use crate::encoding::{
    base64url, base64url_nopad, digestible, is_base64url_text, lemma_base64url_text_is_ascii,
    sha256, sha256_digest, DIGEST_INPUT_LIMIT,
};
use crate::text::{append_bytes, clone_bytes, clone_strings, strs};

verus! {

/// The byte string that stands for a list of domains when it is digested:
/// each domain's UTF-8 bytes, each followed by a zero byte.
pub open spec fn domain_frame(domains: Seq<Seq<char>>) -> Seq<u8>
    decreases domains.len(),
{
    if domains.len() == 0 {
        Seq::<u8>::empty()
    } else {
        domain_frame(domains.drop_last()) + encode_utf8(domains.last()) + seq![0u8]
    }
}

/// The part of a record's name that depends on the domains: the base64
/// text of the digest of their frame.
pub open spec fn file_hash_part(domains: Seq<Seq<char>>) -> Seq<char> {
    base64url_nopad(sha256_digest(domain_frame(domains)))
}

/// The number of characters of the digest part of a record's name: the
/// unpadded base64 text of 32 bytes.
pub const HASH_PART_LEN: usize = 43;

/// The two kinds of record that the cache holds for one address.
#[derive(Clone, Copy, Debug, PartialEq, Eq, Structural)]
pub enum RecordKind {
    /// A private key in PEM.
    PrivateKey,
    /// A certificate chain in PEM.
    Certificate,
}

impl RecordKind {
    /// The text that opens the name of every record of this kind.
    pub open spec fn prefix(self) -> Seq<char> {
        match self {
            RecordKind::PrivateKey => "pkey-"@,
            RecordKind::Certificate => "cert-"@,
        }
    }
}

/// The name of the record of one kind at one address: the kind's prefix,
/// the directory name, a hyphen, and the digest part of the domains.
pub open spec fn record_name(
    kind: RecordKind,
    directory_name: Seq<char>,
    domains: Seq<Seq<char>>,
) -> Seq<char> {
    kind.prefix() + directory_name + "-"@ + file_hash_part(domains)
}

/// Whether a list of domains can address a record: it is not empty, and
/// its frame is short enough to be digested.
pub open spec fn addressable(domains: Seq<Seq<char>>) -> bool {
    domains.len() > 0 && digestible(domain_frame(domains))
}

/// An ordered, non-empty list of domain names, kept exactly as supplied.
#[derive(Debug)]
pub struct DomainSet {
    names: Vec<String>,
}

impl View for DomainSet {
    type V = Seq<Seq<char>>;

    closed spec fn view(&self) -> Seq<Seq<char>> {
        strs(self.names@)
    }
}

impl DomainSet {
    #[verifier::type_invariant]
    closed spec fn well_formed(&self) -> bool {
        addressable(strs(self.names@))
    }

    /// Accepts a list of domains if it can address a record.
    pub fn new(names: Vec<String>) -> (res: Option<DomainSet>)
        ensures
            match res {
                Some(d) => addressable(strs(names@)) && d@ == strs(names@),
                None => !addressable(strs(names@)),
            },
    {
        let n: usize = names.len();
        if n == 0 {
            return None;
        }
        let mut total: u64 = 0;
        let mut i: usize = 0;
        while i < n
            invariant
                n == names@.len(),
                i <= n,
                total == domain_frame(strs(names@).take(i as int)).len(),
                total < DIGEST_INPUT_LIMIT,
            decreases n - i,
        {
            let len: usize = names[i].as_str().as_bytes().len();
            proof {
                let upto = strs(names@).take(i + 1);
                assert(upto.drop_last() == strs(names@).take(i as int));
                assert(upto.last() == names@[i as int]@);
                lemma_frame_grows(strs(names@), i + 1, n as int);
                assert(strs(names@).take(n as int) == strs(names@));
            }
            if len as u64 >= DIGEST_INPUT_LIMIT - 1 - total {
                return None;
            }
            total = total + len as u64 + 1;
            i += 1;
        }
        assert(strs(names@).take(n as int) == strs(names@));
        Some(DomainSet { names })
    }

    /// The domains, in the order in which they were supplied.
    pub fn names(&self) -> (names: &Vec<String>)
        ensures
            strs(names@) == self@,
            addressable(self@),
    {
        proof {
            use_type_invariant(self);
        }
        &self.names
    }

    /// A copy of this list.
    pub fn duplicate(&self) -> (copy: DomainSet)
        ensures
            copy@ == self@,
    {
        proof {
            use_type_invariant(self);
        }
        DomainSet { names: clone_strings(&self.names) }
    }
}

/// The frame of a list is at least as long as the frame of any of its
/// prefixes.
pub proof fn lemma_frame_grows(domains: Seq<Seq<char>>, i: int, j: int)
    requires
        0 <= i <= j <= domains.len(),
    ensures
        domain_frame(domains.take(i)).len() <= domain_frame(domains.take(j)).len(),
    decreases j - i,
{
    if i < j {
        assert(domains.take(j).drop_last() == domains.take(j - 1));
        lemma_frame_grows(domains, i, j - 1);
    }
}

/// The frame of a list of domains, for digesting.
fn frame_domains(domains: &DomainSet) -> (frame: Vec<u8>)
    ensures
        frame@ == domain_frame(domains@),
        digestible(frame@),
{
    let names = domains.names();
    let n: usize = names.len();
    let mut frame: Vec<u8> = Vec::new();
    let mut i: usize = 0;
    while i < n
        invariant
            n == names@.len(),
            i <= n,
            frame@ == domain_frame(strs(names@).take(i as int)),
        decreases n - i,
    {
        append_bytes(&mut frame, names[i].as_str().as_bytes());
        frame.push(0u8);
        proof {
            let upto = strs(names@).take(i + 1);
            assert(upto.drop_last() == strs(names@).take(i as int));
            assert(upto.last() == names@[i as int]@);
        }
        i += 1;
    }
    assert(strs(names@).take(n as int) == strs(names@));
    frame
}

/// The name of the record of `kind` for the directory `directory_name` and
/// the domains `domains`. The same arguments always give the same name.
pub fn cache_key(kind: RecordKind, directory_name: &str, domains: &DomainSet) -> (name: String)
    ensures
        name@ == record_name(kind, directory_name@, domains@),
        file_hash_part(domains@).len() == HASH_PART_LEN,
        is_base64url_text(file_hash_part(domains@)),
        is_ascii_chars(file_hash_part(domains@)),
{
    let frame = frame_domains(domains);
    let digest = sha256(frame.as_slice());
    let part = base64url(digest.as_slice());
    proof {
        lemma_base64url_text_is_ascii(part@);
    }
    let mut name = match kind {
        RecordKind::PrivateKey => String::from_str("pkey-"),
        RecordKind::Certificate => String::from_str("cert-"),
    };
    name.append(directory_name);
    name.append("-");
    name.append(part.as_str());
    name
}

/// Whether the UTF-8 bytes of every domain are free of zero bytes.
pub open spec fn zero_free(domains: Seq<Seq<char>>) -> bool {
    forall|i: int, j: int|
        0 <= i < domains.len() && 0 <= j < encode_utf8(domains[i]).len() ==> #[trigger] encode_utf8(
            domains[i],
        )[j] != 0
}

/// Two lists of domains whose bytes hold no zero byte are digested from
/// the same frame only if they are the same list, domain by domain and in
/// the same order. So a reordering that changes the list changes what is
/// digested.
pub proof fn lemma_frame_injective(a: Seq<Seq<char>>, b: Seq<Seq<char>>)
    requires
        zero_free(a),
        zero_free(b),
        domain_frame(a) == domain_frame(b),
    ensures
        a == b,
    decreases a.len(),
{
    if a.len() == 0 {
        if b.len() > 0 {
            assert(domain_frame(b).len() > 0);
        }
        assert(a =~= b);
    } else {
        if b.len() == 0 {
            assert(domain_frame(a).len() > 0);
        }
        let fa = domain_frame(a.drop_last());
        let fb = domain_frame(b.drop_last());
        let ea = encode_utf8(a.last());
        let eb = encode_utf8(b.last());
        let whole = domain_frame(a);
        assert(whole == fa + ea + seq![0u8]);
        assert(whole == fb + eb + seq![0u8]);
        assert(fa.len() + ea.len() == fb.len() + eb.len());
        lemma_frame_ends_with_zero(a.drop_last());
        lemma_frame_ends_with_zero(b.drop_last());
        if ea.len() < eb.len() {
            // The last byte of `fa` is zero, yet it lies inside `eb`.
            let k = fa.len() - 1;
            assert(fa.len() > 0);
            assert(whole[k] == fa[k]);
            assert(whole[k] == eb[k - fb.len()]);
            assert(encode_utf8(b[b.len() - 1])[k - fb.len()] != 0);
        }
        if eb.len() < ea.len() {
            let k = fb.len() - 1;
            assert(fb.len() > 0);
            assert(whole[k] == fb[k]);
            assert(whole[k] == ea[k - fa.len()]);
            assert(encode_utf8(a[a.len() - 1])[k - fa.len()] != 0);
        }
        assert(fa =~= whole.subrange(0, fa.len() as int));
        assert(fb =~= whole.subrange(0, fb.len() as int));
        assert(ea =~= whole.subrange(fa.len() as int, (fa.len() + ea.len()) as int));
        assert(eb =~= whole.subrange(fb.len() as int, (fb.len() + eb.len()) as int));
        encode_utf8_decode_utf8(a.last());
        encode_utf8_decode_utf8(b.last());
        assert(a.last() == b.last());
        lemma_zero_free_prefix(a);
        lemma_zero_free_prefix(b);
        lemma_frame_injective(a.drop_last(), b.drop_last());
        assert(a =~= a.drop_last().push(a.last()));
        assert(b =~= b.drop_last().push(b.last()));
    }
}

/// A list without its last domain is free of zero bytes if the list is.
proof fn lemma_zero_free_prefix(domains: Seq<Seq<char>>)
    requires
        zero_free(domains),
        domains.len() > 0,
    ensures
        zero_free(domains.drop_last()),
{
    let shorter = domains.drop_last();
    assert forall|i: int, j: int|
        0 <= i < shorter.len() && 0 <= j < encode_utf8(shorter[i]).len() implies #[trigger] encode_utf8(
        shorter[i],
    )[j] != 0 by {
        assert(shorter[i] == domains[i]);
        assert(encode_utf8(domains[i])[j] != 0);
    }
}

/// A frame that is not empty ends with a zero byte.
proof fn lemma_frame_ends_with_zero(domains: Seq<Seq<char>>)
    ensures
        domains.len() > 0 ==> domain_frame(domains).len() > 0 && domain_frame(domains).last() == 0,
        domains.len() == 0 ==> domain_frame(domains).len() == 0,
{
}

/// Records of different kinds never share a name, whatever their
/// addresses: a private key and a certificate cannot overwrite each other.
pub proof fn lemma_kinds_apart(
    directory_a: Seq<char>,
    domains_a: Seq<Seq<char>>,
    directory_b: Seq<char>,
    domains_b: Seq<Seq<char>>,
)
    ensures
        record_name(RecordKind::PrivateKey, directory_a, domains_a) != record_name(
            RecordKind::Certificate,
            directory_b,
            domains_b,
        ),
{
    reveal_strlit("pkey-");
    reveal_strlit("cert-");
    let p = record_name(RecordKind::PrivateKey, directory_a, domains_a);
    let c = record_name(RecordKind::Certificate, directory_b, domains_b);
    assert(p[0] == 'p');
    assert(c[0] == 'c');
}

/// What a read of the record named `name` finds in `records`.
pub open spec fn lookup(records: Map<Seq<char>, Seq<u8>>, name: Seq<char>) -> Option<Seq<u8>> {
    if records.contains_key(name) {
        Some(records[name])
    } else {
        None
    }
}

/// The bytes of what a read returned.
pub open spec fn found_bytes(found: Option<Vec<u8>>) -> Option<Seq<u8>> {
    match found {
        Some(data) => Some(data@),
        None => None,
    }
}

/// An error that a cache can report.
pub trait CacheError {

}

/// A place to keep private keys and certificates between runs. The
/// records are addressed by directory name and domain list.
///
/// A read that finds no record reports its absence, not an error. A write
/// replaces the whole record. What an implementation does is its own
/// affair: this trait promises nothing of it.
pub trait AcmeCache {
    /// The error of the backing store.
    type Error: CacheError;

    /// Reads the private key written for this address, if any.
    fn read_pkey(&self, directory_name: &str, domains: &DomainSet) -> Result<
        Option<Vec<u8>>,
        Self::Error,
    >;

    /// Writes the private key for this address.
    fn write_pkey(&mut self, directory_name: &str, domains: &DomainSet, data: &[u8]) -> Result<
        (),
        Self::Error,
    >;

    /// Reads the certificate chain written for this address, if any.
    fn read_cert(&self, directory_name: &str, domains: &DomainSet) -> Result<
        Option<Vec<u8>>,
        Self::Error,
    >;

    /// Writes the certificate chain for this address.
    fn write_cert(&mut self, directory_name: &str, domains: &DomainSet, data: &[u8]) -> Result<
        (),
        Self::Error,
    >;
}

/// What `MemoryCache` answers to a write of `data` under `name`: it
/// refuses a record that is longer than its limit.
pub open spec fn write_result(limit: usize, data: Seq<u8>) -> Result<(), MemoryCacheError> {
    if data.len() <= limit {
        Ok(())
    } else {
        Err(MemoryCacheError::RecordTooLarge)
    }
}

/// The records of a `MemoryCache` after a write of `data` under `name`:
/// the record is replaced, unless it is refused; then nothing changes.
pub open spec fn written(
    records: Map<Seq<char>, Seq<u8>>,
    limit: usize,
    name: Seq<char>,
    data: Seq<u8>,
) -> Map<Seq<char>, Seq<u8>> {
    if data.len() <= limit {
        records.insert(name, data)
    } else {
        records
    }
}

/// The error of a cache held in memory.
#[derive(Clone, Copy, Debug, PartialEq, Eq, Structural)]
pub enum MemoryCacheError {
    /// The record is longer than the cache accepts.
    RecordTooLarge,
}

impl CacheError for MemoryCacheError {

}

/// The byte sequences of the values of a map of byte vectors.
pub open spec fn record_bytes(held: Map<Seq<char>, Vec<u8>>) -> Map<Seq<char>, Seq<u8>> {
    Map::new(|name: Seq<char>| held.contains_key(name), |name: Seq<char>| held[name]@)
}

/// A cache held in memory. It starts empty, and refuses records that are
/// longer than its limit.
pub struct MemoryCache {
    held: StringHashMap<Vec<u8>>,
    limit: usize,
}

impl MemoryCache {
    /// The records that the cache holds, by name.
    pub closed spec fn records(&self) -> Map<Seq<char>, Seq<u8>> {
        record_bytes(self.held@)
    }

    /// The greatest length of a record that this cache accepts.
    pub closed spec fn record_limit(&self) -> usize {
        self.limit
    }

    /// A cache without records that accepts records of any length.
    pub fn new() -> (cache: MemoryCache)
        ensures
            cache.records() == Map::<Seq<char>, Seq<u8>>::empty(),
            cache.record_limit() == usize::MAX,
    {
        MemoryCache::with_record_limit(usize::MAX)
    }

    /// A cache without records that accepts records of up to `limit` bytes.
    pub fn with_record_limit(limit: usize) -> (cache: MemoryCache)
        ensures
            cache.records() == Map::<Seq<char>, Seq<u8>>::empty(),
            cache.record_limit() == limit,
    {
        let cache = MemoryCache { held: StringHashMap::new(), limit };
        assert(cache.records() =~= Map::<Seq<char>, Seq<u8>>::empty());
        cache
    }

    /// Reads the record named `name`, if any.
    pub fn read(&self, name: &str) -> (found: Option<Vec<u8>>)
        ensures
            found_bytes(found) == lookup(self.records(), name@),
    {
        match self.held.get(name) {
            Some(data) => Some(clone_bytes(data)),
            None => None,
        }
    }

    /// Writes the record named `name`, unless it is longer than the limit;
    /// then nothing changes.
    pub fn write(&mut self, name: String, data: &[u8]) -> (res: Result<(), MemoryCacheError>)
        ensures
            final(self).record_limit() == old(self).record_limit(),
            res == write_result(old(self).record_limit(), data@),
            final(self).records() == written(
                old(self).records(),
                old(self).record_limit(),
                name@,
                data@,
            ),
    {
        if data.len() > self.limit {
            return Err(MemoryCacheError::RecordTooLarge);
        }
        let mut copy: Vec<u8> = Vec::new();
        append_bytes(&mut copy, data);
        assert(copy@ == data@);
        self.held.insert(name, copy);
        assert(self.records() =~= old(self).records().insert(name@, data@));
        Ok(())
    }
}

impl AcmeCache for MemoryCache {
    type Error = MemoryCacheError;

    /// Never fails: finds the private key that was written last for this
    /// address, or nothing.
    fn read_pkey(&self, directory_name: &str, domains: &DomainSet) -> (res: Result<
        Option<Vec<u8>>,
        MemoryCacheError,
    >)
        ensures
            res matches Ok(found) && found_bytes(found) == lookup(
                self.records(),
                record_name(RecordKind::PrivateKey, directory_name@, domains@),
            ),
    {
        let name = cache_key(RecordKind::PrivateKey, directory_name, domains);
        Ok(self.read(name.as_str()))
    }

    /// Replaces the private key for this address, unless it is longer
    /// than the limit.
    fn write_pkey(&mut self, directory_name: &str, domains: &DomainSet, data: &[u8]) -> (res:
        Result<(), MemoryCacheError>)
        ensures
            final(self).record_limit() == old(self).record_limit(),
            res == write_result(old(self).record_limit(), data@),
            final(self).records() == written(
                old(self).records(),
                old(self).record_limit(),
                record_name(RecordKind::PrivateKey, directory_name@, domains@),
                data@,
            ),
    {
        let name = cache_key(RecordKind::PrivateKey, directory_name, domains);
        self.write(name, data)
    }

    /// Never fails: finds the certificate chain that was written last for
    /// this address, or nothing.
    fn read_cert(&self, directory_name: &str, domains: &DomainSet) -> (res: Result<
        Option<Vec<u8>>,
        MemoryCacheError,
    >)
        ensures
            res matches Ok(found) && found_bytes(found) == lookup(
                self.records(),
                record_name(RecordKind::Certificate, directory_name@, domains@),
            ),
    {
        let name = cache_key(RecordKind::Certificate, directory_name, domains);
        Ok(self.read(name.as_str()))
    }

    /// Replaces the certificate chain for this address, unless it is
    /// longer than the limit.
    fn write_cert(&mut self, directory_name: &str, domains: &DomainSet, data: &[u8]) -> (res:
        Result<(), MemoryCacheError>)
        ensures
            final(self).record_limit() == old(self).record_limit(),
            res == write_result(old(self).record_limit(), data@),
            final(self).records() == written(
                old(self).records(),
                old(self).record_limit(),
                record_name(RecordKind::Certificate, directory_name@, domains@),
                data@,
            ),
    {
        let name = cache_key(RecordKind::Certificate, directory_name, domains);
        self.write(name, data)
    }
}

/// A record that was written is read back byte for byte, also after the
/// record of the other kind was written for any address; writing it again
/// leaves one record; and a name under which nothing was written reads as
/// absent.
pub proof fn lemma_round_trip(
    records: Map<Seq<char>, Seq<u8>>,
    kind: RecordKind,
    directory_name: Seq<char>,
    domains: Seq<Seq<char>>,
    data: Seq<u8>,
    other_directory: Seq<char>,
    other_domains: Seq<Seq<char>>,
    other_data: Seq<u8>,
)
    ensures
        lookup(
            records.insert(record_name(kind, directory_name, domains), data),
            record_name(kind, directory_name, domains),
        ) == Some(data),
        lookup(
            records.insert(record_name(kind, directory_name, domains), data).insert(
                record_name(other_kind(kind), other_directory, other_domains),
                other_data,
            ),
            record_name(kind, directory_name, domains),
        ) == Some(data),
        records.insert(record_name(kind, directory_name, domains), data).insert(
            record_name(kind, directory_name, domains),
            data,
        ) == records.insert(record_name(kind, directory_name, domains), data),
        !records.contains_key(record_name(kind, directory_name, domains)) ==> lookup(
            records,
            record_name(kind, directory_name, domains),
        ) == None::<Seq<u8>>,
        lookup(Map::<Seq<char>, Seq<u8>>::empty(), record_name(kind, directory_name, domains))
            == None::<Seq<u8>>,
{
    match kind {
        RecordKind::PrivateKey => {
            lemma_kinds_apart(directory_name, domains, other_directory, other_domains);
        },
        RecordKind::Certificate => {
            lemma_kinds_apart(other_directory, other_domains, directory_name, domains);
        },
    }
    let name = record_name(kind, directory_name, domains);
    assert(records.insert(name, data).insert(name, data) =~= records.insert(name, data));
}

/// The kind of the other record at an address.
pub open spec fn other_kind(kind: RecordKind) -> RecordKind {
    match kind {
        RecordKind::PrivateKey => RecordKind::Certificate,
        RecordKind::Certificate => RecordKind::PrivateKey,
    }
}

} // verus!
