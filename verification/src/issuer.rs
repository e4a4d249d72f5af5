//! The issuance state machine. One round takes a new order through
//! authorization, finalization and download, installs the certificate in
//! the resolver and hands it to the cache.
//!
//! The machine does no input or output. It is told what happened, as an
//! `Event`, and answers with what to do next, as an `Action`. Whoever
//! drives it talks to the certificate authority, sleeps and writes the
//! cache.

use vstd::prelude::*;
use vstd::string::*;
use vstd::utf8::is_ascii_chars;
use crate::acme::{
    find_challenge, parse_status, status_of, Authorization, AuthorizationView, ChallengeType,
    ChallengeView, Order, OrderStatus, OrderStatusView, OrderView, Status,
};
use crate::cache::DomainSet;
use crate::certgen::{
    all_ascii, generate_challenge_certificate, generate_signing_request, parse_certificates,
    pem_certificates, SigningRequest, SigningRequestView,
};
use crate::jose::{
    key_authorization, key_authorization_digest_result, key_authorization_result,
    key_authorization_sha256, AccountKey, JoseError,
};
use crate::resolver::{CertifiedKey, CertifiedKeyView, Resolver, ResolverView};
use crate::text::{byte_rows, clone_bytes, clone_strings, strs};

verus! {

/// The greatest number of passes over the authorizations of an order.
pub const MAX_ROUNDS: u64 = 4;

/// The pause after the first unsuccessful pass, in seconds. The pause
/// after the `i`-th pass is `i` times as long.
pub const BACKOFF_SECONDS: u64 = 10;

/// Why an issuance round failed.
#[derive(Clone, Copy, Debug, PartialEq, Eq, Structural)]
pub enum IssueError {
    /// The authority refused a request, could not be reached, or gave an
    /// answer that does not fit the protocol.
    ProtocolError,
    /// The authority marked a domain as invalid.
    AuthorizationFailed,
    /// The authorizations were not all valid after the last pass.
    AuthorizationTimeout,
    /// The authority marked the order as invalid at finalization.
    CertificateRequestRejected,
    /// The order was neither valid nor invalid after finalization.
    UnexpectedOrderStatus,
    /// The downloaded certificate chain is not well-formed PEM.
    InvalidCertificateFormat,
    /// The cache could not be written. This never fails a round: it is
    /// reported beside the result of a round whose certificate is
    /// installed.
    CacheIoError,
    /// A key, a certificate or a signing request could not be made.
    CryptoError,
}

impl IssueError {
    /// What went wrong, in words.
    pub open spec fn text(self) -> Seq<char> {
        match self {
            IssueError::ProtocolError => "the certificate authority refused or failed a request"@,
            IssueError::AuthorizationFailed => "unable to authorize a domain"@,
            IssueError::AuthorizationTimeout => "authorization failed too many times"@,
            IssueError::CertificateRequestRejected => "failed to request certificate"@,
            IssueError::UnexpectedOrderStatus => "failed to request certificate: unexpected status"@,
            IssueError::InvalidCertificateFormat => "invalid pem"@,
            IssueError::CacheIoError => "failed to write the certificate cache"@,
            IssueError::CryptoError => "failed to create a key, a certificate or a request"@,
        }
    }

    /// What went wrong, in words.
    pub fn message(self) -> (text: &'static str)
        ensures
            text@ == self.text(),
    {
        match self {
            IssueError::ProtocolError => "the certificate authority refused or failed a request",
            IssueError::AuthorizationFailed => "unable to authorize a domain",
            IssueError::AuthorizationTimeout => "authorization failed too many times",
            IssueError::CertificateRequestRejected => "failed to request certificate",
            IssueError::UnexpectedOrderStatus => "failed to request certificate: unexpected status",
            IssueError::InvalidCertificateFormat => "invalid pem",
            IssueError::CacheIoError => "failed to write the certificate cache",
            IssueError::CryptoError => "failed to create a key, a certificate or a request",
        }
    }
}

/// What the machine waits for while it authorizes.
#[derive(Clone, Copy, Debug, PartialEq, Eq, Structural)]
pub enum Waiting {
    /// The authorization at the cursor.
    Fetch,
    /// The acknowledgement that the challenge at the cursor was triggered.
    Trigger,
    /// The end of the pause between two passes.
    Sleep,
}

/// How far the installed certificate got on its way to the cache.
#[derive(Clone, Copy, Debug, PartialEq, Eq, Structural)]
pub enum Storing {
    /// The private key is being written.
    PrivateKey,
    /// The certificate chain is being written.
    Certificate,
    /// Nothing is left to write.
    Done,
    /// A write failed. The certificate stays installed, and the round
    /// counts as installed.
    Failed,
}

/// Where an issuance round stands.
#[derive(Clone, Copy, Debug, PartialEq, Eq, Structural)]
pub enum Phase {
    /// A new order was requested.
    OrderCreated,
    /// The authorizations of the order are polled, in passes. `round`
    /// counts the passes from one, `next` is the cursor into the
    /// authorizations, and `all_valid` tells whether every authorization
    /// seen so far in this pass was valid.
    Authorizing { round: u64, next: usize, all_valid: bool, waiting: Waiting },
    /// The signing request was sent.
    Finalizing,
    /// The certificate is being downloaded.
    Downloading,
    /// The certificate is installed in the resolver.
    Installed { storing: Storing },
    /// The round failed.
    Failed { reason: IssueError },
}

/// What the configuration of an issuer holds.
pub struct ConfigView {
    pub directory_name: Seq<char>,
    pub domains: Seq<Seq<char>>,
    pub challenge_type: ChallengeType,
    pub account_key: Seq<u8>,
    pub cache: bool,
}

/// What an issuer is set up with.
#[derive(Debug)]
pub struct AcmeConfig {
    /// The name of the authority's directory, which is part of the
    /// address of a cache record.
    pub directory_name: String,
    /// The domains to certify.
    pub domains: DomainSet,
    /// The way in which control of the domains is proved.
    pub challenge_type: ChallengeType,
    /// The public half of the account key.
    pub account_key: AccountKey,
    /// Whether a persistent cache is configured.
    pub cache: bool,
}

impl View for AcmeConfig {
    type V = ConfigView;

    open spec fn view(&self) -> ConfigView {
        ConfigView {
            directory_name: self.directory_name@,
            domains: self.domains@,
            challenge_type: self.challenge_type,
            account_key: self.account_key@,
            cache: self.cache,
        }
    }
}

/// What was computed outside the machine for one step, as views.
pub enum MaterialView {
    Nothing,
    KeyAuthorization(Result<Seq<char>, JoseError>),
    ChallengeCertificate(Option<CertifiedKeyView>),
    SigningRequest(Option<SigningRequestView>),
    CertificateChain(Option<Seq<Seq<u8>>>),
}

/// What was computed outside the machine for one step.
#[derive(Debug, PartialEq, Eq)]
pub enum Material {
    /// The step needs nothing.
    Nothing,
    /// The key authorization of the token of a pending HTTP-01 challenge.
    KeyAuthorization(Result<String, JoseError>),
    /// The certificate that answers a pending TLS-ALPN-01 challenge, if it
    /// could be made.
    ChallengeCertificate(Option<CertifiedKey>),
    /// A fresh key pair with its signing request, if they could be made.
    SigningRequest(Option<SigningRequest>),
    /// The certificates of a downloaded chain, if it is well-formed.
    CertificateChain(Option<Vec<Vec<u8>>>),
}

impl View for Material {
    type V = MaterialView;

    open spec fn view(&self) -> MaterialView {
        match self {
            Material::Nothing => MaterialView::Nothing,
            Material::KeyAuthorization(res) => MaterialView::KeyAuthorization(
                match res {
                    Ok(text) => Ok(text@),
                    Err(e) => Err(*e),
                },
            ),
            Material::ChallengeCertificate(cert) => MaterialView::ChallengeCertificate(
                match cert {
                    Some(c) => Some(c@),
                    None => None,
                },
            ),
            Material::SigningRequest(request) => MaterialView::SigningRequest(
                match request {
                    Some(r) => Some(r@),
                    None => None,
                },
            ),
            Material::CertificateChain(chain) => MaterialView::CertificateChain(
                match chain {
                    Some(c) => Some(byte_rows(c@)),
                    None => None,
                },
            ),
        }
    }
}

/// What happened, as views.
pub enum EventView {
    OrderCreated(OrderView),
    AuthorizationFetched(AuthorizationView),
    ChallengeTriggered,
    Slept,
    CsrSent(OrderStatusView),
    CertificateObtained(Seq<u8>),
    CacheWritten,
    ClientFailed,
    CacheFailed,
}

/// What happened since the last action was handed out.
#[derive(Debug, PartialEq, Eq)]
pub enum Event {
    /// The authority created the order.
    OrderCreated(Order),
    /// The authority sent the authorization that was asked for.
    AuthorizationFetched(Authorization),
    /// The authority was told that the challenge is ready.
    ChallengeTriggered,
    /// The pause is over.
    Slept,
    /// The authority answered the signing request.
    CsrSent(OrderStatus),
    /// The certificate chain was downloaded, in PEM.
    CertificateObtained(Vec<u8>),
    /// The cache record was written.
    CacheWritten,
    /// The request to the authority failed.
    ClientFailed,
    /// The cache record could not be written.
    CacheFailed,
}

impl View for Event {
    type V = EventView;

    open spec fn view(&self) -> EventView {
        match self {
            Event::OrderCreated(order) => EventView::OrderCreated(order@),
            Event::AuthorizationFetched(authorization) => EventView::AuthorizationFetched(
                authorization@,
            ),
            Event::ChallengeTriggered => EventView::ChallengeTriggered,
            Event::Slept => EventView::Slept,
            Event::CsrSent(status) => EventView::CsrSent(status@),
            Event::CertificateObtained(pem) => EventView::CertificateObtained(pem@),
            Event::CacheWritten => EventView::CacheWritten,
            Event::ClientFailed => EventView::ClientFailed,
            Event::CacheFailed => EventView::CacheFailed,
        }
    }
}

/// What to do next, as views.
pub enum ActionView {
    NewOrder { domains: Seq<Seq<char>> },
    FetchAuthorization { url: Seq<char> },
    TriggerChallenge { identifier: Seq<char>, challenge_type: ChallengeType, url: Seq<char> },
    Sleep { seconds: u64 },
    SendCsr { finalize_url: Seq<char>, csr_der: Seq<u8> },
    ObtainCertificate { url: Seq<char> },
    WritePkey { data: Seq<u8> },
    WriteCert { data: Seq<u8> },
    Finish { result: Result<(), IssueError>, cache_error: Option<IssueError> },
}

/// What to do next.
#[derive(Debug, PartialEq, Eq)]
pub enum Action {
    /// Ask the authority for a new order for `domains`.
    NewOrder { domains: Vec<String> },
    /// Fetch the authorization at `url`.
    FetchAuthorization { url: String },
    /// Tell the authority that the challenge at `url` is ready.
    TriggerChallenge { identifier: String, challenge_type: ChallengeType, url: String },
    /// Pause for `seconds` seconds.
    Sleep { seconds: u64 },
    /// Send the signing request `csr_der` to `finalize_url`.
    SendCsr { finalize_url: String, csr_der: Vec<u8> },
    /// Download the certificate chain from `url`.
    ObtainCertificate { url: String },
    /// Write `data` to the cache as the private key of the configured
    /// directory and domains.
    WritePkey { data: Vec<u8> },
    /// Write `data` to the cache as the certificate chain of the
    /// configured directory and domains.
    WriteCert { data: Vec<u8> },
    /// The round is over. `result` tells whether the certificate was
    /// issued and installed. `cache_error` reports, beside that result, a
    /// write to the cache that failed: the certificate is installed all
    /// the same.
    Finish { result: Result<(), IssueError>, cache_error: Option<IssueError> },
}

impl View for Action {
    type V = ActionView;

    open spec fn view(&self) -> ActionView {
        match self {
            Action::NewOrder { domains } => ActionView::NewOrder { domains: strs(domains@) },
            Action::FetchAuthorization { url } => ActionView::FetchAuthorization { url: url@ },
            Action::TriggerChallenge { identifier, challenge_type, url } => {
                ActionView::TriggerChallenge {
                    identifier: identifier@,
                    challenge_type: *challenge_type,
                    url: url@,
                }
            },
            Action::Sleep { seconds } => ActionView::Sleep { seconds: *seconds },
            Action::SendCsr { finalize_url, csr_der } => ActionView::SendCsr {
                finalize_url: finalize_url@,
                csr_der: csr_der@,
            },
            Action::ObtainCertificate { url } => ActionView::ObtainCertificate { url: url@ },
            Action::WritePkey { data } => ActionView::WritePkey { data: data@ },
            Action::WriteCert { data } => ActionView::WriteCert { data: data@ },
            Action::Finish { result, cache_error } => ActionView::Finish {
                result: *result,
                cache_error: *cache_error,
            },
        }
    }
}

/// What an issuer holds.
pub struct IssuerView {
    pub config: ConfigView,
    pub phase: Phase,
    /// Where to fetch the authorizations of the order.
    pub authorizations: Seq<Seq<char>>,
    /// Where to send the signing request.
    pub finalize: Seq<char>,
    /// The tokens whose HTTP-01 answers this round registered.
    pub http01_tokens: Seq<Seq<char>>,
    /// The domains whose TLS-ALPN-01 certificates this round registered.
    pub tls_alpn01_domains: Seq<Seq<char>>,
    /// The private key that was generated for the new certificate.
    pub private_key_der: Seq<u8>,
    pub private_key_pem: Seq<u8>,
    /// The certificate chain as it was downloaded.
    pub certificate_pem: Seq<u8>,
}

/// The state after a step, and the action that the step hands out.
pub struct Outcome {
    pub issuer: IssuerView,
    pub resolver: ResolverView,
    pub action: ActionView,
}

impl IssuerView {
    /// Whether the counters of the authorizing phase are in range: the
    /// round is one of the allowed passes, the cursor points at an
    /// authorization, a challenge is only triggered in a pass that is no
    /// longer all valid, and a pause only follows such a pass if another
    /// pass is left. And no round has failed for the cache.
    pub open spec fn well_formed(self) -> bool {
        match self.phase {
            Phase::Authorizing { round, next, all_valid, waiting } => {
                &&& 1 <= round <= MAX_ROUNDS
                &&& next < self.authorizations.len()
                &&& waiting != Waiting::Fetch ==> !all_valid
                &&& waiting == Waiting::Sleep ==> round < MAX_ROUNDS
            },
            Phase::Failed { reason } => reason != IssueError::CacheIoError,
            _ => true,
        }
    }

    /// Whether the round is over: it failed, or its certificate is
    /// installed and nothing is left to write.
    pub open spec fn is_over(self) -> bool {
        match self.phase {
            Phase::Failed { .. } => true,
            Phase::Installed { storing } => storing == Storing::Done || storing
                == Storing::Failed,
            _ => false,
        }
    }

    /// This state in another phase.
    pub open spec fn in_phase(self, phase: Phase) -> IssuerView {
        IssuerView { phase, ..self }
    }

    /// This state without the record of the challenges that it registered.
    pub open spec fn settled(self) -> IssuerView {
        IssuerView { http01_tokens: Seq::empty(), tls_alpn01_domains: Seq::empty(), ..self }
    }

    /// The state in which a round begins.
    pub open spec fn initial(config: ConfigView) -> IssuerView {
        IssuerView {
            config,
            phase: Phase::OrderCreated,
            authorizations: Seq::empty(),
            finalize: Seq::empty(),
            http01_tokens: Seq::empty(),
            tls_alpn01_domains: Seq::empty(),
            private_key_der: Seq::empty(),
            private_key_pem: Seq::empty(),
            certificate_pem: Seq::empty(),
        }
    }
}

/// The round fails for `reason`: the challenges that it registered are
/// forgotten, and the active certificate stays.
pub open spec fn fail(s: IssuerView, r: ResolverView, reason: IssueError) -> Outcome {
    Outcome {
        issuer: s.settled().in_phase(Phase::Failed { reason }),
        resolver: r.forget(s.http01_tokens, s.tls_alpn01_domains),
        action: ActionView::Finish { result: Err(reason), cache_error: None },
    }
}

/// Authorization is over and every authorization is valid: the challenges
/// are forgotten and the signing request is sent, if one could be made.
pub open spec fn finalize(s: IssuerView, r: ResolverView, m: MaterialView) -> Outcome {
    match m {
        MaterialView::SigningRequest(Some(request)) => Outcome {
            issuer: IssuerView {
                phase: Phase::Finalizing,
                private_key_der: request.private_key_der,
                private_key_pem: request.private_key_pem,
                ..s.settled()
            },
            resolver: r.forget(s.http01_tokens, s.tls_alpn01_domains),
            action: ActionView::SendCsr { finalize_url: s.finalize, csr_der: request.csr_der },
        },
        _ => fail(s, r, IssueError::CryptoError),
    }
}

/// The order was created: its authorizations are polled from the first,
/// in the first pass; an order without authorizations is finalized at
/// once.
pub open spec fn on_order(
    s: IssuerView,
    r: ResolverView,
    order: OrderView,
    m: MaterialView,
) -> Outcome {
    let s1 = IssuerView { authorizations: order.authorizations, finalize: order.finalize, ..s };
    if order.authorizations.len() == 0 {
        finalize(s1, r, m)
    } else {
        Outcome {
            issuer: s1.in_phase(
                Phase::Authorizing { round: 1, next: 0, all_valid: true, waiting: Waiting::Fetch },
            ),
            resolver: r,
            action: ActionView::FetchAuthorization { url: order.authorizations[0] },
        }
    }
}

/// The authorization at the cursor is dealt with for this pass. The
/// machine moves on to the next authorization. After the last one it
/// finalizes if all were valid, pauses if a pass is left, and gives up
/// otherwise. The pause after pass `i` lasts `i` times ten seconds.
pub open spec fn after_authorization(s: IssuerView, r: ResolverView, m: MaterialView) -> Outcome
    recommends
        s.phase is Authorizing,
{
    let round = s.phase->round;
    let next = s.phase->next;
    let all_valid = s.phase->all_valid;
    if next + 1 < s.authorizations.len() {
        Outcome {
            issuer: s.in_phase(
                Phase::Authorizing {
                    round,
                    next: (next + 1) as usize,
                    all_valid,
                    waiting: Waiting::Fetch,
                },
            ),
            resolver: r,
            action: ActionView::FetchAuthorization { url: s.authorizations[next + 1] },
        }
    } else if all_valid {
        finalize(s, r, m)
    } else if round < MAX_ROUNDS {
        Outcome {
            issuer: s.in_phase(
                Phase::Authorizing { round, next, all_valid, waiting: Waiting::Sleep },
            ),
            resolver: r,
            action: ActionView::Sleep { seconds: (round * BACKOFF_SECONDS) as u64 },
        }
    } else {
        fail(s, r, IssueError::AuthorizationTimeout)
    }
}

/// A pending authorization offers the challenge `challenge`: its answer
/// is registered in the resolver, and then the challenge is triggered.
pub open spec fn register(
    s: IssuerView,
    r: ResolverView,
    identifier: Seq<char>,
    challenge: ChallengeView,
    m: MaterialView,
) -> Outcome
    recommends
        s.phase is Authorizing,
{
    let phase = Phase::Authorizing {
        round: s.phase->round,
        next: s.phase->next,
        all_valid: false,
        waiting: Waiting::Trigger,
    };
    let action = ActionView::TriggerChallenge {
        identifier,
        challenge_type: s.config.challenge_type,
        url: challenge.url,
    };
    match (s.config.challenge_type, m) {
        (ChallengeType::Http01, MaterialView::KeyAuthorization(Ok(text))) => Outcome {
            issuer: IssuerView { phase, http01_tokens: s.http01_tokens.push(challenge.token), ..s },
            resolver: r.set_http01(challenge.token, text),
            action,
        },
        (ChallengeType::TlsAlpn01, MaterialView::ChallengeCertificate(Some(cert))) => Outcome {
            issuer: IssuerView {
                phase,
                tls_alpn01_domains: s.tls_alpn01_domains.push(identifier),
                ..s
            },
            resolver: r.set_tls_alpn01(identifier, cert),
            action,
        },
        _ => fail(s, r, IssueError::CryptoError),
    }
}

/// The authorization at the cursor arrived. A valid one is skipped. A
/// pending one has its challenge registered and triggered. An invalid one
/// ends the round at once. Any other status only marks the pass as not
/// all valid.
pub open spec fn on_authorization(
    s: IssuerView,
    r: ResolverView,
    authorization: AuthorizationView,
    m: MaterialView,
) -> Outcome
    recommends
        s.phase is Authorizing,
{
    match status_of(authorization.status) {
        Status::Valid => after_authorization(s, r, m),
        Status::Pending => match find_challenge(authorization.challenges, s.config.challenge_type) {
            Some(challenge) => register(s, r, authorization.identifier, challenge, m),
            None => fail(s, r, IssueError::ProtocolError),
        },
        Status::Invalid => fail(s, r, IssueError::AuthorizationFailed),
        Status::Other => after_authorization(
            s.in_phase(
                Phase::Authorizing {
                    round: s.phase->round,
                    next: s.phase->next,
                    all_valid: false,
                    waiting: Waiting::Fetch,
                },
            ),
            r,
            m,
        ),
    }
}

/// The pause is over: the next pass polls every authorization again.
pub open spec fn next_round(s: IssuerView, r: ResolverView) -> Outcome
    recommends
        s.phase is Authorizing,
{
    Outcome {
        issuer: s.in_phase(
            Phase::Authorizing {
                round: (s.phase->round + 1) as u64,
                next: 0,
                all_valid: true,
                waiting: Waiting::Fetch,
            },
        ),
        resolver: r,
        action: ActionView::FetchAuthorization { url: s.authorizations[0] },
    }
}

/// The authority answered the signing request. Only a valid order with a
/// place to download the certificate goes on; finalization is not tried
/// again.
pub open spec fn on_order_status(
    s: IssuerView,
    r: ResolverView,
    status: OrderStatusView,
) -> Outcome {
    match status_of(status.status) {
        Status::Invalid => fail(s, r, IssueError::CertificateRequestRejected),
        Status::Valid => match status.certificate {
            Some(url) => Outcome {
                issuer: s.in_phase(Phase::Downloading),
                resolver: r,
                action: ActionView::ObtainCertificate { url },
            },
            None => fail(s, r, IssueError::ProtocolError),
        },
        _ => fail(s, r, IssueError::UnexpectedOrderStatus),
    }
}

/// The chain was downloaded. If it is well-formed it becomes the active
/// certificate, together with the key that was generated for it, in one
/// step; then it goes to the cache, if one is configured.
pub open spec fn on_certificate(
    s: IssuerView,
    r: ResolverView,
    pem: Seq<u8>,
    m: MaterialView,
) -> Outcome {
    match m {
        MaterialView::CertificateChain(Some(chain)) => Outcome {
            issuer: IssuerView {
                phase: Phase::Installed {
                    storing: if s.config.cache {
                        Storing::PrivateKey
                    } else {
                        Storing::Done
                    },
                },
                certificate_pem: pem,
                ..s
            },
            resolver: r.install(CertifiedKeyView { chain, key: s.private_key_der }),
            action: if s.config.cache {
                ActionView::WritePkey { data: s.private_key_pem }
            } else {
                ActionView::Finish { result: Ok(()), cache_error: None }
            },
        },
        _ => fail(s, r, IssueError::InvalidCertificateFormat),
    }
}

/// The certificate is installed and on its way to the cache: first the
/// private key, then the chain. A failed write does not fail the round:
/// the round ends as installed, nothing of it is undone or repeated, and
/// the failure is reported beside the result. The chain is not written
/// after the key could not be.
pub open spec fn on_stored(
    s: IssuerView,
    r: ResolverView,
    storing: Storing,
    e: EventView,
) -> Outcome {
    match storing {
        Storing::PrivateKey => if e is CacheWritten {
            Outcome {
                issuer: s.in_phase(Phase::Installed { storing: Storing::Certificate }),
                resolver: r,
                action: ActionView::WriteCert { data: s.certificate_pem },
            }
        } else {
            Outcome {
                issuer: s.in_phase(Phase::Installed { storing: Storing::Failed }),
                resolver: r,
                action: ActionView::Finish {
                    result: Ok(()),
                    cache_error: Some(IssueError::CacheIoError),
                },
            }
        },
        Storing::Certificate => if e is CacheWritten {
            Outcome {
                issuer: s.in_phase(Phase::Installed { storing: Storing::Done }),
                resolver: r,
                action: ActionView::Finish { result: Ok(()), cache_error: None },
            }
        } else {
            Outcome {
                issuer: s.in_phase(Phase::Installed { storing: Storing::Failed }),
                resolver: r,
                action: ActionView::Finish {
                    result: Ok(()),
                    cache_error: Some(IssueError::CacheIoError),
                },
            }
        },
        Storing::Done => Outcome {
            issuer: s,
            resolver: r,
            action: ActionView::Finish { result: Ok(()), cache_error: None },
        },
        Storing::Failed => Outcome {
            issuer: s,
            resolver: r,
            action: ActionView::Finish {
                    result: Ok(()),
                    cache_error: Some(IssueError::CacheIoError),
                },
        },
    }
}

/// One step of the machine: the state and the action that follow from the
/// state `s`, the resolver `r`, the event `e` and the material `m`. An
/// event that does not answer the action that is outstanding fails the
/// round. A round that is over stays as it is.
pub open spec fn transition(
    s: IssuerView,
    r: ResolverView,
    e: EventView,
    m: MaterialView,
) -> Outcome {
    match s.phase {
        Phase::OrderCreated => match e {
            EventView::OrderCreated(order) => on_order(s, r, order, m),
            _ => fail(s, r, IssueError::ProtocolError),
        },
        Phase::Authorizing { waiting, .. } => match (waiting, e) {
            (Waiting::Fetch, EventView::AuthorizationFetched(authorization)) => on_authorization(
                s,
                r,
                authorization,
                m,
            ),
            (Waiting::Trigger, EventView::ChallengeTriggered) => after_authorization(s, r, m),
            (Waiting::Sleep, EventView::Slept) => next_round(s, r),
            _ => fail(s, r, IssueError::ProtocolError),
        },
        Phase::Finalizing => match e {
            EventView::CsrSent(status) => on_order_status(s, r, status),
            _ => fail(s, r, IssueError::ProtocolError),
        },
        Phase::Downloading => match e {
            EventView::CertificateObtained(pem) => on_certificate(s, r, pem, m),
            _ => fail(s, r, IssueError::ProtocolError),
        },
        Phase::Installed { storing } => on_stored(s, r, storing, e),
        Phase::Failed { reason } => Outcome {
            issuer: s,
            resolver: r,
            action: ActionView::Finish { result: Err(reason), cache_error: None },
        },
    }
}

/// What a step needs from outside the machine.
pub enum Need {
    /// Nothing.
    Nothing,
    /// The key authorization of `token`.
    KeyAuthorization { token: Seq<char> },
    /// A certificate for `domain` that carries the digest of the key
    /// authorization of `token`.
    ChallengeCertificate { domain: Seq<char>, token: Seq<char> },
    /// A fresh key pair and a signing request for the configured domains.
    SigningRequest,
    /// The certificates of the chain `pem`.
    CertificateChain { pem: Seq<u8> },
}

/// What the step from the state `s` on the event `e` needs: the answer to
/// the challenge of a pending authorization, a signing request when the
/// step ends the authorization with every authorization valid, and the
/// certificates of a downloaded chain.
pub open spec fn need(s: IssuerView, e: EventView) -> Need {
    match (s.phase, e) {
        (Phase::OrderCreated, EventView::OrderCreated(order)) => if order.authorizations.len() == 0 {
            Need::SigningRequest
        } else {
            Need::Nothing
        },
        (
            Phase::Authorizing { next, all_valid, waiting: Waiting::Fetch, .. },
            EventView::AuthorizationFetched(authorization),
        ) => match status_of(authorization.status) {
            Status::Pending => match find_challenge(
                authorization.challenges,
                s.config.challenge_type,
            ) {
                Some(challenge) => match s.config.challenge_type {
                    ChallengeType::Http01 => Need::KeyAuthorization { token: challenge.token },
                    ChallengeType::TlsAlpn01 => Need::ChallengeCertificate {
                        domain: authorization.identifier,
                        token: challenge.token,
                    },
                },
                None => Need::Nothing,
            },
            Status::Valid => if !(next + 1 < s.authorizations.len()) && all_valid {
                Need::SigningRequest
            } else {
                Need::Nothing
            },
            _ => Need::Nothing,
        },
        (Phase::Downloading, EventView::CertificateObtained(pem)) => Need::CertificateChain { pem },
        _ => Need::Nothing,
    }
}

/// Whether a challenge certificate, if `m` holds one, is a chain of one
/// certificate: the certificate that answers the challenge is
/// self-signed.
pub open spec fn single_certificate(m: MaterialView) -> bool {
    match m {
        MaterialView::ChallengeCertificate(Some(cert)) => cert.chain.len() == 1,
        _ => true,
    }
}

/// Whether `m` is material that `Issuer::prepare` may have made for the
/// step from `s` on `e`. A key authorization and the certificates of a
/// chain are determined by what they are made from. A challenge
/// certificate and a signing request hold a fresh key, so only their kind
/// is determined, that none is made for a name that is not ASCII or from
/// a key authorization that has no digest, and that a challenge
/// certificate is a chain of one certificate.
pub open spec fn fitting(s: IssuerView, e: EventView, m: MaterialView) -> bool {
    match need(s, e) {
        Need::Nothing => m == MaterialView::Nothing,
        Need::KeyAuthorization { token } => m == MaterialView::KeyAuthorization(
            key_authorization_result(s.config.account_key, token),
        ),
        Need::ChallengeCertificate { domain, token } => {
            &&& m is ChallengeCertificate
            &&& (key_authorization_digest_result(s.config.account_key, token) is Err
                || !is_ascii_chars(domain)) ==> m == MaterialView::ChallengeCertificate(None)
            &&& single_certificate(m)
        },
        Need::SigningRequest => {
            &&& m is SigningRequest
            &&& !all_ascii(s.config.domains) ==> m == MaterialView::SigningRequest(None)
        },
        Need::CertificateChain { pem } => m == MaterialView::CertificateChain(pem_certificates(pem)),
    }
}

/// The driver of one issuance round.
#[derive(Debug)]
pub struct Issuer {
    config: AcmeConfig,
    phase: Phase,
    authorizations: Vec<String>,
    finalize: String,
    http01_tokens: Vec<String>,
    tls_alpn01_domains: Vec<String>,
    private_key_der: Vec<u8>,
    private_key_pem: Vec<u8>,
    certificate_pem: Vec<u8>,
}

impl View for Issuer {
    type V = IssuerView;

    closed spec fn view(&self) -> IssuerView {
        IssuerView {
            config: self.config@,
            phase: self.phase,
            authorizations: strs(self.authorizations@),
            finalize: self.finalize@,
            http01_tokens: strs(self.http01_tokens@),
            tls_alpn01_domains: strs(self.tls_alpn01_domains@),
            private_key_der: self.private_key_der@,
            private_key_pem: self.private_key_pem@,
            certificate_pem: self.certificate_pem@,
        }
    }
}

/// The outcome that an issuer, a resolver and an action stand for.
pub open spec fn outcome_of(issuer: Issuer, resolver: Resolver, action: Action) -> Outcome {
    Outcome { issuer: issuer@, resolver: resolver@, action: action@ }
}

/// The list of no strings stands for the empty sequence.
proof fn lemma_no_strings()
    ensures
        strs(Seq::<String>::empty()) == Seq::<Seq<char>>::empty(),
{
    assert(strs(Seq::<String>::empty()) =~= Seq::<Seq<char>>::empty());
}

/// Appending a string appends its text.
proof fn lemma_strs_push(v: Seq<String>, s: String)
    ensures
        strs(v.push(s)) == strs(v).push(s@),
{
    assert(strs(v.push(s)) =~= strs(v).push(s@));
}

impl Issuer {
    #[verifier::type_invariant]
    closed spec fn inv(&self) -> bool {
        self@.well_formed()
    }

    /// Begins a round: the first action asks for a new order for the
    /// configured domains.
    pub fn new(config: AcmeConfig) -> (res: (Issuer, Action))
        ensures
            res.0@ == IssuerView::initial(config@),
            res.1@ == (ActionView::NewOrder { domains: config@.domains }),
    {
        let domains = clone_strings(config.domains.names());
        proof {
            lemma_no_strings();
        }
        let issuer = Issuer {
            config,
            phase: Phase::OrderCreated,
            authorizations: Vec::new(),
            finalize: String::new(),
            http01_tokens: Vec::new(),
            tls_alpn01_domains: Vec::new(),
            private_key_der: Vec::new(),
            private_key_pem: Vec::new(),
            certificate_pem: Vec::new(),
        };
        (issuer, Action::NewOrder { domains })
    }

    /// Where the round stands. While it authorizes, the round is between
    /// one and `MAX_ROUNDS`.
    pub fn phase(&self) -> (phase: Phase)
        ensures
            phase == self@.phase,
            self@.well_formed(),
    {
        proof {
            use_type_invariant(self);
        }
        self.phase
    }

    /// What the issuer was set up with.
    pub fn config(&self) -> (config: &AcmeConfig)
        ensures
            config@ == self@.config,
    {
        &self.config
    }

    /// Whether the round is over, so that every further step only repeats
    /// its result.
    pub fn is_over(&self) -> (over: bool)
        ensures
            over == self@.is_over(),
    {
        match self.phase {
            Phase::Failed { .. } => true,
            Phase::Installed { storing } => match storing {
                Storing::Done => true,
                Storing::Failed => true,
                _ => false,
            },
            _ => false,
        }
    }

    /// Gives the round up, as when it is cancelled from outside: the
    /// challenge answers that it registered are taken out of the resolver,
    /// and nothing else of the resolver changes.
    pub fn abandon(self, resolver: &mut Resolver)
        ensures
            final(resolver)@ == old(resolver)@.forget(
                self@.http01_tokens,
                self@.tls_alpn01_domains,
            ),
    {
        resolver.forget_challenges(&self.http01_tokens, &self.tls_alpn01_domains);
    }

    /// Fails the round for `reason`, and forgets its challenges.
    fn fail(self, resolver: &mut Resolver, reason: IssueError) -> (res: (Issuer, Action))
        requires
            reason != IssueError::CacheIoError,
        ensures
            outcome_of(res.0, *final(resolver), res.1) == fail(self@, old(resolver)@, reason),
    {
        let Issuer {
            config,
            phase: _,
            authorizations,
            finalize,
            http01_tokens,
            tls_alpn01_domains,
            private_key_der,
            private_key_pem,
            certificate_pem,
        } = self;
        resolver.forget_challenges(&http01_tokens, &tls_alpn01_domains);
        proof {
            lemma_no_strings();
        }
        let issuer = Issuer {
            config,
            phase: Phase::Failed { reason },
            authorizations,
            finalize,
            http01_tokens: Vec::new(),
            tls_alpn01_domains: Vec::new(),
            private_key_der,
            private_key_pem,
            certificate_pem,
        };
        (issuer, Action::Finish { result: Err(reason), cache_error: None })
    }

    /// Ends the authorization and sends the signing request.
    fn finalize(self, resolver: &mut Resolver, material: Material) -> (res: (Issuer, Action))
        ensures
            outcome_of(res.0, *final(resolver), res.1) == finalize(
                self@,
                old(resolver)@,
                material@,
            ),
    {
        match material {
            Material::SigningRequest(Some(request)) => {
                let Issuer {
                    config,
                    phase: _,
                    authorizations,
                    finalize,
                    http01_tokens,
                    tls_alpn01_domains,
                    private_key_der: _,
                    private_key_pem: _,
                    certificate_pem,
                } = self;
                resolver.forget_challenges(&http01_tokens, &tls_alpn01_domains);
                proof {
                    lemma_no_strings();
                }
                let finalize_url = finalize.clone();
                let SigningRequest { private_key_der, private_key_pem, csr_der } = request;
                let issuer = Issuer {
                    config,
                    phase: Phase::Finalizing,
                    authorizations,
                    finalize,
                    http01_tokens: Vec::new(),
                    tls_alpn01_domains: Vec::new(),
                    private_key_der,
                    private_key_pem,
                    certificate_pem,
                };
                (issuer, Action::SendCsr { finalize_url, csr_der })
            },
            _ => self.fail(resolver, IssueError::CryptoError),
        }
    }

    /// Takes in the order that was created.
    fn on_order(self, resolver: &mut Resolver, order: Order, material: Material) -> (res: (
        Issuer,
        Action,
    ))
        ensures
            outcome_of(res.0, *final(resolver), res.1) == on_order(
                self@,
                old(resolver)@,
                order@,
                material@,
            ),
    {
        let Issuer {
            config,
            phase: _,
            authorizations: _,
            finalize: _,
            http01_tokens,
            tls_alpn01_domains,
            private_key_der,
            private_key_pem,
            certificate_pem,
        } = self;
        let Order { authorizations, finalize } = order;
        if authorizations.len() == 0 {
            let issuer = Issuer {
                config,
                phase: Phase::OrderCreated,
                authorizations,
                finalize,
                http01_tokens,
                tls_alpn01_domains,
                private_key_der,
                private_key_pem,
                certificate_pem,
            };
            issuer.finalize(resolver, material)
        } else {
            let url = authorizations[0].clone();
            let issuer = Issuer {
                config,
                phase: Phase::Authorizing {
                    round: 1,
                    next: 0,
                    all_valid: true,
                    waiting: Waiting::Fetch,
                },
                authorizations,
                finalize,
                http01_tokens,
                tls_alpn01_domains,
                private_key_der,
                private_key_pem,
                certificate_pem,
            };
            (issuer, Action::FetchAuthorization { url })
        }
    }

    /// This issuer in another phase of authorizing.
    fn authorizing(self, round: u64, next: usize, all_valid: bool, waiting: Waiting) -> (issuer:
        Issuer)
        requires
            1 <= round <= MAX_ROUNDS,
            next < self@.authorizations.len(),
            waiting != Waiting::Fetch ==> !all_valid,
            waiting == Waiting::Sleep ==> round < MAX_ROUNDS,
        ensures
            issuer@ == self@.in_phase(Phase::Authorizing { round, next, all_valid, waiting }),
    {
        let Issuer {
            config,
            phase: _,
            authorizations,
            finalize,
            http01_tokens,
            tls_alpn01_domains,
            private_key_der,
            private_key_pem,
            certificate_pem,
        } = self;
        Issuer {
            config,
            phase: Phase::Authorizing { round, next, all_valid, waiting },
            authorizations,
            finalize,
            http01_tokens,
            tls_alpn01_domains,
            private_key_der,
            private_key_pem,
            certificate_pem,
        }
    }

    /// This issuer in a phase that is not one of authorizing.
    fn moved_to(self, phase: Phase) -> (issuer: Issuer)
        requires
            !(phase is Authorizing),
            !(phase is Failed),
        ensures
            issuer@ == self@.in_phase(phase),
    {
        let Issuer {
            config,
            phase: _,
            authorizations,
            finalize,
            http01_tokens,
            tls_alpn01_domains,
            private_key_der,
            private_key_pem,
            certificate_pem,
        } = self;
        Issuer {
            config,
            phase,
            authorizations,
            finalize,
            http01_tokens,
            tls_alpn01_domains,
            private_key_der,
            private_key_pem,
            certificate_pem,
        }
    }

    /// Moves on from the authorization at the cursor.
    fn after_authorization(self, resolver: &mut Resolver, material: Material) -> (res: (
        Issuer,
        Action,
    ))
        requires
            self@.phase is Authorizing,
        ensures
            outcome_of(res.0, *final(resolver), res.1) == after_authorization(
                self@,
                old(resolver)@,
                material@,
            ),
    {
        proof {
            use_type_invariant(&self);
        }
        let count: usize = self.authorizations.len();
        match self.phase {
            Phase::Authorizing { round, next, all_valid, .. } => {
                if next + 1 < count {
                    let url = self.authorizations[next + 1].clone();
                    let issuer = self.authorizing(round, next + 1, all_valid, Waiting::Fetch);
                    (issuer, Action::FetchAuthorization { url })
                } else if all_valid {
                    self.finalize(resolver, material)
                } else if round < MAX_ROUNDS {
                    let issuer = self.authorizing(round, next, all_valid, Waiting::Sleep);
                    (issuer, Action::Sleep { seconds: round * BACKOFF_SECONDS })
                } else {
                    self.fail(resolver, IssueError::AuthorizationTimeout)
                }
            },
            _ => self.fail(resolver, IssueError::ProtocolError),
        }
    }

    /// Registers the answer to a challenge, and asks to trigger it.
    fn register(
        self,
        resolver: &mut Resolver,
        identifier: String,
        token: String,
        url: String,
        material: Material,
    ) -> (res: (Issuer, Action))
        requires
            self@.phase is Authorizing,
        ensures
            outcome_of(res.0, *final(resolver), res.1) == register(
                self@,
                old(resolver)@,
                identifier@,
                ChallengeView { kind: self@.config.challenge_type.name(), token: token@, url: url@ },
                material@,
            ),
    {
        proof {
            use_type_invariant(&self);
        }
        let challenge_type = self.config.challenge_type;
        match self.phase {
            Phase::Authorizing { round, next, .. } => {
                let phase = Phase::Authorizing {
                    round,
                    next,
                    all_valid: false,
                    waiting: Waiting::Trigger,
                };
                match challenge_type {
                    ChallengeType::Http01 => match material {
                        Material::KeyAuthorization(Ok(text)) => {
                            let Issuer {
                                config,
                                phase: _,
                                authorizations,
                                finalize,
                                mut http01_tokens,
                                tls_alpn01_domains,
                                private_key_der,
                                private_key_pem,
                                certificate_pem,
                            } = self;
                            proof {
                                lemma_strs_push(http01_tokens@, token);
                            }
                            resolver.set_http01_key_authorization(token.clone(), text);
                            http01_tokens.push(token);
                            let issuer = Issuer {
                                config,
                                phase,
                                authorizations,
                                finalize,
                                http01_tokens,
                                tls_alpn01_domains,
                                private_key_der,
                                private_key_pem,
                                certificate_pem,
                            };
                            (issuer, Action::TriggerChallenge { identifier, challenge_type, url })
                        },
                        _ => self.fail(resolver, IssueError::CryptoError),
                    },
                    ChallengeType::TlsAlpn01 => match material {
                        Material::ChallengeCertificate(Some(cert)) => {
                            let Issuer {
                                config,
                                phase: _,
                                authorizations,
                                finalize,
                                http01_tokens,
                                mut tls_alpn01_domains,
                                private_key_der,
                                private_key_pem,
                                certificate_pem,
                            } = self;
                            proof {
                                lemma_strs_push(tls_alpn01_domains@, identifier);
                            }
                            resolver.set_tls_alpn01_cert(identifier.clone(), cert);
                            tls_alpn01_domains.push(identifier.clone());
                            let issuer = Issuer {
                                config,
                                phase,
                                authorizations,
                                finalize,
                                http01_tokens,
                                tls_alpn01_domains,
                                private_key_der,
                                private_key_pem,
                                certificate_pem,
                            };
                            (issuer, Action::TriggerChallenge { identifier, challenge_type, url })
                        },
                        _ => self.fail(resolver, IssueError::CryptoError),
                    },
                }
            },
            _ => self.fail(resolver, IssueError::ProtocolError),
        }
    }

    /// Takes in the authorization at the cursor.
    fn on_authorization(
        self,
        resolver: &mut Resolver,
        authorization: Authorization,
        material: Material,
    ) -> (res: (Issuer, Action))
        requires
            self@.phase is Authorizing,
        ensures
            outcome_of(res.0, *final(resolver), res.1) == on_authorization(
                self@,
                old(resolver)@,
                authorization@,
                material@,
            ),
    {
        proof {
            use_type_invariant(&self);
        }
        match parse_status(authorization.status.as_str()) {
            Status::Valid => self.after_authorization(resolver, material),
            Status::Pending => match authorization.challenge_position(self.config.challenge_type) {
                Some(i) => {
                    let token = authorization.challenges[i].token.clone();
                    let url = authorization.challenges[i].url.clone();
                    let ghost found = authorization.challenges@[i as int]@;
                    let ghost wanted = self@.config.challenge_type;
                    proof {
                        crate::acme::lemma_first_of_type(authorization@.challenges, wanted);
                        assert(found.kind == wanted.name());
                    }
                    self.register(resolver, authorization.identifier, token, url, material)
                },
                None => self.fail(resolver, IssueError::ProtocolError),
            },
            Status::Invalid => self.fail(resolver, IssueError::AuthorizationFailed),
            Status::Other => match self.phase {
                Phase::Authorizing { round, next, .. } => {
                    let issuer = self.authorizing(round, next, false, Waiting::Fetch);
                    issuer.after_authorization(resolver, material)
                },
                _ => self.fail(resolver, IssueError::ProtocolError),
            },
        }
    }

    /// Begins the next pass over the authorizations.
    fn next_round(self, resolver: &mut Resolver) -> (res: (Issuer, Action))
        requires
            self@.phase matches Phase::Authorizing { round, .. } && round < MAX_ROUNDS,
        ensures
            outcome_of(res.0, *final(resolver), res.1) == next_round(self@, old(resolver)@),
    {
        proof {
            use_type_invariant(&self);
        }
        match self.phase {
            Phase::Authorizing { round, .. } => {
                let url = self.authorizations[0].clone();
                let issuer = self.authorizing(round + 1, 0, true, Waiting::Fetch);
                (issuer, Action::FetchAuthorization { url })
            },
            _ => self.fail(resolver, IssueError::ProtocolError),
        }
    }

    /// Takes in the answer to the signing request.
    fn on_order_status(self, resolver: &mut Resolver, status: OrderStatus) -> (res: (
        Issuer,
        Action,
    ))
        ensures
            outcome_of(res.0, *final(resolver), res.1) == on_order_status(
                self@,
                old(resolver)@,
                status@,
            ),
    {
        match parse_status(status.status.as_str()) {
            Status::Invalid => self.fail(resolver, IssueError::CertificateRequestRejected),
            Status::Valid => match status.certificate {
                Some(url) => {
                    let issuer = self.moved_to(Phase::Downloading);
                    (issuer, Action::ObtainCertificate { url })
                },
                None => self.fail(resolver, IssueError::ProtocolError),
            },
            _ => self.fail(resolver, IssueError::UnexpectedOrderStatus),
        }
    }

    /// Installs the downloaded chain.
    fn on_certificate(self, resolver: &mut Resolver, pem: Vec<u8>, material: Material) -> (res: (
        Issuer,
        Action,
    ))
        ensures
            outcome_of(res.0, *final(resolver), res.1) == on_certificate(
                self@,
                old(resolver)@,
                pem@,
                material@,
            ),
    {
        match material {
            Material::CertificateChain(Some(chain)) => {
                let Issuer {
                    config,
                    phase: _,
                    authorizations,
                    finalize,
                    http01_tokens,
                    tls_alpn01_domains,
                    private_key_der,
                    private_key_pem,
                    certificate_pem: _,
                } = self;
                resolver.install_certified_key(
                    CertifiedKey::new(chain, clone_bytes(&private_key_der)),
                );
                let cache = config.cache;
                let action = if cache {
                    Action::WritePkey { data: clone_bytes(&private_key_pem) }
                } else {
                    Action::Finish { result: Ok(()), cache_error: None }
                };
                let storing = if cache {
                    Storing::PrivateKey
                } else {
                    Storing::Done
                };
                let issuer = Issuer {
                    config,
                    phase: Phase::Installed { storing },
                    authorizations,
                    finalize,
                    http01_tokens,
                    tls_alpn01_domains,
                    private_key_der,
                    private_key_pem,
                    certificate_pem: pem,
                };
                (issuer, action)
            },
            _ => self.fail(resolver, IssueError::InvalidCertificateFormat),
        }
    }

    /// Takes in the outcome of a write to the cache.
    fn on_stored(self, storing: Storing, event: Event) -> (res: (Issuer, Action))
        requires
            self@.phase == (Phase::Installed { storing }),
        ensures
            forall|r: ResolverView|
                (Outcome { issuer: res.0@, resolver: r, action: res.1@ }) == #[trigger] on_stored(
                    self@,
                    r,
                    storing,
                    event@,
                ),
    {
        let written = match event {
            Event::CacheWritten => true,
            _ => false,
        };
        match storing {
            Storing::PrivateKey => if written {
                let data = clone_bytes(&self.certificate_pem);
                let issuer = self.moved_to(Phase::Installed { storing: Storing::Certificate });
                (issuer, Action::WriteCert { data })
            } else {
                let issuer = self.moved_to(Phase::Installed { storing: Storing::Failed });
                (issuer, Action::Finish {
                    result: Ok(()),
                    cache_error: Some(IssueError::CacheIoError),
                })
            },
            Storing::Certificate => if written {
                let issuer = self.moved_to(Phase::Installed { storing: Storing::Done });
                (issuer, Action::Finish { result: Ok(()), cache_error: None })
            } else {
                let issuer = self.moved_to(Phase::Installed { storing: Storing::Failed });
                (issuer, Action::Finish {
                    result: Ok(()),
                    cache_error: Some(IssueError::CacheIoError),
                })
            },
            Storing::Done => (self, Action::Finish { result: Ok(()), cache_error: None }),
            Storing::Failed => (self, Action::Finish {
                    result: Ok(()),
                    cache_error: Some(IssueError::CacheIoError),
                }),
        }
    }

    /// One step of the machine, with the material for it handed in: the
    /// new state, the resolver and the action are exactly what
    /// `transition` gives.
    pub fn advance(self, resolver: &mut Resolver, event: Event, material: Material) -> (res: (
        Issuer,
        Action,
    ))
        ensures
            outcome_of(res.0, *final(resolver), res.1) == transition(
                self@,
                old(resolver)@,
                event@,
                material@,
            ),
    {
        proof {
            use_type_invariant(&self);
        }
        match self.phase {
            Phase::OrderCreated => match event {
                Event::OrderCreated(order) => self.on_order(resolver, order, material),
                _ => self.fail(resolver, IssueError::ProtocolError),
            },
            Phase::Authorizing { waiting, .. } => match waiting {
                Waiting::Fetch => match event {
                    Event::AuthorizationFetched(authorization) => self.on_authorization(
                        resolver,
                        authorization,
                        material,
                    ),
                    _ => self.fail(resolver, IssueError::ProtocolError),
                },
                Waiting::Trigger => match event {
                    Event::ChallengeTriggered => self.after_authorization(resolver, material),
                    _ => self.fail(resolver, IssueError::ProtocolError),
                },
                Waiting::Sleep => match event {
                    Event::Slept => self.next_round(resolver),
                    _ => self.fail(resolver, IssueError::ProtocolError),
                },
            },
            Phase::Finalizing => match event {
                Event::CsrSent(status) => self.on_order_status(resolver, status),
                _ => self.fail(resolver, IssueError::ProtocolError),
            },
            Phase::Downloading => match event {
                Event::CertificateObtained(pem) => self.on_certificate(resolver, pem, material),
                _ => self.fail(resolver, IssueError::ProtocolError),
            },
            Phase::Installed { storing } => self.on_stored(storing, event),
            Phase::Failed { reason } => (self, Action::Finish { result: Err(reason), cache_error: None }),
        }
    }
}

impl Issuer {
    /// A fresh key pair and a signing request for the configured domains,
    /// if they can be made. None is made if a domain is not ASCII.
    fn make_signing_request(&self) -> (material: Material)
        ensures
            material@ is SigningRequest,
            !all_ascii(self@.config.domains) ==> material@ == MaterialView::SigningRequest(None),
    {
        let names = self.config.domains.names();
        let n: usize = names.len();
        let mut i: usize = 0;
        while i < n
            invariant
                n == names@.len(),
                i <= n,
                forall|j: int| 0 <= j < i ==> is_ascii_chars(#[trigger] strs(names@)[j]),
            decreases n - i,
        {
            if !names[i].as_str().is_ascii() {
                assert(!is_ascii_chars(strs(names@)[i as int]));
                return Material::SigningRequest(None);
            }
            i += 1;
        }
        Material::SigningRequest(generate_signing_request(names))
    }

    /// A certificate that answers the TLS-ALPN-01 challenge `token` for
    /// `domain`, if it can be made. None is made if the key authorization
    /// has no digest or the domain is not ASCII.
    fn make_challenge_certificate(&self, domain: &str, token: &str) -> (material: Material)
        ensures
            material@ is ChallengeCertificate,
            (key_authorization_digest_result(self@.config.account_key, token@) is Err
                || !is_ascii_chars(domain@)) ==> material@ == MaterialView::ChallengeCertificate(
                None,
            ),
            single_certificate(material@),
    {
        match key_authorization_sha256(&self.config.account_key, token) {
            Ok(digest) => {
                if domain.is_ascii() {
                    match generate_challenge_certificate(domain, digest.as_slice()) {
                        Some((certificate, key)) => {
                            let mut chain: Vec<Vec<u8>> = Vec::new();
                            chain.push(certificate);
                            Material::ChallengeCertificate(Some(CertifiedKey::new(chain, key)))
                        },
                        None => Material::ChallengeCertificate(None),
                    }
                } else {
                    Material::ChallengeCertificate(None)
                }
            },
            Err(_) => Material::ChallengeCertificate(None),
        }
    }

    /// Makes what the step on `event` needs from outside the machine.
    pub fn prepare(&self, event: &Event) -> (material: Material)
        ensures
            fitting(self@, event@, material@),
    {
        proof {
            use_type_invariant(self);
        }
        let count: usize = self.authorizations.len();
        match self.phase {
            Phase::OrderCreated => match event {
                Event::OrderCreated(order) => {
                    if order.authorizations.len() == 0 {
                        self.make_signing_request()
                    } else {
                        Material::Nothing
                    }
                },
                _ => Material::Nothing,
            },
            Phase::Authorizing { next, all_valid, waiting, .. } => match waiting {
                Waiting::Fetch => match event {
                    Event::AuthorizationFetched(authorization) => {
                        match parse_status(authorization.status.as_str()) {
                            Status::Pending => {
                                let wanted = self.config.challenge_type;
                                match authorization.challenge_position(wanted) {
                                    Some(i) => {
                                        let token = authorization.challenges[i].token.as_str();
                                        match wanted {
                                            ChallengeType::Http01 => {
                                                let text = key_authorization(
                                                    &self.config.account_key,
                                                    token,
                                                );
                                                Material::KeyAuthorization(text)
                                            },
                                            ChallengeType::TlsAlpn01 => {
                                                self.make_challenge_certificate(
                                                    authorization.identifier.as_str(),
                                                    token,
                                                )
                                            },
                                        }
                                    },
                                    None => Material::Nothing,
                                }
                            },
                            Status::Valid => {
                                if !(next + 1 < count) && all_valid {
                                    self.make_signing_request()
                                } else {
                                    Material::Nothing
                                }
                            },
                            _ => Material::Nothing,
                        }
                    },
                    _ => Material::Nothing,
                },
                _ => Material::Nothing,
            },
            Phase::Downloading => match event {
                Event::CertificateObtained(pem) => Material::CertificateChain(
                    parse_certificates(pem.as_slice()),
                ),
                _ => Material::Nothing,
            },
            _ => Material::Nothing,
        }
    }

    /// One step of the machine: makes what the step needs, and advances.
    /// The outcome is what `transition` gives for material that fits the
    /// step. Where the material holds a freshly generated key, the
    /// contract leaves open which one.
    pub fn step(self, resolver: &mut Resolver, event: Event) -> (res: (Issuer, Action))
        ensures
            exists|m: MaterialView|
                fitting(self@, event@, m) && outcome_of(res.0, *final(resolver), res.1)
                    == #[trigger] transition(self@, old(resolver)@, event@, m),
    {
        let material = self.prepare(&event);
        let ghost m = material@;
        let res = self.advance(resolver, event, material);
        assert(outcome_of(res.0, *resolver, res.1) == transition(
            self@,
            old(resolver)@,
            event@,
            m,
        ));
        res
    }
}

} // verus!
