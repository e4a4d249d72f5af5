//! The resources of the certificate authority's protocol, as the issuer
//! reads them: orders, authorizations and challenges.

use vstd::prelude::*;
use vstd::string::*;
use crate::text::{strs, text_eq};

verus! {

/// The view of an optional string.
pub open spec fn text_view(text: Option<String>) -> Option<Seq<char>> {
    match text {
        Some(t) => Some(t@),
        None => None,
    }
}

/// The way in which control of a domain is proved.
#[derive(Clone, Copy, Debug, PartialEq, Eq, Structural)]
pub enum ChallengeType {
    /// A token served over HTTP at a well-known path.
    Http01,
    /// A certificate presented during a TLS handshake.
    TlsAlpn01,
}

impl ChallengeType {
    /// The name of this challenge type in the protocol.
    pub open spec fn name(self) -> Seq<char> {
        match self {
            ChallengeType::Http01 => "http-01"@,
            ChallengeType::TlsAlpn01 => "tls-alpn-01"@,
        }
    }

    /// The name of this challenge type in the protocol.
    pub fn as_str(self) -> (name: &'static str)
        ensures
            name@ == self.name(),
    {
        match self {
            ChallengeType::Http01 => "http-01",
            ChallengeType::TlsAlpn01 => "tls-alpn-01",
        }
    }
}

/// The states of an authorization or an order that the issuer tells apart.
#[derive(Clone, Copy, Debug, PartialEq, Eq, Structural)]
pub enum Status {
    /// Not decided yet.
    Pending,
    /// Granted.
    Valid,
    /// Refused for good.
    Invalid,
    /// Any other state.
    Other,
}

/// The status that a status text stands for.
pub open spec fn status_of(text: Seq<char>) -> Status {
    if text == "valid"@ {
        Status::Valid
    } else if text == "pending"@ {
        Status::Pending
    } else if text == "invalid"@ {
        Status::Invalid
    } else {
        Status::Other
    }
}

/// Reads a status text.
pub fn parse_status(text: &str) -> (status: Status)
    ensures
        status == status_of(text@),
{
    if text_eq(text, "valid") {
        Status::Valid
    } else if text_eq(text, "pending") {
        Status::Pending
    } else if text_eq(text, "invalid") {
        Status::Invalid
    } else {
        Status::Other
    }
}

/// What a challenge holds.
pub struct ChallengeView {
    pub kind: Seq<char>,
    pub token: Seq<char>,
    pub url: Seq<char>,
}

/// One way that the authority offers to prove control of a domain.
#[derive(Debug, PartialEq, Eq)]
pub struct Challenge {
    /// The name of the challenge type.
    pub kind: String,
    /// The token that the authority issued for this attempt.
    pub token: String,
    /// Where to tell the authority that the challenge is ready.
    pub url: String,
}

impl View for Challenge {
    type V = ChallengeView;

    open spec fn view(&self) -> ChallengeView {
        ChallengeView { kind: self.kind@, token: self.token@, url: self.url@ }
    }
}

/// The views of a list of challenges.
pub open spec fn challenge_views(v: Seq<Challenge>) -> Seq<ChallengeView> {
    Seq::new(v.len(), |i: int| v[i]@)
}

/// The position of the first challenge of type `wanted`, or the length of
/// the list if there is none.
pub open spec fn first_of_type(challenges: Seq<ChallengeView>, wanted: ChallengeType) -> int
    decreases challenges.len(),
{
    if challenges.len() == 0 {
        0
    } else if challenges[0].kind == wanted.name() {
        0
    } else {
        1 + first_of_type(challenges.drop_first(), wanted)
    }
}

/// The first challenge of type `wanted`, if there is one.
pub open spec fn find_challenge(challenges: Seq<ChallengeView>, wanted: ChallengeType) -> Option<
    ChallengeView,
> {
    if first_of_type(challenges, wanted) < challenges.len() {
        Some(challenges[first_of_type(challenges, wanted)])
    } else {
        None
    }
}

/// `first_of_type` is the least position of a challenge of the wanted
/// type.
pub proof fn lemma_first_of_type(challenges: Seq<ChallengeView>, wanted: ChallengeType)
    ensures
        0 <= first_of_type(challenges, wanted) <= challenges.len(),
        forall|j: int|
            0 <= j < first_of_type(challenges, wanted) ==> (#[trigger] challenges[j]).kind
                != wanted.name(),
        first_of_type(challenges, wanted) < challenges.len() ==> challenges[first_of_type(
            challenges,
            wanted,
        )].kind == wanted.name(),
    decreases challenges.len(),
{
    if challenges.len() > 0 && challenges[0].kind != wanted.name() {
        let rest = challenges.drop_first();
        lemma_first_of_type(rest, wanted);
        assert forall|j: int| 0 <= j < first_of_type(challenges, wanted) implies (
        #[trigger] challenges[j]).kind != wanted.name() by {
            if j > 0 {
                assert(challenges[j] == rest[j - 1]);
            }
        }
        if first_of_type(challenges, wanted) < challenges.len() {
            assert(challenges[first_of_type(challenges, wanted)] == rest[first_of_type(
                rest,
                wanted,
            )]);
        }
    }
}

/// A position is `first_of_type` if a challenge of the wanted type stands
/// there and none stands before it, or if it is the length of a list
/// without such a challenge.
pub proof fn lemma_first_of_type_is(challenges: Seq<ChallengeView>, wanted: ChallengeType, at: int)
    requires
        0 <= at <= challenges.len(),
        forall|j: int| 0 <= j < at ==> (#[trigger] challenges[j]).kind != wanted.name(),
        at < challenges.len() ==> challenges[at].kind == wanted.name(),
    ensures
        first_of_type(challenges, wanted) == at,
{
    lemma_first_of_type(challenges, wanted);
    let first = first_of_type(challenges, wanted);
    if first < at {
        assert(challenges[first].kind != wanted.name());
    }
}

/// What an authorization holds.
pub struct AuthorizationView {
    pub status: Seq<char>,
    pub identifier: Seq<char>,
    pub challenges: Seq<ChallengeView>,
    pub error: Option<Seq<char>>,
}

/// The authority's record of an account proving control of one domain.
#[derive(Debug, PartialEq, Eq)]
pub struct Authorization {
    /// The status text.
    pub status: String,
    /// The domain that the authorization is for.
    pub identifier: String,
    /// The challenges on offer.
    pub challenges: Vec<Challenge>,
    /// The authority's explanation of a refusal.
    pub error: Option<String>,
}

impl View for Authorization {
    type V = AuthorizationView;

    open spec fn view(&self) -> AuthorizationView {
        AuthorizationView {
            status: self.status@,
            identifier: self.identifier@,
            challenges: challenge_views(self.challenges@),
            error: text_view(self.error),
        }
    }
}

/// The explanation `detail`, or `unknown` where the authority gave none.
pub open spec fn detail_or_unknown(detail: Option<Seq<char>>) -> Seq<char> {
    match detail {
        Some(d) => d,
        None => "unknown"@,
    }
}

impl AuthorizationView {
    /// What is reported when the authorization was refused.
    pub open spec fn refusal(self) -> Seq<char> {
        "unable to authorize `"@ + self.identifier + "`: "@ + detail_or_unknown(self.error)
    }
}

impl OrderStatusView {
    /// What is reported when the signing request was refused.
    pub open spec fn refusal(self) -> Seq<char> {
        "failed to request certificate: "@ + detail_or_unknown(self.error)
    }

    /// What is reported when the order is in a state that was not
    /// expected.
    pub open spec fn unexpected(self) -> Seq<char> {
        "failed to request certificate: unexpected status `"@ + self.status + "`"@
    }
}

impl Authorization {
    /// What is reported when the authorization was refused: the domain,
    /// and the authority's explanation if it gave one.
    pub fn refusal(&self) -> (text: String)
        ensures
            text@ == self@.refusal(),
    {
        let mut text = String::from_str("unable to authorize `");
        text.append(self.identifier.as_str());
        text.append("`: ");
        match &self.error {
            Some(detail) => text.append(detail.as_str()),
            None => text.append("unknown"),
        }
        text
    }

    /// The position of the first challenge of type `wanted`, if there is
    /// one.
    pub fn challenge_position(&self, wanted: ChallengeType) -> (at: Option<usize>)
        ensures
            match at {
                Some(i) => i < self.challenges@.len() && i == first_of_type(
                    self@.challenges,
                    wanted,
                ) && find_challenge(self@.challenges, wanted) == Some(self.challenges@[i as int]@),
                None => find_challenge(self@.challenges, wanted) == None::<ChallengeView>,
            },
    {
        let n: usize = self.challenges.len();
        let mut i: usize = 0;
        while i < n
            invariant
                n == self.challenges@.len(),
                i <= n,
                forall|j: int| 0 <= j < i ==> (#[trigger] self@.challenges[j]).kind != wanted.name(),
            decreases n - i,
        {
            if text_eq(self.challenges[i].kind.as_str(), wanted.as_str()) {
                proof {
                    lemma_first_of_type_is(self@.challenges, wanted, i as int);
                }
                return Some(i);
            }
            i += 1;
        }
        proof {
            lemma_first_of_type_is(self@.challenges, wanted, n as int);
        }
        None
    }
}

/// What an order holds.
pub struct OrderView {
    pub authorizations: Seq<Seq<char>>,
    pub finalize: Seq<char>,
}

/// The authority's record of a request for a certificate.
#[derive(Debug, PartialEq, Eq)]
pub struct Order {
    /// Where to fetch each authorization that the order waits for.
    pub authorizations: Vec<String>,
    /// Where to send the signing request.
    pub finalize: String,
}

impl View for Order {
    type V = OrderView;

    open spec fn view(&self) -> OrderView {
        OrderView { authorizations: strs(self.authorizations@), finalize: self.finalize@ }
    }
}

/// What the answer to a signing request holds.
pub struct OrderStatusView {
    pub status: Seq<char>,
    pub certificate: Option<Seq<char>>,
    pub error: Option<Seq<char>>,
}

/// The authority's answer to a signing request.
#[derive(Debug, PartialEq, Eq)]
pub struct OrderStatus {
    /// The status text.
    pub status: String,
    /// Where to download the certificate, once it is issued.
    pub certificate: Option<String>,
    /// The authority's explanation of a refusal.
    pub error: Option<String>,
}

impl View for OrderStatus {
    type V = OrderStatusView;

    open spec fn view(&self) -> OrderStatusView {
        OrderStatusView {
            status: self.status@,
            certificate: text_view(self.certificate),
            error: text_view(self.error),
        }
    }
}

impl OrderStatus {
    /// What is reported when the signing request was refused: the
    /// authority's explanation if it gave one.
    pub fn refusal(&self) -> (text: String)
        ensures
            text@ == self@.refusal(),
    {
        let mut text = String::from_str("failed to request certificate: ");
        match &self.error {
            Some(detail) => text.append(detail.as_str()),
            None => text.append("unknown"),
        }
        text
    }

    /// What is reported when the order is in a state that was not
    /// expected: the status.
    pub fn unexpected(&self) -> (text: String)
        ensures
            text@ == self@.unexpected(),
    {
        let mut text = String::from_str("failed to request certificate: unexpected status `");
        text.append(self.status.as_str());
        text.append("`");
        text
    }
}

} // verus!
