//! What holds of every step and of every run of the issuance state
//! machine.

use vstd::prelude::*;
use crate::acme::{
    find_challenge, status_of, AuthorizationView, ChallengeType, OrderView, Status,
};
use crate::issuer::{
    fail, fitting, transition, ActionView, EventView, IssueError, IssuerView, MaterialView, Phase,
    Storing, Waiting, BACKOFF_SECONDS, MAX_ROUNDS,
};
use crate::resolver::ResolverView;

verus! {

/// A step keeps the counters of the machine in range.
pub proof fn lemma_step_well_formed(s: IssuerView, r: ResolverView, e: EventView, m: MaterialView)
    requires
        s.well_formed(),
    ensures
        transition(s, r, e, m).issuer.well_formed(),
{
}

/// Every pause that a step hands out follows an unsuccessful pass that is
/// not the last, and lasts ten seconds times the number of that pass: ten,
/// twenty or thirty seconds. The number of the pass never falls, it rises
/// only by one and only when a pause is over, and it never exceeds
/// `MAX_ROUNDS`. The round fails with a timeout only when the last pass
/// ends with an authorization that is not valid, and then without a
/// pause.
pub proof fn lemma_backoff(s: IssuerView, r: ResolverView, e: EventView, m: MaterialView)
    requires
        s.well_formed(),
    ensures
        ({
            let o = transition(s, r, e, m);
            &&& o.action matches ActionView::Sleep { seconds } ==> {
                &&& s.phase matches Phase::Authorizing { round, next, all_valid, waiting }
                &&& waiting != Waiting::Sleep
                &&& !(next + 1 < s.authorizations.len())
                &&& 1 <= round < MAX_ROUNDS
                &&& seconds == round * BACKOFF_SECONDS
                &&& o.issuer.phase == (Phase::Authorizing {
                    round,
                    next,
                    all_valid: false,
                    waiting: Waiting::Sleep,
                })
            }
            &&& (s.phase is Authorizing && o.issuer.phase is Authorizing) ==> {
                &&& o.issuer.phase->round <= MAX_ROUNDS
                &&& if s.phase->waiting == Waiting::Sleep {
                    o.issuer.phase->round == s.phase->round + 1 && e is Slept
                } else {
                    o.issuer.phase->round == s.phase->round
                }
            }
            &&& (o.action == (ActionView::Finish { result: Err(IssueError::AuthorizationTimeout), cache_error: None })
                && !(s.phase is Failed)) ==> {
                &&& s.phase matches Phase::Authorizing { round, next, waiting, .. }
                &&& round == MAX_ROUNDS
                &&& waiting != Waiting::Sleep
                &&& !(next + 1 < s.authorizations.len())
            }
        }),
{
}

/// An authorization that the authority marked as invalid ends the round
/// at once, whatever the pass and wherever the cursor stands: the round
/// fails, no further authorization is fetched, and there is no pause.
pub proof fn lemma_invalid_is_fatal(
    s: IssuerView,
    r: ResolverView,
    authorization: AuthorizationView,
    m: MaterialView,
)
    requires
        s.well_formed(),
        s.phase matches Phase::Authorizing { waiting, .. } && waiting == Waiting::Fetch,
        status_of(authorization.status) == Status::Invalid,
    ensures
        transition(s, r, EventView::AuthorizationFetched(authorization), m) == fail(
            s,
            r,
            IssueError::AuthorizationFailed,
        ),
        transition(s, r, EventView::AuthorizationFetched(authorization), m).action == (
        ActionView::Finish { result: Err(IssueError::AuthorizationFailed), cache_error: None }),
        transition(s, r, EventView::AuthorizationFetched(authorization), m).issuer.phase == (
        Phase::Failed { reason: IssueError::AuthorizationFailed }),
{
}

/// An authorization that is already valid is skipped: nothing is
/// registered for it and no challenge is triggered.
pub proof fn lemma_valid_is_skipped(
    s: IssuerView,
    r: ResolverView,
    authorization: AuthorizationView,
    m: MaterialView,
)
    requires
        s.well_formed(),
        s.phase matches Phase::Authorizing { waiting, .. } && waiting == Waiting::Fetch,
        status_of(authorization.status) == Status::Valid,
    ensures
        ({
            let o = transition(s, r, EventView::AuthorizationFetched(authorization), m);
            &&& !(o.action is TriggerChallenge)
            &&& !(o.action is Sleep) || !(s.phase->all_valid)
            &&& o.issuer.phase is Authorizing ==> o.resolver == r
            &&& (!(s.phase->next + 1 < s.authorizations.len()) && s.phase->all_valid) ==> match m {
                MaterialView::SigningRequest(Some(request)) => o.action == (ActionView::SendCsr {
                    finalize_url: s.finalize,
                    csr_der: request.csr_der,
                }),
                _ => o.action == (ActionView::Finish { result: Err(IssueError::CryptoError), cache_error: None }),
            }
        }),
{
}

/// Whenever a step asks to trigger a challenge, the answer to that
/// challenge is already registered in the resolver: for HTTP-01 the key
/// authorization under the challenge's token, for TLS-ALPN-01 the
/// challenge certificate under the domain, which is a chain of one
/// certificate if the material is what `Issuer::prepare` makes.
pub proof fn lemma_registered_before_trigger(
    s: IssuerView,
    r: ResolverView,
    e: EventView,
    m: MaterialView,
)
    requires
        s.well_formed(),
        transition(s, r, e, m).action is TriggerChallenge,
    ensures
        ({
            let o = transition(s, r, e, m);
            &&& e matches EventView::AuthorizationFetched(authorization)
            &&& find_challenge(authorization.challenges, s.config.challenge_type) matches Some(
                challenge,
            )
            &&& o.action == (ActionView::TriggerChallenge {
                identifier: authorization.identifier,
                challenge_type: s.config.challenge_type,
                url: challenge.url,
            })
            &&& match m {
                MaterialView::KeyAuthorization(Ok(text)) => {
                    &&& o.resolver.http01_answer(challenge.token) == Some(text)
                    &&& o.issuer.http01_tokens.contains(challenge.token)
                },
                MaterialView::ChallengeCertificate(Some(cert)) => {
                    &&& o.resolver.tls_alpn01_cert(authorization.identifier) == Some(cert)
                    &&& o.issuer.tls_alpn01_domains.contains(authorization.identifier)
                    &&& fitting(s, e, m) ==> cert.chain.len() == 1
                },
                _ => false,
            }
        }),
{
    let o = transition(s, r, e, m);
    match m {
        MaterialView::KeyAuthorization(Ok(text)) => {
            let tokens = o.issuer.http01_tokens;
            assert(tokens[tokens.len() - 1] == tokens.last());
        },
        MaterialView::ChallengeCertificate(Some(cert)) => {
            let domains = o.issuer.tls_alpn01_domains;
            assert(domains[domains.len() - 1] == domains.last());
        },
        _ => {},
    }
}

/// When a step ends the authorization, by success or by failure, no
/// challenge answer that the round registered is left in the resolver,
/// and the issuer remembers none.
pub proof fn lemma_challenges_forgotten(
    s: IssuerView,
    r: ResolverView,
    e: EventView,
    m: MaterialView,
    key: Seq<char>,
)
    requires
        s.well_formed(),
        s.phase is Authorizing,
        !(transition(s, r, e, m).issuer.phase is Authorizing),
    ensures
        ({
            let o = transition(s, r, e, m);
            &&& s.http01_tokens.contains(key) ==> o.resolver.http01_answer(key) == None::<
                Seq<char>,
            >
            &&& s.tls_alpn01_domains.contains(key) ==> o.resolver.tls_alpn01_cert(key) is None
            &&& o.issuer.http01_tokens.len() == 0
            &&& o.issuer.tls_alpn01_domains.len() == 0
        }),
{
}

/// The active certificate changes only when a downloaded chain is
/// installed. In particular a round that fails leaves the certificate
/// that was active before in place. And once a certificate is installed,
/// a failing cache does not take it back.
pub proof fn lemma_active_certificate(s: IssuerView, r: ResolverView, e: EventView, m: MaterialView)
    requires
        s.well_formed(),
    ensures
        ({
            let o = transition(s, r, e, m);
            &&& o.resolver.active != r.active ==> s.phase is Downloading && o.issuer.phase is Installed
            &&& o.issuer.phase is Failed ==> o.resolver.active == r.active
            &&& s.phase is Installed ==> o.resolver == r && o.issuer.phase is Installed
            &&& (s.phase is Downloading && o.issuer.phase is Installed) ==> {
                &&& o.resolver.active matches Some(key)
                &&& key.key == s.private_key_der
                &&& m == MaterialView::CertificateChain(Some(key.chain))
            }
        }),
{
}

/// A step reports success only for a round whose certificate is
/// installed. A failure of the cache is never the result of a round: it is
/// reported beside a successful result, and only for a round whose
/// certificate is installed. Every failure that is the result leaves the
/// round failed for the reason that is reported. A round that is over
/// hands out nothing but its result.
pub proof fn lemma_reported_result(s: IssuerView, r: ResolverView, e: EventView, m: MaterialView)
    requires
        s.well_formed(),
    ensures
        ({
            let o = transition(s, r, e, m);
            &&& o.action matches ActionView::Finish { result, cache_error } ==> match result {
                Ok(_) => match cache_error {
                    None => o.issuer.phase == (Phase::Installed { storing: Storing::Done }),
                    Some(error) => error == IssueError::CacheIoError && o.issuer.phase == (
                    Phase::Installed { storing: Storing::Failed }),
                },
                Err(reason) => {
                    &&& cache_error is None
                    &&& reason != IssueError::CacheIoError
                    &&& o.issuer.phase == (Phase::Failed { reason })
                },
            }
            &&& o.issuer.is_over() ==> o.action is Finish
        }),
{
}

/// When a write to the cache fails, the certificate that was installed
/// stays installed and the round ends as installed, with a successful
/// result. The failure is reported beside the result. Nothing of the
/// round is undone or repeated: the resolver is left as it is, and every
/// further step hands out the same.
pub proof fn lemma_cache_failure_beside_result(
    s: IssuerView,
    r: ResolverView,
    e: EventView,
    m: MaterialView,
    e2: EventView,
    m2: MaterialView,
)
    requires
        s.well_formed(),
        s.phase matches Phase::Installed { storing } && (storing == Storing::PrivateKey || storing
            == Storing::Certificate),
        !(e is CacheWritten),
    ensures
        ({
            let o = transition(s, r, e, m);
            let again = transition(o.issuer, o.resolver, e2, m2);
            &&& o.action == (ActionView::Finish {
                result: Ok(()),
                cache_error: Some(IssueError::CacheIoError),
            })
            &&& o.issuer == s.in_phase(Phase::Installed { storing: Storing::Failed })
            &&& o.issuer.is_over()
            &&& o.resolver == r
            &&& again == o
        }),
{
}

/// A rejected signing request fails the round for that reason, and an
/// order in any other state than valid fails it as unexpected: the
/// finalization is not tried again.
pub proof fn lemma_finalize_once(
    s: IssuerView,
    r: ResolverView,
    e: EventView,
    m: MaterialView,
)
    requires
        s.well_formed(),
        s.phase is Finalizing,
    ensures
        ({
            let o = transition(s, r, e, m);
            &&& !(o.issuer.phase is Finalizing)
            &&& !(o.action is SendCsr)
            &&& e matches EventView::CsrSent(status) ==> match status_of(status.status) {
                Status::Invalid => o.action == (ActionView::Finish {
                    result: Err(IssueError::CertificateRequestRejected),
                    cache_error: None,
                }),
                Status::Valid => match status.certificate {
                    Some(url) => o.action == (ActionView::ObtainCertificate { url }),
                    None => o.action == (ActionView::Finish {
                        result: Err(IssueError::ProtocolError),
                        cache_error: None,
                    }),
                },
                _ => o.action == (ActionView::Finish {
                    result: Err(IssueError::UnexpectedOrderStatus),
                    cache_error: None,
                }),
            }
        }),
{
}

/// The actions that the machine hands out when it is fed `inputs`, one
/// event with its material after the other, from the state `s`.
pub open spec fn run(s: IssuerView, r: ResolverView, inputs: Seq<(EventView, MaterialView)>) -> Seq<
    ActionView,
>
    decreases inputs.len(),
{
    if inputs.len() == 0 {
        Seq::empty()
    } else {
        let o = transition(s, r, inputs[0].0, inputs[0].1);
        seq![o.action] + run(o.issuer, o.resolver, inputs.drop_first())
    }
}

/// The lengths of the pauses among `actions`, in their order.
pub open spec fn pauses(actions: Seq<ActionView>) -> Seq<u64>
    decreases actions.len(),
{
    if actions.len() == 0 {
        Seq::empty()
    } else {
        match actions[0] {
            ActionView::Sleep { seconds } => seq![seconds] + pauses(actions.drop_first()),
            _ => pauses(actions.drop_first()),
        }
    }
}

/// The pauses after the passes `round`, `round + 1` and so on, up to the
/// last pass but one.
pub open spec fn schedule_from(round: int) -> Seq<u64>
    decreases MAX_ROUNDS - round,
{
    if 1 <= round < MAX_ROUNDS {
        seq![(round * BACKOFF_SECONDS) as u64] + schedule_from(round + 1)
    } else {
        Seq::empty()
    }
}

/// The pauses that a round in the state `s` can still make.
pub open spec fn pauses_left(s: IssuerView) -> Seq<u64> {
    match s.phase {
        Phase::OrderCreated => schedule_from(1),
        Phase::Authorizing { round, waiting, .. } => if waiting == Waiting::Sleep {
            schedule_from(round + 1)
        } else {
            schedule_from(round as int)
        },
        _ => Seq::empty(),
    }
}

/// Whether some action of `actions` ends the round with a timeout.
pub open spec fn times_out(actions: Seq<ActionView>) -> bool {
    exists|i: int|
        0 <= i < actions.len() && #[trigger] actions[i] == (ActionView::Finish {
            result: Err(IssueError::AuthorizationTimeout),
            cache_error: None,
        })
}

/// The whole schedule is ten, twenty and thirty seconds.
pub proof fn lemma_schedule()
    ensures
        schedule_from(1) == seq![10u64, 20u64, 30u64],
{
    reveal_with_fuel(schedule_from, 5);
    assert(schedule_from(1) =~= seq![10u64, 20u64, 30u64]);
}

proof fn lemma_pauses_cons(first: ActionView, rest: Seq<ActionView>)
    ensures
        pauses(seq![first] + rest) == match first {
            ActionView::Sleep { seconds } => seq![seconds] + pauses(rest),
            _ => pauses(rest),
        },
{
    assert((seq![first] + rest).drop_first() =~= rest);
}

proof fn lemma_times_out_cons(first: ActionView, rest: Seq<ActionView>)
    ensures
        times_out(seq![first] + rest) <==> (first == (ActionView::Finish {
            result: Err(IssueError::AuthorizationTimeout),
            cache_error: None,
        }) || times_out(rest)),
{
    let all = seq![first] + rest;
    let timeout = ActionView::Finish { result: Err(IssueError::AuthorizationTimeout), cache_error: None };
    if times_out(all) {
        let i = choose|i: int| 0 <= i < all.len() && #[trigger] all[i] == timeout;
        if i > 0 {
            assert(rest[i - 1] == timeout);
        }
    }
    if first == timeout {
        assert(all[0] == timeout);
    }
    if times_out(rest) {
        let i = choose|i: int| 0 <= i < rest.len() && #[trigger] rest[i] == timeout;
        assert(all[i + 1] == timeout);
    }
}

/// A round that is over makes no pause, and it reports a timeout only if
/// it failed with one.
proof fn lemma_run_when_over(s: IssuerView, r: ResolverView, inputs: Seq<(EventView, MaterialView)>)
    requires
        s.phase is Failed || s.phase is Installed || s.phase is Finalizing || s.phase is Downloading,
    ensures
        pauses(run(s, r, inputs)).len() == 0,
        times_out(run(s, r, inputs)) ==> s.phase == (Phase::Failed {
            reason: IssueError::AuthorizationTimeout,
        }),
    decreases inputs.len(),
{
    if inputs.len() > 0 {
        let o = transition(s, r, inputs[0].0, inputs[0].1);
        let rest = run(o.issuer, o.resolver, inputs.drop_first());
        lemma_run_when_over(o.issuer, o.resolver, inputs.drop_first());
        lemma_pauses_cons(o.action, rest);
        lemma_times_out_cons(o.action, rest);
    } else {
        assert(pauses(run(s, r, inputs)) =~= Seq::<u64>::empty());
    }
}

/// Whatever the authority answers and however long the run, the pauses of
/// a round are the first pauses of its schedule, in order: from the
/// beginning of a round, ten seconds, then twenty, then thirty, and none
/// after that. A round that ends with a timeout has made every pause of
/// its schedule before: there are three pauses between its four passes,
/// and none after the last pass.
pub proof fn lemma_run_pauses(s: IssuerView, r: ResolverView, inputs: Seq<(EventView, MaterialView)>)
    requires
        s.well_formed(),
    ensures
        pauses(run(s, r, inputs)).is_prefix_of(pauses_left(s)),
        (times_out(run(s, r, inputs)) && !(s.phase is Failed)) ==> pauses(run(s, r, inputs))
            == pauses_left(s),
    decreases inputs.len(),
{
    if inputs.len() == 0 {
        assert(pauses(run(s, r, inputs)) =~= Seq::<u64>::empty());
        assert(!times_out(run(s, r, inputs)));
    } else {
        let o = transition(s, r, inputs[0].0, inputs[0].1);
        let rest = run(o.issuer, o.resolver, inputs.drop_first());
        lemma_step_well_formed(s, r, inputs[0].0, inputs[0].1);
        lemma_backoff(s, r, inputs[0].0, inputs[0].1);
        lemma_run_pauses(o.issuer, o.resolver, inputs.drop_first());
        lemma_pauses_cons(o.action, rest);
        lemma_times_out_cons(o.action, rest);
        reveal_with_fuel(schedule_from, 2);
        if !(o.issuer.phase is Authorizing) {
            lemma_run_when_over(o.issuer, o.resolver, inputs.drop_first());
        }
        match o.action {
            ActionView::Sleep { seconds } => {
                assert(pauses_left(s) =~= seq![seconds] + pauses_left(o.issuer));
                assert(pauses(run(s, r, inputs)) =~= seq![seconds] + pauses(rest));
            },
            _ => {
                assert(pauses(run(s, r, inputs)) == pauses(rest));
                if o.issuer.phase is Authorizing {
                    assert(pauses_left(o.issuer) == pauses_left(s));
                } else {
                    assert(pauses(rest).len() == 0);
                    if o.action == (ActionView::Finish {
                        result: Err(IssueError::AuthorizationTimeout),
                        cache_error: None,
                    }) && !(s.phase is Failed) {
                        assert(pauses_left(s) =~= Seq::<u64>::empty());
                    }
                }
            },
        }
    }
}

/// From the beginning of a round the pauses are the first of ten, twenty
/// and thirty seconds, and a round that times out has made all three.
pub proof fn lemma_round_pauses(
    s: IssuerView,
    r: ResolverView,
    inputs: Seq<(EventView, MaterialView)>,
)
    requires
        s.phase is OrderCreated,
    ensures
        pauses(run(s, r, inputs)).is_prefix_of(seq![10u64, 20u64, 30u64]),
        times_out(run(s, r, inputs)) ==> pauses(run(s, r, inputs)) == seq![10u64, 20u64, 30u64],
{
    lemma_schedule();
    lemma_run_pauses(s, r, inputs);
}

/// The steps of the passes behind the pass `round`, if a pass and the
/// pause before it take `pass` steps.
pub open spec fn later_passes(round: int, pass: nat) -> int {
    (MAX_ROUNDS - round) * pass
}

/// An upper bound on the number of steps that a round in the state `s`
/// can still take, once its order is created. A pass over `n`
/// authorizations takes at most two steps for each of them, one to fetch
/// it and one to trigger its challenge, and one more for the pause behind
/// it; what follows the authorization takes at most four steps.
pub open spec fn steps_left(s: IssuerView) -> nat {
    let n = s.authorizations.len();
    match s.phase {
        Phase::OrderCreated => 0,
        Phase::Authorizing { round, next, waiting, .. } => {
            let later = later_passes(round as int, 2 * n + 1) + 4;
            match waiting {
                Waiting::Fetch => (2 * (n - next) + later) as nat,
                Waiting::Trigger => (2 * (n - next) - 1 + later) as nat,
                Waiting::Sleep => later as nat,
            }
        },
        Phase::Finalizing => 4,
        Phase::Downloading => 3,
        Phase::Installed { storing } => match storing {
            Storing::PrivateKey => 2,
            Storing::Certificate => 1,
            _ => 0,
        },
        Phase::Failed { .. } => 0,
    }
}

/// The steps of the later passes, pass by pass.
proof fn lemma_later_passes(round: int, pass: nat)
    requires
        1 <= round <= MAX_ROUNDS,
    ensures
        later_passes(round, pass) == if round == 1 {
            3 * pass
        } else if round == 2 {
            2 * pass
        } else if round == 3 {
            pass
        } else {
            0
        },
{
    assert((MAX_ROUNDS - round) * pass == if round == 1 {
        3 * pass
    } else if round == 2 {
        2 * pass
    } else if round == 3 {
        pass
    } else {
        0
    }) by (nonlinear_arith)
        requires
            1 <= round <= MAX_ROUNDS,
            MAX_ROUNDS == 4,
    ;
}

/// Every round ends. The first step takes in the order, or fails. Every
/// later step of a round that is not over brings the round nearer its end,
/// whatever happens, and a round is over exactly when no step is left. So
/// a round over `n` authorizations takes at most `8 * n + 8` steps: it
/// fetches each authorization at most four times. The authorizations are
/// as many as a list can hold.
pub proof fn lemma_round_ends(s: IssuerView, r: ResolverView, e: EventView, m: MaterialView)
    requires
        s.well_formed(),
        s.authorizations.len() <= usize::MAX,
    ensures
        ({
            let o = transition(s, r, e, m);
            &&& !(o.issuer.phase is OrderCreated)
            &&& s.phase is OrderCreated ==> steps_left(o.issuer) <= 8 * o.issuer.authorizations.len()
                + 7
            &&& (!(s.phase is OrderCreated) && !s.is_over()) ==> steps_left(o.issuer) < steps_left(
                s,
            )
            &&& !(s.phase is OrderCreated) ==> (steps_left(s) == 0 <==> s.is_over())
            &&& s.is_over() ==> o.issuer == s && o.resolver == r && o.action is Finish
            &&& !(s.phase is OrderCreated) ==> o.issuer.authorizations == s.authorizations
        }),
{
    let o = transition(s, r, e, m);
    let n = s.authorizations.len();
    match s.phase {
        Phase::Authorizing { round, next, all_valid, waiting } => {
            assert(o.issuer.authorizations == s.authorizations);
            lemma_later_passes(round as int, 2 * n + 1);
            if round < MAX_ROUNDS {
                lemma_later_passes(round + 1, 2 * n + 1);
            }
        },
        Phase::OrderCreated => {
            let k = o.issuer.authorizations.len();
            lemma_later_passes(1, 2 * k + 1);
        },
        _ => {},
    }
}

/// The state of the machine after it was fed `inputs` from the state `s`.
pub open spec fn run_end(s: IssuerView, r: ResolverView, inputs: Seq<(EventView, MaterialView)>) -> IssuerView
    decreases inputs.len(),
{
    if inputs.len() == 0 {
        s
    } else {
        let o = transition(s, r, inputs[0].0, inputs[0].1);
        run_end(o.issuer, o.resolver, inputs.drop_first())
    }
}

/// Whether the input `input` answers what the machine waits for in the
/// state `s`, with an authorization that is pending: the authorization
/// offers a challenge of the configured type, the answer to the challenge
/// could be made, the challenge could be triggered, and the pause ended.
pub open spec fn keeps_pending(s: IssuerView, input: (EventView, MaterialView)) -> bool {
    match s.phase {
        Phase::Authorizing { waiting, .. } => match waiting {
            Waiting::Fetch => {
                &&& input.0 matches EventView::AuthorizationFetched(authorization)
                &&& status_of(authorization.status) == Status::Pending
                &&& find_challenge(authorization.challenges, s.config.challenge_type) is Some
                &&& match s.config.challenge_type {
                    ChallengeType::Http01 => input.1 matches MaterialView::KeyAuthorization(Ok(_)),
                    ChallengeType::TlsAlpn01 => input.1 matches MaterialView::ChallengeCertificate(
                        Some(_),
                    ),
                }
            },
            Waiting::Trigger => input.0 is ChallengeTriggered,
            Waiting::Sleep => input.0 is Slept,
        },
        _ => true,
    }
}

/// Whether every input of `inputs` keeps the run from the state `s`
/// pending.
pub open spec fn stays_pending(
    s: IssuerView,
    r: ResolverView,
    inputs: Seq<(EventView, MaterialView)>,
) -> bool
    decreases inputs.len(),
{
    if inputs.len() == 0 {
        true
    } else {
        let o = transition(s, r, inputs[0].0, inputs[0].1);
        keeps_pending(s, inputs[0]) && stays_pending(o.issuer, o.resolver, inputs.drop_first())
    }
}

/// The places from which `actions` ask to fetch an authorization, in
/// their order.
pub open spec fn fetches(actions: Seq<ActionView>) -> Seq<Seq<char>>
    decreases actions.len(),
{
    if actions.len() == 0 {
        Seq::empty()
    } else {
        match actions[0] {
            ActionView::FetchAuthorization { url } => seq![url] + fetches(actions.drop_first()),
            _ => fetches(actions.drop_first()),
        }
    }
}

/// Whether some action of `actions` sends a signing request or downloads
/// a certificate.
pub open spec fn finalizes(actions: Seq<ActionView>) -> bool {
    exists|i: int|
        0 <= i < actions.len() && ((#[trigger] actions[i]) is SendCsr
            || actions[i] is ObtainCertificate)
}

/// The list `list`, `times` times over.
pub open spec fn repeated(list: Seq<Seq<char>>, times: nat) -> Seq<Seq<char>>
    decreases times,
{
    if times == 0 {
        Seq::empty()
    } else {
        list + repeated(list, (times - 1) as nat)
    }
}

/// The fetches that a round in the state `s` still asks for if it stays
/// pending: the authorizations behind the cursor, and every authorization
/// once for each pass that is left.
pub open spec fn fetches_left(s: IssuerView) -> Seq<Seq<char>> {
    match s.phase {
        Phase::Authorizing { round, next, waiting, .. } => if waiting == Waiting::Sleep {
            repeated(s.authorizations, (MAX_ROUNDS - round) as nat)
        } else {
            s.authorizations.skip(next + 1) + repeated(
                s.authorizations,
                (MAX_ROUNDS - round) as nat,
            )
        },
        _ => Seq::empty(),
    }
}

proof fn lemma_fetches_cons(first: ActionView, rest: Seq<ActionView>)
    ensures
        fetches(seq![first] + rest) == match first {
            ActionView::FetchAuthorization { url } => seq![url] + fetches(rest),
            _ => fetches(rest),
        },
{
    assert((seq![first] + rest).drop_first() =~= rest);
}

proof fn lemma_finalizes_cons(first: ActionView, rest: Seq<ActionView>)
    ensures
        finalizes(seq![first] + rest) <==> (first is SendCsr || first is ObtainCertificate
            || finalizes(rest)),
{
    let all = seq![first] + rest;
    if finalizes(all) {
        let i = choose|i: int|
            0 <= i < all.len() && ((#[trigger] all[i]) is SendCsr || all[i] is ObtainCertificate);
        if i > 0 {
            assert(rest[i - 1] == all[i]);
        }
    }
    if first is SendCsr || first is ObtainCertificate {
        assert(all[0] == first);
    }
    if finalizes(rest) {
        let i = choose|i: int|
            0 <= i < rest.len() && ((#[trigger] rest[i]) is SendCsr
                || rest[i] is ObtainCertificate);
        assert(all[i + 1] == rest[i]);
    }
}

/// A round that failed asks for nothing more.
proof fn lemma_run_when_failed(s: IssuerView, r: ResolverView, inputs: Seq<(EventView, MaterialView)>)
    requires
        s.phase is Failed,
    ensures
        fetches(run(s, r, inputs)).len() == 0,
        !finalizes(run(s, r, inputs)),
        run_end(s, r, inputs) == s,
    decreases inputs.len(),
{
    if inputs.len() > 0 {
        let o = transition(s, r, inputs[0].0, inputs[0].1);
        let rest = run(o.issuer, o.resolver, inputs.drop_first());
        lemma_run_when_failed(o.issuer, o.resolver, inputs.drop_first());
        lemma_fetches_cons(o.action, rest);
        lemma_finalizes_cons(o.action, rest);
    } else {
        assert(fetches(run(s, r, inputs)) =~= Seq::<Seq<char>>::empty());
    }
}

/// While every authorization stays pending, the round fetches the
/// authorizations in the order of the order, pass after pass, and nothing
/// else: what it fetches is the beginning of what is left of four passes
/// over the list. It never sends a signing request and never downloads a
/// certificate. When such a run is over, it has fetched all of that, and
/// it has failed with a timeout.
pub proof fn lemma_pending_run(s: IssuerView, r: ResolverView, inputs: Seq<(EventView, MaterialView)>)
    requires
        s.well_formed(),
        s.phase is Authorizing || s.phase is Failed,
        s.authorizations.len() <= usize::MAX,
        stays_pending(s, r, inputs),
    ensures
        fetches(run(s, r, inputs)).is_prefix_of(fetches_left(s)),
        !finalizes(run(s, r, inputs)),
        run_end(s, r, inputs).phase is Authorizing || run_end(s, r, inputs).phase is Failed,
        run_end(s, r, inputs).is_over() ==> fetches(run(s, r, inputs)) == fetches_left(s),
        (run_end(s, r, inputs).is_over() && s.phase is Authorizing) ==> run_end(
            s,
            r,
            inputs,
        ).phase == (Phase::Failed { reason: IssueError::AuthorizationTimeout }) && times_out(
            run(s, r, inputs),
        ),
    decreases inputs.len(),
{
    if inputs.len() == 0 {
        assert(fetches(run(s, r, inputs)) =~= Seq::<Seq<char>>::empty());
    } else if s.phase is Failed {
        lemma_run_when_failed(s, r, inputs);
    } else {
        let o = transition(s, r, inputs[0].0, inputs[0].1);
        let rest = run(o.issuer, o.resolver, inputs.drop_first());
        let list = s.authorizations;
        lemma_step_well_formed(s, r, inputs[0].0, inputs[0].1);
        assert(keeps_pending(s, inputs[0]));
        assert(o.issuer.authorizations == list);
        lemma_pending_run(o.issuer, o.resolver, inputs.drop_first());
        lemma_fetches_cons(o.action, rest);
        lemma_finalizes_cons(o.action, rest);
        lemma_times_out_cons(o.action, rest);
        reveal_with_fuel(repeated, 2);
        match s.phase {
            Phase::Authorizing { round, next, all_valid, waiting } => {
                match waiting {
                    Waiting::Fetch => {
                        assert(o.action is TriggerChallenge);
                        assert(fetches_left(o.issuer) == fetches_left(s));
                    },
                    Waiting::Trigger => {
                        if next + 1 < list.len() {
                            assert(list.skip(next + 1) =~= seq![list[next + 1]] + list.skip(
                                next + 2,
                            ));
                            assert(fetches_left(s) =~= seq![list[next + 1]] + fetches_left(
                                o.issuer,
                            ));
                        } else {
                            assert(list.skip(next + 1) =~= Seq::<Seq<char>>::empty());
                            if round < MAX_ROUNDS {
                                assert(fetches_left(s) =~= fetches_left(o.issuer));
                            } else {
                                assert(fetches_left(s) =~= Seq::<Seq<char>>::empty());
                                lemma_run_when_failed(o.issuer, o.resolver, inputs.drop_first());
                            }
                        }
                    },
                    Waiting::Sleep => {
                        assert(list =~= seq![list[0]] + list.skip(1));
                        assert(fetches_left(s) =~= seq![list[0]] + fetches_left(o.issuer));
                    },
                }
            },
            _ => {},
        }
    }
}

/// A round whose authorizations all stay pending fetches each of them
/// exactly four times: the fetches of the whole round, from the order on,
/// are the list of the order four times over, in its order. There is no
/// fifth pass, the signing request is never sent, no certificate is
/// downloaded, and the round ends with a timeout.
pub proof fn lemma_pending_round_fetches_four_times(
    s: IssuerView,
    r: ResolverView,
    order: OrderView,
    m: MaterialView,
    inputs: Seq<(EventView, MaterialView)>,
)
    requires
        s.phase is OrderCreated,
        0 < order.authorizations.len() <= usize::MAX,
        ({
            let o = transition(s, r, EventView::OrderCreated(order), m);
            stays_pending(o.issuer, o.resolver, inputs) && run_end(
                o.issuer,
                o.resolver,
                inputs,
            ).is_over()
        }),
    ensures
        ({
            let first = (EventView::OrderCreated(order), m);
            let all = run(s, r, seq![first] + inputs);
            &&& fetches(all) == repeated(order.authorizations, MAX_ROUNDS as nat)
            &&& !finalizes(all)
            &&& times_out(all)
            &&& pauses(all) == seq![10u64, 20u64, 30u64]
        }),
{
    let first = (EventView::OrderCreated(order), m);
    let o = transition(s, r, first.0, first.1);
    let list = order.authorizations;
    assert((seq![first] + inputs).drop_first() =~= inputs);
    let rest = run(o.issuer, o.resolver, inputs);
    assert(run(s, r, seq![first] + inputs) == seq![o.action] + rest);
    lemma_pending_run(o.issuer, o.resolver, inputs);
    lemma_fetches_cons(o.action, rest);
    lemma_finalizes_cons(o.action, rest);
    lemma_times_out_cons(o.action, rest);
    lemma_pauses_cons(o.action, rest);
    lemma_run_pauses(o.issuer, o.resolver, inputs);
    lemma_schedule();
    reveal_with_fuel(repeated, 2);
    assert(list =~= seq![list[0]] + list.skip(1));
    assert(repeated(list, MAX_ROUNDS as nat) =~= seq![list[0]] + fetches_left(o.issuer));
}

} // verus!
