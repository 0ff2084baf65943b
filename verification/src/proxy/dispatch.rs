//! Which way a request goes to its target: plain TLS first, the GOST fallback
//! if that fails, and straight to what worked last time.

use super::route_cache::{Route, RouteCache};
use crate::connectors::vm_gost::{
    host_command, host_gost_command, vm_command, vm_gost_command, CommandLine, CommandSpec,
};
use std::time::Duration;
use vstd::prelude::*;

verus! {

/// Where the GOST handshake is done when plain TLS fails.
#[derive(Debug)]
pub enum GostFallback {
    /// On another machine, reached over SSH: the cryptography stays there.
    Vm { ssh_target: String, openssl_cnf_path: String, timeout: Duration },
    /// On this machine.
    Host { openssl_cnf_path: String, timeout: Duration },
}

impl GostFallback {
    /// The process that reaches `host:port` by this fallback.
    pub open spec fn command(self, host: Seq<char>, port: u16) -> CommandSpec {
        match self {
            GostFallback::Vm { ssh_target, openssl_cnf_path, .. } => vm_command(
                ssh_target@,
                openssl_cnf_path@,
                host,
                port,
            ),
            GostFallback::Host { openssl_cnf_path, .. } => host_command(
                openssl_cnf_path@,
                host,
                port,
            ),
        }
    }

    /// The time limit of this fallback.
    pub open spec fn limit(self) -> Duration {
        match self {
            GostFallback::Vm { timeout, .. } => timeout,
            GostFallback::Host { timeout, .. } => timeout,
        }
    }
}

impl Clone for GostFallback {
    fn clone(&self) -> (r: Self)
        ensures
            r == *self,
    {
        match self {
            GostFallback::Vm { ssh_target, openssl_cnf_path, timeout } => GostFallback::Vm {
                ssh_target: ssh_target.clone(),
                openssl_cnf_path: openssl_cnf_path.clone(),
                timeout: *timeout,
            },
            GostFallback::Host { openssl_cnf_path, timeout } => GostFallback::Host {
                openssl_cnf_path: openssl_cnf_path.clone(),
                timeout: *timeout,
            },
        }
    }
}

/// The process that sends a request by the fallback, and its time limit.
pub fn call_gost(gost: &GostFallback, host: &str, port: u16) -> (r: (CommandLine, Duration))
    ensures
        r.0@ == gost.command(host@, port),
        r.1 == gost.limit(),
{
    match gost {
        GostFallback::Vm { ssh_target, openssl_cnf_path, timeout } => {
            (
                vm_gost_command(ssh_target.as_str(), openssl_cnf_path.as_str(), host, port),
                *timeout,
            )
        },
        GostFallback::Host { openssl_cnf_path, timeout } => {
            (host_gost_command(openssl_cnf_path.as_str(), host, port), *timeout)
        },
    }
}

/// An attempt to reach a target.
#[derive(Debug)]
pub enum Attempt {
    /// Plain TLS, because that worked last time.
    CachedDirect,
    /// The fallback, because that worked last time.
    CachedGost,
    /// Plain TLS, with nothing known or nothing known that works.
    ProbeDirect,
    /// The fallback, after plain TLS failed in the given way.
    ProbeGost { direct_error: String },
}

/// What came of an attempt: the reply, or a description of the failure.
pub type Outcome = Result<Vec<u8>, String>;

/// Why a request could not be delivered.
#[derive(Debug)]
pub enum DispatchError {
    /// Plain TLS failed, and there is no fallback.
    Direct { direct: String },
    /// Plain TLS failed, and so did the fallback.
    Both { direct: String, gost: String },
}

/// What to do after an attempt.
#[derive(Debug)]
pub enum Step {
    /// Make this attempt next.
    Try(Attempt),
    /// Hand this reply to the client.
    Reply(Vec<u8>),
    /// Give up.
    Fail(DispatchError),
}

/// The contents of an `Attempt`.
pub enum AttemptSpec {
    CachedDirect,
    CachedGost,
    ProbeDirect,
    ProbeGost { direct_error: Seq<char> },
}

/// The contents of a `Step`.
pub enum StepSpec {
    Try(AttemptSpec),
    Reply(Seq<u8>),
    FailDirect { direct: Seq<char> },
    FailBoth { direct: Seq<char>, gost: Seq<char> },
}

impl View for Attempt {
    type V = AttemptSpec;

    open spec fn view(&self) -> AttemptSpec {
        match *self {
            Attempt::CachedDirect => AttemptSpec::CachedDirect,
            Attempt::CachedGost => AttemptSpec::CachedGost,
            Attempt::ProbeDirect => AttemptSpec::ProbeDirect,
            Attempt::ProbeGost { direct_error } => AttemptSpec::ProbeGost {
                direct_error: direct_error@,
            },
        }
    }
}

impl View for Step {
    type V = StepSpec;

    open spec fn view(&self) -> StepSpec {
        match *self {
            Step::Try(attempt) => StepSpec::Try(attempt@),
            Step::Reply(reply) => StepSpec::Reply(reply@),
            Step::Fail(DispatchError::Direct { direct }) => StepSpec::FailDirect {
                direct: direct@,
            },
            Step::Fail(DispatchError::Both { direct, gost }) => StepSpec::FailBoth {
                direct: direct@,
                gost: gost@,
            },
        }
    }
}

/// The contents of an outcome.
pub open spec fn outcome_view(outcome: Outcome) -> Result<Seq<u8>, Seq<char>> {
    match outcome {
        Ok(reply) => Ok(reply@),
        Err(error) => Err(error@),
    }
}

/// The remembered routes.
pub type Routes = Map<(Seq<char>, u16), Route>;

/// The first attempt: what worked last time, if that is still possible, and
/// plain TLS otherwise.
pub open spec fn first_attempt(
    routes: Routes,
    key: (Seq<char>, u16),
    has_gost: bool,
) -> AttemptSpec {
    if routes.dom().contains(key) {
        match routes[key] {
            Route::Direct => AttemptSpec::CachedDirect,
            Route::Gost => if has_gost {
                AttemptSpec::CachedGost
            } else {
                AttemptSpec::ProbeDirect
            },
        }
    } else {
        AttemptSpec::ProbeDirect
    }
}

/// What follows an attempt. A remembered route is only a hint: if it fails,
/// everything is tried anew. The fallback is tried after plain TLS has failed.
pub open spec fn next_step(
    attempt: AttemptSpec,
    outcome: Result<Seq<u8>, Seq<char>>,
    has_gost: bool,
) -> StepSpec {
    match outcome {
        Ok(reply) => StepSpec::Reply(reply),
        Err(error) => match attempt {
            AttemptSpec::CachedDirect => StepSpec::Try(AttemptSpec::ProbeDirect),
            AttemptSpec::CachedGost => StepSpec::Try(AttemptSpec::ProbeDirect),
            AttemptSpec::ProbeDirect => if has_gost {
                StepSpec::Try(AttemptSpec::ProbeGost { direct_error: error })
            } else {
                StepSpec::FailDirect { direct: error }
            },
            AttemptSpec::ProbeGost { direct_error } => StepSpec::FailBoth {
                direct: direct_error,
                gost: error,
            },
        },
    }
}

/// The routes remembered after an attempt: a probe that succeeds is recorded,
/// and nothing else is.
pub open spec fn routes_after(
    routes: Routes,
    key: (Seq<char>, u16),
    attempt: AttemptSpec,
    outcome: Result<Seq<u8>, Seq<char>>,
) -> Routes {
    match (attempt, outcome) {
        (AttemptSpec::ProbeDirect, Ok(_)) => routes.insert(key, Route::Direct),
        (AttemptSpec::ProbeGost { .. }, Ok(_)) => routes.insert(key, Route::Gost),
        _ => routes,
    }
}

/// The first attempt to send a request to `host:port`.
pub fn send_to_target(
    host: &str,
    port: u16,
    gost: Option<&GostFallback>,
    routes: &RouteCache,
) -> (r: Attempt)
    ensures
        r@ == first_attempt(routes@, (host@, port), gost is Some),
{
    match routes.get(host, port) {
        Some(Route::Direct) => Attempt::CachedDirect,
        Some(Route::Gost) => if gost.is_some() {
            Attempt::CachedGost
        } else {
            Attempt::ProbeDirect
        },
        None => Attempt::ProbeDirect,
    }
}

/// What to do after an attempt to reach `host:port`, and what to remember.
pub fn after_attempt(
    attempt: Attempt,
    outcome: Outcome,
    host: &str,
    port: u16,
    gost: Option<&GostFallback>,
    routes: &mut RouteCache,
) -> (r: Step)
    ensures
        r@ == next_step(attempt@, outcome_view(outcome), gost is Some),
        final(routes)@ == routes_after(
            old(routes)@,
            (host@, port),
            attempt@,
            outcome_view(outcome),
        ),
{
    match outcome {
        Ok(reply) => {
            match attempt {
                Attempt::ProbeDirect => routes.set(host, port, Route::Direct),
                Attempt::ProbeGost { .. } => routes.set(host, port, Route::Gost),
                _ => {},
            }
            Step::Reply(reply)
        },
        Err(error) => match attempt {
            Attempt::CachedDirect => Step::Try(Attempt::ProbeDirect),
            Attempt::CachedGost => Step::Try(Attempt::ProbeDirect),
            Attempt::ProbeDirect => if gost.is_some() {
                Step::Try(Attempt::ProbeGost { direct_error: error })
            } else {
                Step::Fail(DispatchError::Direct { direct: error })
            },
            Attempt::ProbeGost { direct_error } => Step::Fail(
                DispatchError::Both { direct: direct_error, gost: error },
            ),
        },
    }
}

impl DispatchError {
    /// The error as text.
    pub fn message(&self) -> (r: String)
        ensures
            r@ == match *self {
                DispatchError::Direct { direct } => direct@,
                DispatchError::Both { direct, gost } => "прямой TLS: "@ + direct@
                    + "; ГОСТ тоже не удался: "@ + gost@,
            },
    {
        match self {
            DispatchError::Direct { direct } => direct.clone(),
            DispatchError::Both { direct, gost } => "прямой TLS: ".to_owned().concat(
                direct.as_str(),
            ).concat("; ГОСТ тоже не удался: ").concat(gost.as_str()),
        }
    }
}

/// How sending one request ended, or how far it got.
pub struct Dispatch {
    /// The attempt that was made last.
    pub last: AttemptSpec,
    /// What followed it.
    pub step: StepSpec,
    /// What is remembered afterwards.
    pub routes: Routes,
}

/// Sending one request when the attempts, from `attempt` on, have the given
/// outcomes.
pub open spec fn dispatch_run(
    attempt: AttemptSpec,
    outcomes: Seq<Result<Seq<u8>, Seq<char>>>,
    key: (Seq<char>, u16),
    has_gost: bool,
    routes: Routes,
) -> Dispatch
    decreases outcomes.len(),
{
    if outcomes.len() == 0 {
        Dispatch { last: attempt, step: StepSpec::Try(attempt), routes }
    } else {
        let step = next_step(attempt, outcomes[0], has_gost);
        let after = routes_after(routes, key, attempt, outcomes[0]);
        match step {
            StepSpec::Try(next) => dispatch_run(
                next,
                outcomes.drop_first(),
                key,
                has_gost,
                after,
            ),
            _ => Dispatch { last: attempt, step, routes: after },
        }
    }
}

/// How many attempts can still be made, the given one included.
pub open spec fn attempts_left(attempt: AttemptSpec) -> nat {
    match attempt {
        AttemptSpec::CachedDirect => 3,
        AttemptSpec::CachedGost => 3,
        AttemptSpec::ProbeDirect => 2,
        AttemptSpec::ProbeGost { .. } => 1,
    }
}

/// Whether sending has come to an end.
pub open spec fn is_final(step: StepSpec) -> bool {
    !(step is Try)
}

/// The attempt that takes a remembered route.
pub open spec fn cached(attempt: AttemptSpec) -> AttemptSpec {
    match attempt {
        AttemptSpec::CachedDirect => AttemptSpec::CachedDirect,
        AttemptSpec::ProbeDirect => AttemptSpec::CachedDirect,
        AttemptSpec::CachedGost => AttemptSpec::CachedGost,
        AttemptSpec::ProbeGost { .. } => AttemptSpec::CachedGost,
    }
}

/// Whether an attempt is consistent with what is remembered and configured.
spec fn is_justified(
    attempt: AttemptSpec,
    key: (Seq<char>, u16),
    has_gost: bool,
    routes: Routes,
) -> bool {
    match attempt {
        AttemptSpec::CachedDirect => routes.dom().contains(key) && routes[key] == Route::Direct,
        AttemptSpec::CachedGost => routes.dom().contains(key) && routes[key] == Route::Gost
            && has_gost,
        AttemptSpec::ProbeDirect => true,
        AttemptSpec::ProbeGost { .. } => has_gost,
    }
}

/// What holds of sending from any attempt that can be reached.
proof fn lemma_dispatch(
    attempt: AttemptSpec,
    outcomes: Seq<Result<Seq<u8>, Seq<char>>>,
    key: (Seq<char>, u16),
    has_gost: bool,
    routes: Routes,
)
    requires
        is_justified(attempt, key, has_gost, routes),
    ensures
        ({
            let run = dispatch_run(attempt, outcomes, key, has_gost, routes);
            &&& outcomes.len() >= attempts_left(attempt) ==> is_final(run.step)
            &&& !(run.step is Reply) ==> run.routes == routes
            &&& run.step is Reply ==> first_attempt(run.routes, key, has_gost) == cached(run.last)
            &&& forall|other: (Seq<char>, u16)|
                other != key ==> (#[trigger] run.routes.dom().contains(other)
                    == routes.dom().contains(other)) && (routes.dom().contains(other)
                    ==> run.routes[other] == routes[other])
        }),
    decreases outcomes.len(),
{
    if outcomes.len() > 0 {
        let after = routes_after(routes, key, attempt, outcomes[0]);
        match next_step(attempt, outcomes[0], has_gost) {
            StepSpec::Try(next) => {
                lemma_dispatch(next, outcomes.drop_first(), key, has_gost, after);
            },
            _ => {},
        }
    }
}

/// Sending a request ends after three attempts at the latest.
pub proof fn law_dispatch_ends(
    outcomes: Seq<Result<Seq<u8>, Seq<char>>>,
    key: (Seq<char>, u16),
    has_gost: bool,
    routes: Routes,
)
    requires
        outcomes.len() >= 3,
    ensures
        is_final(
            dispatch_run(
                first_attempt(routes, key, has_gost),
                outcomes,
                key,
                has_gost,
                routes,
            ).step,
        ),
{
    lemma_dispatch(first_attempt(routes, key, has_gost), outcomes, key, has_gost, routes);
}

/// What did not work is not remembered: a request that could not be delivered
/// leaves every remembered route as it was. A request that was delivered
/// changes at most the route to its own target, and the next request to that
/// target takes the way that worked straight away.
pub proof fn law_routes_remember_success(
    outcomes: Seq<Result<Seq<u8>, Seq<char>>>,
    key: (Seq<char>, u16),
    has_gost: bool,
    routes: Routes,
)
    ensures
        ({
            let run = dispatch_run(
                first_attempt(routes, key, has_gost),
                outcomes,
                key,
                has_gost,
                routes,
            );
            &&& !(run.step is Reply) ==> run.routes == routes
            &&& run.step is Reply ==> first_attempt(run.routes, key, has_gost) == cached(run.last)
            &&& forall|other: (Seq<char>, u16)|
                other != key ==> (#[trigger] run.routes.dom().contains(other)
                    == routes.dom().contains(other)) && (routes.dom().contains(other)
                    ==> run.routes[other] == routes[other])
        }),
{
    lemma_dispatch(first_attempt(routes, key, has_gost), outcomes, key, has_gost, routes);
}

/// A remembered route is a hint, not a guarantee: when it fails, sending goes
/// on exactly as if nothing had been remembered.
pub proof fn law_stale_route_is_probed_anew(
    error: Seq<char>,
    outcomes: Seq<Result<Seq<u8>, Seq<char>>>,
    key: (Seq<char>, u16),
    has_gost: bool,
    routes: Routes,
)
    requires
        first_attempt(routes, key, has_gost) != AttemptSpec::ProbeDirect,
    ensures
        dispatch_run(
            first_attempt(routes, key, has_gost),
            seq![Err::<Seq<u8>, Seq<char>>(error)] + outcomes,
            key,
            has_gost,
            routes,
        ) == dispatch_run(AttemptSpec::ProbeDirect, outcomes, key, has_gost, routes),
{
    let all = seq![Err::<Seq<u8>, Seq<char>>(error)] + outcomes;
    assert(all.drop_first() == outcomes);
}

/// A target of which nothing is known gets plain TLS; only if that fails, and
/// only if there is a fallback, is the fallback tried. The way that worked is
/// remembered, and without any that worked the errors of all attempts are
/// reported.
pub proof fn law_unknown_target(
    direct: Result<Seq<u8>, Seq<char>>,
    gost: Result<Seq<u8>, Seq<char>>,
    key: (Seq<char>, u16),
    has_gost: bool,
    routes: Routes,
)
    requires
        !routes.dom().contains(key),
    ensures
        ({
            let run = dispatch_run(
                first_attempt(routes, key, has_gost),
                seq![direct, gost],
                key,
                has_gost,
                routes,
            );
            match (direct, gost) {
                (Ok(reply), _) => {
                    &&& run.step == StepSpec::Reply(reply)
                    &&& run.last == AttemptSpec::ProbeDirect
                    &&& run.routes == routes.insert(key, Route::Direct)
                },
                (Err(error), Ok(reply)) => if has_gost {
                    &&& run.step == StepSpec::Reply(reply)
                    &&& run.last == AttemptSpec::ProbeGost { direct_error: error }
                    &&& run.routes == routes.insert(key, Route::Gost)
                } else {
                    &&& run.step == StepSpec::FailDirect { direct: error }
                    &&& run.routes == routes
                },
                (Err(error), Err(second)) => if has_gost {
                    &&& run.step == StepSpec::FailBoth { direct: error, gost: second }
                    &&& run.routes == routes
                } else {
                    &&& run.step == StepSpec::FailDirect { direct: error }
                    &&& run.routes == routes
                },
            }
        }),
{
    reveal_with_fuel(dispatch_run, 3);
    assert(seq![direct, gost].drop_first()[0] == gost);
}

/// Whether an attempt takes the fallback.
pub open spec fn uses_gost(attempt: AttemptSpec) -> bool {
    attempt is CachedGost || attempt is ProbeGost
}

/// Without a fallback plain TLS is all that is ever attempted, whatever is
/// remembered.
pub proof fn law_no_fallback(
    routes: Routes,
    key: (Seq<char>, u16),
    attempt: AttemptSpec,
    outcome: Result<Seq<u8>, Seq<char>>,
)
    ensures
        !uses_gost(first_attempt(routes, key, false)),
        next_step(attempt, outcome, false) matches StepSpec::Try(next) ==> !uses_gost(next),
{
}

} // verus!
