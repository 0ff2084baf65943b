//! Laws of which way a request goes.

use crate::proxy::dispatch::{
    after_attempt, send_to_target, Attempt, DispatchError, GostFallback, Outcome, Step,
};
use crate::proxy::route_cache::{Route, RouteCache};
use vstd::prelude::*;

verus! {

/// A new cache remembers nothing.
pub proof fn law_new_route_cache(
    cache: RouteCache,
    default: RouteCache,
    host: &str,
    port: u16,
    r: Option<Route>,
    default_r: Option<Route>,
)
    requires
        call_ensures(RouteCache::new, (), cache),
        call_ensures(<RouteCache as Default>::default, (), default),
        call_ensures(RouteCache::get, (&cache, host, port), r),
        call_ensures(RouteCache::get, (&default, host, port), default_r),
    ensures
        r is None,
        default_r is None,
{
}

/// What is set for a host and a port is what is found for them from then on; what is
/// found for another host or another port does not change.
pub proof fn law_set_then_get(
    cache: &mut RouteCache,
    host: &str,
    port: u16,
    route: Route,
    asked_host: &str,
    asked_port: u16,
    before: Option<Route>,
    after: Option<Route>,
)
    requires
        call_ensures(RouteCache::get, (&*old(cache), asked_host, asked_port), before),
        call_ensures(RouteCache::set, (cache, host, port, route), ()),
        call_ensures(RouteCache::get, (&*final(cache), asked_host, asked_port), after),
    ensures
        asked_host@ == host@ && asked_port == port ==> after == Some(route),
        asked_host@ != host@ || asked_port != port ==> after == before,
{
}

/// The first attempt takes the way that is remembered, and plain TLS if none is or if
/// it would need a fallback that is not there.
pub proof fn law_first_attempt(
    host: &str,
    port: u16,
    gost: Option<&GostFallback>,
    routes: &RouteCache,
    known: Option<Route>,
    r: Attempt,
)
    requires
        call_ensures(RouteCache::get, (routes, host, port), known),
        call_ensures(send_to_target, (host, port, gost, routes), r),
    ensures
        known == Some(Route::Direct) ==> r is CachedDirect,
        known == Some(Route::Gost) && gost is Some ==> r is CachedGost,
        known == Some(Route::Gost) && gost is None ==> r is ProbeDirect,
        known is None ==> r is ProbeDirect,
{
}

/// A reply goes to the client as it is. A remembered way that fails leads to plain TLS
/// as if nothing were known; plain TLS that fails leads to the fallback if there is one;
/// and where there is nothing left to try, the errors of plain TLS and of the fallback
/// are reported.
pub proof fn law_next_step(
    attempt: Attempt,
    outcome: Outcome,
    host: &str,
    port: u16,
    gost: Option<&GostFallback>,
    routes: &mut RouteCache,
    r: Step,
)
    requires
        call_ensures(after_attempt, (attempt, outcome, host, port, gost, routes), r),
    ensures
        outcome matches Ok(reply) ==> (r matches Step::Reply(bytes) && bytes@ == reply@),
        outcome matches Err(error) ==> match attempt {
            Attempt::CachedDirect => r matches Step::Try(Attempt::ProbeDirect),
            Attempt::CachedGost => r matches Step::Try(Attempt::ProbeDirect),
            Attempt::ProbeDirect => if gost is Some {
                r matches Step::Try(Attempt::ProbeGost { direct_error }) && direct_error@ == error@
            } else {
                r matches Step::Fail(DispatchError::Direct { direct }) && direct@ == error@
            },
            Attempt::ProbeGost { direct_error } => r matches Step::Fail(
                DispatchError::Both { direct, gost: second },
            ) && direct@ == direct_error@ && second@ == error@,
        },
{
}

/// Only a probe that brings a reply is remembered, for its own host and port, and as
/// the way that it took.
pub proof fn law_what_is_remembered(
    attempt: Attempt,
    outcome: Outcome,
    host: &str,
    port: u16,
    gost: Option<&GostFallback>,
    routes: &mut RouteCache,
    r: Step,
    asked_host: &str,
    asked_port: u16,
    before: Option<Route>,
    after: Option<Route>,
)
    requires
        call_ensures(RouteCache::get, (&*old(routes), asked_host, asked_port), before),
        call_ensures(after_attempt, (attempt, outcome, host, port, gost, routes), r),
        call_ensures(RouteCache::get, (&*final(routes), asked_host, asked_port), after),
    ensures
        after == if outcome is Ok && attempt is ProbeDirect && asked_host@ == host@ && asked_port
            == port {
            Some(Route::Direct)
        } else if outcome is Ok && attempt is ProbeGost && asked_host@ == host@ && asked_port
            == port {
            Some(Route::Gost)
        } else {
            before
        },
{
}

/// The way that brought a reply is the first one to be taken next time.
pub proof fn law_next_request_takes_the_same_way(
    attempt: Attempt,
    reply: Vec<u8>,
    host: &str,
    port: u16,
    gost: Option<&GostFallback>,
    routes: &mut RouteCache,
    r: Step,
    next: Attempt,
)
    requires
        call_ensures(
            after_attempt,
            (attempt, Ok::<Vec<u8>, String>(reply), host, port, gost, routes),
            r,
        ),
        call_ensures(send_to_target, (host, port, gost, &*final(routes)), next),
    ensures
        attempt is ProbeDirect ==> next is CachedDirect,
        attempt is ProbeGost && gost is Some ==> next is CachedGost,
{
}

/// The message of a failure is that of plain TLS, together with that of the fallback
/// if there was one.
pub proof fn law_failure_message(error: &DispatchError, r: String)
    requires
        call_ensures(DispatchError::message, (error,), r),
    ensures
        *error matches DispatchError::Direct { direct } ==> r@ == direct@,
        *error matches DispatchError::Both { direct, gost } ==> r@ == "прямой TLS: "@ + direct@
            + "; ГОСТ тоже не удался: "@ + gost@,
{
}

/// A copy of a fallback has the same settings.
pub proof fn law_fallback_copy(gost: &GostFallback, r: GostFallback)
    requires
        call_ensures(GostFallback::clone, (gost,), r),
    ensures
        match *gost {
            GostFallback::Vm {
                ssh_target,
                openssl_cnf_path,
                timeout,
            } => r matches GostFallback::Vm {
                ssh_target: ssh,
                openssl_cnf_path: path,
                timeout: limit,
            } && ssh@ == ssh_target@ && path@ == openssl_cnf_path@ && limit == timeout,
            GostFallback::Host { openssl_cnf_path, timeout } => r matches GostFallback::Host {
                openssl_cnf_path: path,
                timeout: limit,
            } && path@ == openssl_cnf_path@ && limit == timeout,
        },
{
}

} // verus!
