use gost_upstream::proxy::dispatch::{
    after_attempt, call_gost, send_to_target, Attempt, DispatchError, Step,
};
use gost_upstream::proxy::route_cache::{Route, RouteCache};
use gost_upstream::proxy::GostFallback;
use std::time::Duration;

fn vm() -> GostFallback {
    GostFallback::Vm {
        ssh_target: "user@vm".to_string(),
        openssl_cnf_path: "~/gost.cnf".to_string(),
        timeout: Duration::from_secs(20),
    }
}

#[test]
fn cache_remembers_the_last_route() {
    let mut routes = RouteCache::new();
    assert_eq!(routes.get("a", 443), None);
    routes.set("a", 443, Route::Direct);
    routes.set("a", 8443, Route::Gost);
    routes.set("b", 443, Route::Gost);
    assert_eq!(routes.get("a", 443), Some(Route::Direct));
    assert_eq!(routes.get("a", 8443), Some(Route::Gost));
    routes.set("a", 443, Route::Gost);
    assert_eq!(routes.get("a", 443), Some(Route::Gost));
    assert_eq!(routes.get("b", 443), Some(Route::Gost));
    assert_eq!(routes.get("A", 443), None);
    assert_eq!(RouteCache::default().get("a", 443), None);
}

#[test]
fn unknown_target_is_probed_directly() {
    let gost = vm();
    let mut routes = RouteCache::new();
    let attempt = send_to_target("h", 443, Some(&gost), &routes);
    assert!(matches!(attempt, Attempt::ProbeDirect));
    let step = after_attempt(attempt, Ok(b"reply".to_vec()), "h", 443, Some(&gost), &mut routes);
    assert!(matches!(step, Step::Reply(reply) if reply == b"reply"));
    assert_eq!(routes.get("h", 443), Some(Route::Direct));
    let attempt = send_to_target("h", 443, Some(&gost), &routes);
    assert!(matches!(attempt, Attempt::CachedDirect));
}

#[test]
fn fallback_follows_a_failed_probe() {
    let gost = vm();
    let mut routes = RouteCache::new();
    let step = after_attempt(
        Attempt::ProbeDirect,
        Err("no cipher".to_string()),
        "h",
        443,
        Some(&gost),
        &mut routes,
    );
    let attempt = match step {
        Step::Try(attempt) => attempt,
        other => panic!("unexpected step {other:?}"),
    };
    assert!(matches!(&attempt, Attempt::ProbeGost { direct_error } if direct_error == "no cipher"));
    assert_eq!(routes.get("h", 443), None);
    let step = after_attempt(attempt, Ok(vec![1]), "h", 443, Some(&gost), &mut routes);
    assert!(matches!(step, Step::Reply(reply) if reply == [1]));
    assert_eq!(routes.get("h", 443), Some(Route::Gost));
    let attempt = send_to_target("h", 443, Some(&gost), &routes);
    assert!(matches!(attempt, Attempt::CachedGost));
}

#[test]
fn failures_are_reported_and_not_remembered() {
    let gost = vm();
    let mut routes = RouteCache::new();
    let step = after_attempt(
        Attempt::ProbeGost { direct_error: "d".to_string() },
        Err("g".to_string()),
        "h",
        443,
        Some(&gost),
        &mut routes,
    );
    match step {
        Step::Fail(error) => {
            assert!(matches!(&error, DispatchError::Both { direct, gost } if direct == "d" && gost == "g"));
            assert_eq!(error.message(), "прямой TLS: d; ГОСТ тоже не удался: g");
        }
        other => panic!("unexpected step {other:?}"),
    }
    assert_eq!(routes.get("h", 443), None);
    let step =
        after_attempt(Attempt::ProbeDirect, Err("d".to_string()), "h", 443, None, &mut routes);
    match step {
        Step::Fail(error) => assert_eq!(error.message(), "d"),
        other => panic!("unexpected step {other:?}"),
    }
}

#[test]
fn remembered_route_is_only_a_hint() {
    let gost = vm();
    for route in [Route::Direct, Route::Gost] {
        let mut routes = RouteCache::new();
        routes.set("h", 443, route);
        let attempt = send_to_target("h", 443, Some(&gost), &routes);
        let step =
            after_attempt(attempt, Err("gone".to_string()), "h", 443, Some(&gost), &mut routes);
        assert!(matches!(step, Step::Try(Attempt::ProbeDirect)));
        assert_eq!(routes.get("h", 443), Some(route));
    }
}

#[test]
fn remembered_fallback_needs_a_fallback() {
    let mut routes = RouteCache::new();
    routes.set("h", 443, Route::Gost);
    assert!(matches!(send_to_target("h", 443, None, &routes), Attempt::ProbeDirect));
}

#[test]
fn fallback_chooses_the_command_and_the_limit() {
    let (command, limit) = call_gost(&vm().clone(), "t", 1);
    assert_eq!(command.program, "ssh");
    assert_eq!(limit, Duration::from_secs(20));
    let host = GostFallback::Host {
        openssl_cnf_path: "/etc/gost.cnf".to_string(),
        timeout: Duration::from_millis(5),
    };
    let (command, limit) = call_gost(&host, "t", 1);
    assert_eq!(command.program, "openssl");
    assert_eq!(limit, Duration::from_millis(5));
}
