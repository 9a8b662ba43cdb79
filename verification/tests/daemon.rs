use lucius::daemon::{
    after_enter, after_heartbeat, after_leave, after_stop, check_response, daemon_manifest,
    daemon_unit_name, daemon_unit_properties, enter, enter_request, handle_request, heartbeat,
    idle_step, leave, socket_path, ClientStep, IdleStep, Request, Response,
};
use lucius::leases::LeaveOutcome;
use lucius::manifest::{Manifest, ManifestRuntime};
use lucius::properties::PropertyValue;
use lucius::strmap::StrMap;

fn manifest(base: &str, set_id: &str) -> Manifest {
    Manifest {
        schema_version: 1,
        set_id: set_id.to_string(),
        name: "test".to_string(),
        auto_start: false,
        runtime_shell: "/bin/sh".to_string(),
        runtime: ManifestRuntime {
            base: base.to_string(),
        },
        services: StrMap::new(),
    }
}

#[test]
fn daemon_socket_cannot_escape_xdg_runtime_dir() {
    let manifest = manifest("../escape", "test");
    let err = socket_path(&manifest, Some("/tmp/ides-test-runtime")).unwrap_err();
    assert!(err.contains("manifest runtime base"));
}

#[test]
fn daemon_socket_lives_under_the_set_base() {
    let m = manifest("ides/test", "test");
    assert_eq!(
        socket_path(&m, Some("/run/user/1000")).unwrap(),
        "/run/user/1000/ides/test/daemon.sock"
    );
    assert_eq!(
        socket_path(&m, None).unwrap_err(),
        "XDG_RUNTIME_DIR must be set to use the ides daemon"
    );
}

#[test]
fn daemon_unit_is_named_by_a_short_set_id() {
    assert_eq!(
        daemon_unit_name(&manifest("b", "0123456789abcdefXYZ")),
        "ides-daemon-0123456789abcdef.service"
    );
    assert_eq!(daemon_unit_name(&manifest("b", "short")), "ides-daemon-short.service");
}

#[test]
fn daemon_unit_runs_this_program_as_daemon() {
    let props = daemon_unit_properties(&manifest("b", "s"), "/usr/bin/ides", "/m.json", Some("/run/u"));
    assert_eq!(props.len(), 4);
    assert_eq!(props[0].0, "Description");
    match &props[0].1 {
        PropertyValue::Str(s) => assert_eq!(s, "ides daemon test"),
        _ => panic!("description"),
    }
    match &props[2].1 {
        PropertyValue::Commands(c) => {
            assert_eq!(c[0].0, "/usr/bin/ides");
            assert_eq!(c[0].1, vec!["/usr/bin/ides", "daemon", "--manifest", "/m.json"]);
            assert!(!c[0].2);
        }
        _ => panic!("exec start"),
    }
    match &props[3].1 {
        PropertyValue::Strings(v) => assert_eq!(v, &vec!["XDG_RUNTIME_DIR=/run/u".to_string()]),
        _ => panic!("environment"),
    }
    let without = daemon_unit_properties(&manifest("b", "s"), "/x", "/m", None);
    match &without[3].1 {
        PropertyValue::Strings(v) => assert!(v.is_empty()),
        _ => panic!("environment"),
    }
}

#[test]
fn answers_are_checked_and_tokens_taken() {
    assert!(check_response(Response::ok()).is_ok());
    assert_eq!(
        check_response(Response::error("boom".to_string())).err().unwrap(),
        "boom"
    );
    let bare = Response {
        ok: false,
        token: None,
        last: false,
        error: None,
    };
    assert_eq!(check_response(bare).err().unwrap(), "daemon request failed");
    assert_eq!(enter(Response::token("s:1".to_string())).unwrap(), "s:1");
    assert_eq!(
        enter(Response::ok()).unwrap_err(),
        "daemon did not return a lease token"
    );
}

#[test]
fn leave_and_heartbeat_go_to_the_token_set() {
    match leave("set-a:42") {
        Some((m, Request::Leave { token })) => {
            assert_eq!(m.set_id, "set-a");
            assert_eq!(m.runtime.base, "ides/unknown");
            assert_eq!(token, "set-a:42");
        }
        _ => panic!("expected a leave request"),
    }
    match heartbeat("set-b:7") {
        Some((m, Request::Heartbeat { token })) => {
            assert_eq!(m.set_id, "set-b");
            assert_eq!(token, "set-b:7");
        }
        _ => panic!("expected a heartbeat request"),
    }
    assert!(leave("nocolon").is_none());
    assert!(heartbeat("nocolon").is_none());
    assert_eq!(daemon_manifest("x").services.len(), 0);
}

#[test]
fn requests_are_routed_to_lease_operations() {
    match handle_request(Ok(Request::Ping)) {
        ClientStep::Reply { response, exit } => assert!(response.ok && !exit),
        _ => panic!("ping"),
    }
    match handle_request(Err("failed to parse daemon request: x".to_string())) {
        ClientStep::Reply { response, exit } => {
            assert!(!response.ok && !exit);
            assert_eq!(response.error.unwrap(), "failed to parse daemon request: x");
        }
        _ => panic!("parse error"),
    }
    match handle_request(Ok(enter_request("/m", "shell", "/root", Some(5)))) {
        ClientStep::Enter { manifest_path, kind, root, pid } => {
            assert_eq!((manifest_path.as_str(), kind.as_str(), root.as_str(), pid), ("/m", "shell", "/root", Some(5)));
        }
        _ => panic!("enter"),
    }
    assert!(matches!(
        handle_request(Ok(Request::Leave { token: "t".to_string() })),
        ClientStep::Leave { .. }
    ));
    assert!(matches!(
        handle_request(Ok(Request::Heartbeat { token: "t".to_string() })),
        ClientStep::Heartbeat { .. }
    ));
}

#[test]
fn the_last_leave_stops_the_set_and_ends_the_daemon() {
    let last = LeaveOutcome {
        manifest_path: "/m".to_string(),
        last: true,
    };
    assert!(matches!(after_leave(Ok(last)), ClientStep::StopSet));
    let not_last = LeaveOutcome {
        manifest_path: "/m".to_string(),
        last: false,
    };
    match after_leave(Ok(not_last)) {
        ClientStep::Reply { response, exit } => assert!(response.ok && !response.last && !exit),
        _ => panic!("not last"),
    }
    match after_stop(Ok(())) {
        ClientStep::Reply { response, exit } => assert!(response.ok && response.last && exit),
        _ => panic!("stopped"),
    }
    match after_stop(Err("down failed".to_string())) {
        ClientStep::Reply { response, exit } => {
            assert!(!response.ok && !exit);
            assert_eq!(response.error.unwrap(), "down failed");
        }
        _ => panic!("stop failed"),
    }
    match after_enter(Ok("s:1".to_string())) {
        ClientStep::Reply { response, .. } => assert_eq!(response.token.unwrap(), "s:1"),
        _ => panic!("entered"),
    }
    match after_heartbeat(Err("gone".to_string())) {
        ClientStep::Reply { response, .. } => assert!(!response.ok),
        _ => panic!("heartbeat"),
    }
}

#[test]
fn idle_daemon_stops_after_dead_shells_or_a_quiet_spell() {
    assert!(matches!(idle_step(1, 0, false), IdleStep::StopSetAndExit));
    assert!(matches!(idle_step(0, 0, true), IdleStep::Exit));
    assert!(matches!(idle_step(0, 0, false), IdleStep::Sleep));
    assert!(matches!(idle_step(3, 1, true), IdleStep::Sleep));
}
