use lucius::control::{
    find_unit, is_started, is_stoppable, start_request, start_skip, status_text, stop_decision,
    stop_units, unit_status, wait_step, StopDecision, UnitInfo, WaitStep,
};
use lucius::manifest::{
    Activation, Dependencies, Exec, ExecArg, Manifest, ManifestRuntime, RuntimePaths, Service,
    ServiceRuntime, ServiceSystemd, SystemdExecCommand, SystemdExecCommandSpec,
};
use lucius::properties::{
    activation_properties, path_properties, service_properties, socket_properties,
    timer_properties, PropertyValue,
};
use lucius::runtime::prepare_runtime;
use lucius::strmap::StrMap;
use lucius::units::{
    activation_kind, activation_unit_name, activation_unit_specs, service_start_unit_name,
    service_unit_stem, shell_exec_command, ActivationKind,
};

fn service(name: &str) -> Service {
    Service {
        unit_name: format!("ides-test-{name}"),
        execution: Exec {
            program: None,
            argv: Vec::new(),
            shell_command: Some("exec server".to_string()),
            command: "server".to_string(),
        },
        configs: StrMap::new(),
        activation: Activation::default(),
        runtime: ServiceRuntime {
            ephemeral: true,
            env: StrMap::new(),
            paths: RuntimePaths {
                base: format!("services/{name}"),
                run: format!("services/{name}/run"),
                tmp: format!("services/{name}/tmp"),
                cache: format!("services/{name}/cache"),
                config: format!("services/{name}/config"),
                data: format!("services/{name}/data"),
                home: format!("services/{name}/home"),
            },
        },
        systemd: ServiceSystemd::default(),
        systemd_args: String::new(),
        dependencies: Dependencies::default(),
    }
}

fn manifest_with(s: Service) -> Manifest {
    let mut map = StrMap::new();
    map.insert("app".to_string(), s);
    Manifest {
        schema_version: 1,
        set_id: "test".to_string(),
        name: "test".to_string(),
        auto_start: false,
        runtime_shell: "/bin/sh".to_string(),
        runtime: ManifestRuntime {
            base: "ides/test".to_string(),
        },
        services: map,
    }
}

fn options(pairs: &[(&str, &[&str])]) -> StrMap<Vec<String>> {
    let mut m = StrMap::new();
    for (k, vs) in pairs {
        m.insert(k.to_string(), vs.iter().map(|v| v.to_string()).collect());
    }
    m
}

fn names(props: &[(String, PropertyValue)]) -> Vec<&str> {
    props.iter().map(|(n, _)| n.as_str()).collect()
}

#[test]
fn socket_options_become_typed_properties() {
    let socket = options(&[
        ("ListenStream", &["8080", "/run/app.sock"]),
        ("Accept", &["yes"]),
        ("Backlog", &["128"]),
        ("SocketMode", &["0660"]),
        ("TimeoutSec", &["5s"]),
        ("Symlinks", &["/a", "/b"]),
    ]);
    let mut props = Vec::new();
    socket_properties(&socket, &mut props).unwrap();
    assert_eq!(names(&props), ["Accept", "Backlog", "SocketMode", "Symlinks", "TimeoutUSec", "Listen"]);
    assert!(matches!(props[0].1, PropertyValue::Bool(true)));
    assert!(matches!(props[1].1, PropertyValue::U32(128)));
    assert!(matches!(props[2].1, PropertyValue::U32(0o660)));
    assert!(matches!(props[4].1, PropertyValue::U64(5_000_000)));
    match &props[5].1 {
        PropertyValue::Pairs(p) => assert_eq!(
            p,
            &vec![
                ("Stream".to_string(), "8080".to_string()),
                ("Stream".to_string(), "/run/app.sock".to_string())
            ]
        ),
        _ => panic!("listen"),
    }
}

#[test]
fn unknown_or_malformed_activation_options_are_refused() {
    let mut props = Vec::new();
    assert_eq!(
        socket_properties(&options(&[("Bogus", &["1"])]), &mut props).unwrap_err(),
        "`Bogus` is not supported by ides transient socket activation lowering yet"
    );
    assert_eq!(
        socket_properties(&options(&[("Backlog", &["lots"])]), &mut props).unwrap_err(),
        "invalid Backlog value: invalid digit found in string"
    );
    assert_eq!(
        socket_properties(&options(&[("Accept", &[])]), &mut props).unwrap_err(),
        "Accept requires one value"
    );
    assert_eq!(
        path_properties(&options(&[("Nope", &["x"])]), &mut props).unwrap_err(),
        "`Nope` is not supported by ides transient path activation lowering yet"
    );
    assert_eq!(
        timer_properties(&options(&[("OnBootSec", &["5 parsecs"])]), &mut props).unwrap_err(),
        "unsupported duration unit for OnBootSec: `parsecs`"
    );
}

#[test]
fn path_and_timer_options_collect_their_lists() {
    let mut props = Vec::new();
    path_properties(
        &options(&[("PathChanged", &["/etc/a"]), ("MakeDirectory", &["true"]), ("PathExists", &["/tmp/b"])]),
        &mut props,
    )
    .unwrap();
    assert_eq!(names(&props), ["MakeDirectory", "Paths"]);
    match &props[1].1 {
        PropertyValue::Paths(p) => assert_eq!(
            p,
            &vec![
                ("PathChanged".to_string(), "/etc/a".to_string()),
                ("PathExists".to_string(), "/tmp/b".to_string())
            ]
        ),
        _ => panic!("paths"),
    }
    let mut props = Vec::new();
    timer_properties(
        &options(&[("OnBootSec", &["1min"]), ("OnCalendar", &["daily"]), ("Persistent", &["yes"])]),
        &mut props,
    )
    .unwrap();
    assert_eq!(names(&props), ["Persistent", "TimersMonotonic", "TimersCalendar"]);
    match &props[1].1 {
        PropertyValue::Timers(t) => assert_eq!(t, &vec![("OnBootSec".to_string(), 60_000_000)]),
        _ => panic!("monotonic"),
    }
}

#[test]
fn a_service_uses_at_most_one_activation_kind() {
    let mut s = service("app");
    assert_eq!(activation_kind(&s).unwrap(), None);
    s.activation.timer.insert("OnCalendar".to_string(), vec!["daily".to_string()]);
    assert_eq!(activation_kind(&s).unwrap(), Some(ActivationKind::Timer));
    assert_eq!(service_start_unit_name(&s).unwrap(), "ides-test-app.timer");
    s.activation.socket.insert("ListenStream".to_string(), vec!["1".to_string()]);
    assert_eq!(
        activation_kind(&s).unwrap_err(),
        "a service can use only one activation unit type at a time"
    );
    let specs = activation_unit_specs(&s);
    assert_eq!(specs.len(), 2);
    assert_eq!(specs[0].1, "ides-test-app.socket");
    assert_eq!(stop_units(&s).unwrap(), vec!["ides-test-app.socket", "ides-test-app.timer", "ides-test-app.service"]);
}

#[test]
fn unit_stems_drop_the_service_suffix() {
    let mut s = service("app");
    assert_eq!(service_unit_stem(&s), "ides-test-app");
    s.unit_name = "web.service".to_string();
    assert_eq!(activation_unit_name(&s, ActivationKind::Socket), "web.socket");
    s.unit_name = "web.scope".to_string();
    assert_eq!(service_unit_stem(&s), "web.scope");
    assert_eq!(s.systemd_unit_name(), "web.scope");
}

#[test]
fn service_properties_fill_defaults() {
    let mut s = service("app");
    s.systemd.service_type = Some("notify-reload".to_string());
    s.systemd.timeout_sec = Some("10".to_string());
    s.systemd.timeout_stop_sec = Some("3s".to_string());
    s.systemd.exec_start_pre = vec![
        SystemdExecCommand::String("mkdir -p x".to_string()),
        SystemdExecCommand::Structured(SystemdExecCommandSpec {
            command: "check".to_string(),
            ignore_failure: true,
        }),
    ];
    s.systemd.remain_after_exit = Some(true);
    let manifest = manifest_with(s);
    let svc = manifest.services.get("app").unwrap();
    let runtime = prepare_runtime(&manifest, "app", svc, Some("/run/u")).ok().unwrap();
    let props = service_properties(&manifest, "app", svc, "ides service app".to_string(), &runtime, &StrMap::new()).unwrap();
    assert_eq!(
        names(&props),
        [
            "Description", "CollectMode", "ExecStart", "Environment", "WorkingDirectory", "ExecStartPre",
            "Type", "NotifyAccess", "TimeoutStartUSec", "TimeoutStopUSec", "RemainAfterExit"
        ]
    );
    match &props[2].1 {
        PropertyValue::Commands(c) => assert_eq!(
            c,
            &vec![("/bin/sh".to_string(), vec!["/bin/sh".to_string(), "-lc".to_string(), "exec server".to_string()], false)]
        ),
        _ => panic!("exec start"),
    }
    match &props[4].1 {
        PropertyValue::Str(w) => assert_eq!(w, "/run/u/ides/test/services/app/data"),
        _ => panic!("working directory"),
    }
    match &props[5].1 {
        PropertyValue::Commands(c) => {
            assert_eq!(c.len(), 2);
            assert_eq!(c[1].1[2], "check");
            assert!(c[1].2);
        }
        _ => panic!("pre"),
    }
    match &props[7].1 {
        PropertyValue::Str(n) => assert_eq!(n, "all"),
        _ => panic!("notify"),
    }
    assert!(matches!(props[8].1, PropertyValue::U64(10_000_000)));
    assert!(matches!(props[9].1, PropertyValue::U64(3_000_000)));
}

#[test]
fn service_argv_resolves_config_paths() {
    let mut s = service("app");
    s.execution.shell_command = None;
    s.execution.program = Some("/usr/bin/app".to_string());
    s.execution.argv = vec![
        ExecArg::String("--config".to_string()),
        ExecArg::Config {
            config: "main".to_string(),
        },
    ];
    let mut configs = StrMap::new();
    configs.insert("main".to_string(), "/etc/app.conf".to_string());
    let (program, argv) = s.execution.systemd_argv("/bin/sh", &configs).unwrap();
    assert_eq!(program, "/usr/bin/app");
    assert_eq!(argv, vec!["/usr/bin/app", "--config", "/etc/app.conf"]);
    assert_eq!(
        s.execution.systemd_argv("/bin/sh", &StrMap::new()).unwrap_err(),
        "service argv references missing config `main`"
    );
    s.execution.program = None;
    assert_eq!(
        s.execution.systemd_argv("/bin/sh", &configs).unwrap_err(),
        "service exec is missing `program`"
    );
}

#[test]
fn activation_units_start_with_the_service_alongside() {
    let mut s = service("app");
    s.activation.socket.insert("ListenStream".to_string(), vec!["9000".to_string()]);
    let manifest = manifest_with(s);
    let svc = manifest.services.get("app").unwrap();
    let runtime = prepare_runtime(&manifest, "app", svc, Some("/run/u")).ok().unwrap();
    let request = start_request(&manifest, "app", svc, &runtime, &StrMap::new()).ok().unwrap();
    assert_eq!(request.unit, "ides-test-app.socket");
    assert_eq!(request.aux.len(), 1);
    assert_eq!(request.aux[0].0, "ides-test-app.service");
    assert_eq!(request.started_message, "[ides]: started app socket");
    assert_eq!(request.failure_prefix, "failed to start app activation (ides-test-app.socket): ");
    match &request.properties[0].1 {
        PropertyValue::Str(d) => assert_eq!(d, "ides socket activation for app"),
        _ => panic!("description"),
    }
    let act = activation_properties(svc, ActivationKind::Socket, "d".to_string()).unwrap();
    assert_eq!(names(&act), ["Description", "CollectMode", "Listen"]);
}

fn unit(name: &str, load: &str, active: &str) -> UnitInfo {
    UnitInfo {
        name: name.to_string(),
        load: load.to_string(),
        active: active.to_string(),
        sub_state: "running".to_string(),
    }
}

#[test]
fn unit_reports_decide_start_and_stop() {
    let units = vec![unit("other", "loaded", "active"), unit("a.service", "not-found", "inactive"), unit("a.service", "loaded", "active")];
    assert_eq!(find_unit(&units, "a.service"), Some(2));
    assert_eq!(find_unit(&units, "b.service"), None);
    let running = &units[2];
    assert!(is_started(running));
    assert!(is_stoppable(running));
    assert_eq!(start_skip("a", Some(running)).unwrap(), "[ides]: a already active");
    assert_eq!(start_skip("a", None), None);
    let failed = unit("a.service", "loaded", "failed");
    assert!(!is_stoppable(&failed));
    assert!(!is_started(&failed));
    match stop_decision("a", "a.service", Some(running)) {
        StopDecision::Stop { message, failure_prefix } => {
            assert_eq!(message, "[ides]: stopped a");
            assert_eq!(failure_prefix, "failed to stop a (a.service): ");
        }
        _ => panic!("stop"),
    }
    assert!(matches!(stop_decision("a", "a.service", Some(&failed)), StopDecision::AlreadyStopped { .. }));
    match stop_decision("a", "a.service", None) {
        StopDecision::NotLoaded { message } => assert_eq!(message, "[ides]: a is not loaded"),
        _ => panic!("not loaded"),
    }
    assert!(matches!(wait_step("a", "a.service", Some(running), false), WaitStep::Wait));
    match wait_step("a", "a.service", Some(running), true) {
        WaitStep::TimedOut(m) => assert_eq!(m, "timed out waiting for a (a.service) to stop"),
        _ => panic!("timeout"),
    }
    assert!(matches!(wait_step("a", "a.service", None, true), WaitStep::Done));
    let missing = unit_status("x.service", None);
    assert_eq!((missing.load.as_str(), missing.active.as_str(), missing.sub_state.as_str()), ("not-found", "inactive", "dead"));
    assert_eq!(status_text("app", &missing), "app\tnot-found\tinactive\tdead\n  unit: x.service\n");
}

#[test]
fn shell_commands_run_through_the_set_shell() {
    let (p, argv, ignore) = shell_exec_command("/bin/bash", "echo hi", true);
    assert_eq!(p, "/bin/bash");
    assert_eq!(argv, vec!["/bin/bash", "-lc", "echo hi"]);
    assert!(ignore);
}
