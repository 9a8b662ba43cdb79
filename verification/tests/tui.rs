use lucius::control::UnitStatus;
use lucius::leases::Lease;
use lucius::manifest::{Dependencies, Manifest, ManifestRuntime};
use lucius::runtime::{ConfigStatus, RuntimePathSet};
use lucius::status::{ActivationStatus, ConfigState, ServiceStatus, SetStatus};
use lucius::strmap::StrMap;
use lucius::tui::{
    activation_state, dependency_summary, pad, render, render_error, render_leases, short,
    unit_state,
};
use lucius::units::ActivationKind;

fn unit(active: &str, sub: &str) -> UnitStatus {
    UnitStatus {
        name: "u".to_string(),
        load: "loaded".to_string(),
        active: active.to_string(),
        sub_state: sub.to_string(),
    }
}

fn manifest() -> Manifest {
    Manifest {
        schema_version: 1,
        set_id: "0123456789abcdef".to_string(),
        name: "Demo".to_string(),
        auto_start: false,
        runtime_shell: "/bin/sh".to_string(),
        runtime: ManifestRuntime {
            base: "ides/demo".to_string(),
        },
        services: StrMap::new(),
    }
}

fn paths() -> RuntimePathSet {
    RuntimePathSet {
        base: "/r/b".to_string(),
        run: "/r/b/run".to_string(),
        tmp: "/r/b/tmp".to_string(),
        cache: "/r/b/cache".to_string(),
        config: "/r/b/config".to_string(),
        data: "/r/b/data".to_string(),
        home: "/r/b/home".to_string(),
    }
}

#[test]
fn long_values_are_cut_with_a_tilde() {
    assert_eq!(short("abcdef", 6), "abcdef");
    assert_eq!(short("abcdefg", 6), "abcde~");
    assert_eq!(short("abc", 0), "~");
    assert_eq!(short("", 0), "");
    assert_eq!(pad("ab", 4), "ab  ");
    assert_eq!(pad("abcdef", 4), "abcdef");
}

#[test]
fn dependencies_are_summarised() {
    assert_eq!(dependency_summary(&Dependencies::default()), "-");
    let d = Dependencies {
        requires: vec!["db".to_string(), "cache".to_string()],
        part_of: vec!["app".to_string()],
        ..Dependencies::default()
    };
    assert_eq!(dependency_summary(&d), "requires=db,cache partOf=app");
}

#[test]
fn unit_and_activation_states() {
    assert_eq!(unit_state(&unit("active", "running")), "active/running");
    let mut s = ServiceStatus {
        service_unit: unit("active", "running"),
        start_unit: unit("active", "listening"),
        activation_units: Vec::new(),
        ephemeral: true,
        paths: paths(),
        environment: StrMap::new(),
        configs: StrMap::new(),
    };
    assert_eq!(activation_state(&s), "-");
    s.activation_units.push(ActivationStatus {
        kind: ActivationKind::Socket,
        unit: unit("active", "listening"),
    });
    s.activation_units.push(ActivationStatus {
        kind: ActivationKind::Timer,
        unit: unit("inactive", "dead"),
    });
    assert_eq!(activation_state(&s), "socket:active/listening,timer:inactive/dead");
}

#[test]
fn error_screen_names_the_set() {
    assert_eq!(
        render_error(&manifest(), "no bus"),
        "ides tui\nset: Demo  id: 0123456789a~\nerror: no bus\n"
    );
}

fn lease(token: &str, pid: Option<u32>) -> Lease {
    Lease {
        schema_version: 1,
        set_id: "s".to_string(),
        token: token.to_string(),
        manifest_path: "/m".to_string(),
        kind: "shell".to_string(),
        root: "/src".to_string(),
        pid,
        created_at: 1,
        updated_at: 1700000000,
    }
}

fn status(leases: Vec<Lease>) -> SetStatus {
    let mut configs = StrMap::new();
    configs.insert(
        "main".to_string(),
        ConfigState {
            status: ConfigStatus {
                kind: "static".to_string(),
                path: "/etc/x".to_string(),
                file_name: None,
            },
            exists: false,
        },
    );
    let mut services = StrMap::new();
    services.insert(
        "web".to_string(),
        ServiceStatus {
            service_unit: unit("active", "running"),
            start_unit: unit("active", "running"),
            activation_units: Vec::new(),
            ephemeral: true,
            paths: paths(),
            environment: StrMap::new(),
            configs,
        },
    );
    SetStatus {
        name: "Demo".to_string(),
        set_id: "set".to_string(),
        base: "ides/demo".to_string(),
        root: "/run/ides/demo".to_string(),
        leases,
        services,
    }
}

#[test]
fn leases_table_lists_each_lease() {
    let rule = "-".repeat(96);
    let empty = render_leases(&status(Vec::new()));
    assert_eq!(
        empty,
        format!("\nleases\n{:<18} {:<10} {:<8} {:<12} root\n{rule}\nno leases\n", "token", "kind", "pid", "updated")
    );
    let one = render_leases(&status(vec![lease("set:0123456789abcdefghij", Some(42)), lease("set:b", None)]));
    assert!(one.contains(&format!(
        "{:<18} {:<10} {:<8} {:<12} /src\n",
        "set:0123456789abc~", "shell", "42", "1700000000"
    )));
    assert!(one.ends_with(&format!("{:<18} {:<10} {:<8} {:<12} /src\n", "set:b", "shell", "-", "1700000000")));
}

#[test]
fn screen_shows_set_services_and_leases() {
    let screen = render(&manifest(), &status(Vec::new()), 99);
    let rule = "-".repeat(96);
    let expected = format!(
        "ides tui\nset: Demo  id: set  refreshed: 99\nruntime: /run/ides/demo\nleases: 0\n\nservices\n\
{:<24} {:<18} {:<18} {:<18} kept by\n{rule}\n\
{:<24} {:<18} {:<18} {:<18} -\n  web.runtime base=/r/b\n  web.runtime run=/r/b/run\n  web.runtime data=/r/b/data\n  web.config.main static missing /etc/x\n\
\nleases\n{:<18} {:<10} {:<8} {:<12} root\n{rule}\nno leases\n",
        "name", "start", "service", "activation", "web", "active/running", "active/running", "-", "token", "kind", "pid", "updated"
    );
    assert_eq!(screen, expected);
}
