use lucius::manifest::{
    Activation, Dependencies, Exec, Manifest, ManifestRuntime, RuntimePaths, Service, ServiceRuntime,
};
use lucius::ordering::{activation_order, deactivation_order};
use lucius::strmap::StrMap;
use lucius::systemd::{down, restart, restart_start_order, up};

fn service(name: &str, dependencies: Dependencies) -> Service {
    Service {
        unit_name: format!("ides-test-{name}.service"),
        execution: Exec {
            program: None,
            argv: Vec::new(),
            shell_command: Some("/bin/true".to_string()),
            command: "/bin/true".to_string(),
        },
        configs: StrMap::new(),
        activation: Activation::default(),
        runtime: ServiceRuntime {
            ephemeral: true,
            env: StrMap::new(),
            paths: RuntimePaths {
                base: format!("services/{name}"),
                run: format!("services/{name}/run"),
                tmp: format!("services/{name}/tmp"),
                cache: format!("services/{name}/cache"),
                config: format!("services/{name}/config"),
                data: format!("services/{name}/data"),
                home: format!("services/{name}/home"),
            },
        },
        systemd: Default::default(),
        systemd_args: String::new(),
        dependencies,
    }
}

fn test_manifest(services: Vec<(&str, Dependencies)>) -> Manifest {
    let mut map = StrMap::new();
    for (name, dependencies) in services {
        map.insert(name.to_string(), service(name, dependencies));
    }
    Manifest {
        schema_version: 1,
        set_id: "test".to_string(),
        name: "test".to_string(),
        auto_start: false,
        runtime_shell: "/bin/sh".to_string(),
        runtime: ManifestRuntime {
            base: "ides/test".to_string(),
        },
        services: map,
    }
}

fn names(v: &[String]) -> Vec<String> {
    v.to_vec()
}

fn ordered_names(ordered: Vec<(&str, &Service)>) -> Vec<String> {
    ordered
        .into_iter()
        .map(|(name, _)| name.to_string())
        .collect()
}

#[test]
fn activation_pulls_required_services_first() {
    let manifest = test_manifest(vec![
        ("db", Dependencies::default()),
        (
            "app",
            Dependencies {
                requires: vec!["db".to_string()],
                after: vec!["db".to_string()],
                ..Dependencies::default()
            },
        ),
    ]);

    let targets = vec!["app".to_string()];
    assert_eq!(
        ordered_names(activation_order(&manifest, &targets).unwrap()),
        ["db", "app"]
    );
}

#[test]
fn deactivation_stops_part_of_dependents_first() {
    let manifest = test_manifest(vec![
        ("app", Dependencies::default()),
        (
            "worker",
            Dependencies {
                part_of: vec!["app".to_string()],
                after: vec!["app".to_string()],
                ..Dependencies::default()
            },
        ),
    ]);

    let targets = vec!["app".to_string()];
    assert_eq!(
        ordered_names(deactivation_order(&manifest, &targets).unwrap()),
        ["worker", "app"]
    );
}

#[test]
fn cycles_are_rejected() {
    let manifest = test_manifest(vec![
        (
            "a",
            Dependencies {
                after: vec!["b".to_string()],
                ..Dependencies::default()
            },
        ),
        (
            "b",
            Dependencies {
                after: vec!["a".to_string()],
                ..Dependencies::default()
            },
        ),
    ]);

    let err = activation_order(&manifest, &[]).unwrap_err();
    assert!(err.contains("cycle"));
}

#[test]
fn up_and_down_order_every_service_when_none_is_named() {
    let manifest = test_manifest(vec![
        ("web", Dependencies {
            after: vec!["api".to_string()],
            wants: vec!["api".to_string()],
            ..Dependencies::default()
        }),
        ("api", Dependencies {
            after: vec!["db".to_string()],
            requires: vec!["db".to_string()],
            ..Dependencies::default()
        }),
        ("db", Dependencies::default()),
        ("cache", Dependencies::default()),
    ]);
    assert_eq!(
        ordered_names(up(&manifest, &[]).unwrap()),
        ["cache", "db", "api", "web"]
    );
    assert_eq!(
        ordered_names(down(&manifest, &[]).unwrap()),
        ["web", "api", "db", "cache"]
    );
}

#[test]
fn before_orders_like_after_on_the_other_side() {
    let manifest = test_manifest(vec![
        ("a", Dependencies::default()),
        ("b", Dependencies {
            before: vec!["a".to_string()],
            ..Dependencies::default()
        }),
    ]);
    assert_eq!(ordered_names(up(&manifest, &[]).unwrap()), ["b", "a"]);
}

#[test]
fn unknown_targets_and_dependencies_are_reported() {
    let manifest = test_manifest(vec![(
        "app",
        Dependencies {
            requires: vec!["ghost".to_string()],
            ..Dependencies::default()
        },
    )]);
    assert_eq!(
        up(&manifest, &["nope".to_string()]).unwrap_err(),
        "manifest has no service `nope`"
    );
    assert!(up(&manifest, &["app".to_string()]).unwrap_err().contains("ghost"));
}

#[test]
fn restart_stops_dependents_then_starts_what_they_need() {
    let manifest = test_manifest(vec![
        ("db", Dependencies::default()),
        ("app", Dependencies {
            requires: vec!["db".to_string()],
            after: vec!["db".to_string()],
            ..Dependencies::default()
        }),
        ("worker", Dependencies {
            part_of: vec!["app".to_string()],
            after: vec!["app".to_string()],
            ..Dependencies::default()
        }),
    ]);
    let plan = restart(&manifest, &["app".to_string()]).unwrap();
    assert_eq!(names(plan.services.items()), ["app", "worker"]);
    assert_eq!(ordered_names(plan.stop), ["worker", "app"]);
    let start = restart_start_order(&manifest, plan.services).unwrap();
    assert_eq!(ordered_names(start), ["db", "app", "worker"]);
}
