use lucius::manifest::{
    Activation, ConfigFile, Dependencies, Exec, Manifest, ManifestRuntime, RuntimeConfig,
    RuntimeConfigPart, RuntimePaths, Service, ServiceRuntime,
};
use lucius::runtime::{
    cleanup_target, config_status, prepare_runtime, render_config, render_configs, rendered_paths,
    runtime_config_path, runtime_path, runtime_path_under_base, runtime_paths, runtime_root,
    RenderedConfig,
};
use lucius::strmap::StrMap;

const XDG: &str = "/tmp/ides-test-runtime";

fn service(name: &str) -> Service {
    Service {
        unit_name: format!("ides-test-{name}.service"),
        execution: Exec {
            program: None,
            argv: Vec::new(),
            shell_command: Some("/bin/true".to_string()),
            command: "/bin/true".to_string(),
        },
        configs: StrMap::new(),
        activation: Activation::default(),
        runtime: ServiceRuntime {
            ephemeral: true,
            env: StrMap::new(),
            paths: RuntimePaths {
                base: format!("services/{name}"),
                run: format!("services/{name}/run"),
                tmp: format!("services/{name}/tmp"),
                cache: format!("services/{name}/cache"),
                config: format!("services/{name}/config"),
                data: format!("services/{name}/data"),
                home: format!("services/{name}/home"),
            },
        },
        systemd: Default::default(),
        systemd_args: String::new(),
        dependencies: Dependencies::default(),
    }
}

fn manifest_with(base: &str, services: Vec<(&str, Service)>) -> Manifest {
    let mut map = StrMap::new();
    for (name, s) in services {
        map.insert(name.to_string(), s);
    }
    Manifest {
        schema_version: 1,
        set_id: "test".to_string(),
        name: "test".to_string(),
        auto_start: false,
        runtime_shell: "/bin/sh".to_string(),
        runtime: ManifestRuntime {
            base: base.to_string(),
        },
        services: map,
    }
}

#[test]
fn runtime_paths_cannot_escape_the_service_base() {
    let mut app = service("app");
    app.runtime.paths.data = "services/other/data".to_string();
    let manifest = manifest_with("ides/test", vec![("app", app)]);
    let service = manifest.services.get("app").unwrap();
    let err = runtime_paths(&manifest, "app", service, Some(XDG)).err().unwrap();
    assert!(err.contains("must stay under its base"));

    let mut app = service_with_data("../escape");
    app.unit_name = "ides-test-app.service".to_string();
    let manifest = manifest_with("ides/test", vec![("app", app)]);
    let service = manifest.services.get("app").unwrap();
    let err = runtime_paths(&manifest, "app", service, Some(XDG)).err().unwrap();
    assert!(err.contains("only normal path components"));
}

fn service_with_data(data: &str) -> Service {
    let mut s = service("app");
    s.runtime.paths.data = data.to_string();
    s
}

#[test]
fn manifest_runtime_base_cannot_escape_xdg_runtime_dir() {
    let manifest = manifest_with("../escape", vec![("app", service("app"))]);
    let service = manifest.services.get("app").unwrap();
    let err = runtime_paths(&manifest, "app", service, Some(XDG)).err().unwrap();
    assert!(err.contains("manifest runtime base"));
}

#[test]
fn runtime_paths_lie_under_the_set_root() {
    let manifest = manifest_with("ides/test", vec![("app", service("app"))]);
    let service = manifest.services.get("app").unwrap();
    let paths = runtime_paths(&manifest, "app", service, Some(XDG)).ok().unwrap();
    assert_eq!(paths.base, "/tmp/ides-test-runtime/ides/test/services/app");
    assert_eq!(paths.run, "/tmp/ides-test-runtime/ides/test/services/app/run");
    assert_eq!(paths.home, "/tmp/ides-test-runtime/ides/test/services/app/home");
    assert_eq!(paths.all().len(), 7);
    assert_eq!(paths.by_name("app", "data").unwrap(), paths.data);
    assert_eq!(
        paths.by_name("app", "logs").unwrap_err(),
        "service `app` references unknown runtime path `logs`"
    );
}

#[test]
fn runtime_root_needs_xdg_and_a_safe_base() {
    let ok = manifest_with("ides/test", vec![]);
    assert_eq!(runtime_root(&ok, Some("/run/user/5")).unwrap(), "/run/user/5/ides/test");
    assert_eq!(
        runtime_root(&ok, None).unwrap_err(),
        "XDG_RUNTIME_DIR must be set to use ides runtime paths"
    );
    let bad = manifest_with("/abs", vec![]);
    assert_eq!(
        runtime_root(&bad, Some("/run")).unwrap_err(),
        "manifest runtime base must be relative and contain only normal path components"
    );
    let dotted = manifest_with("./ides", vec![]);
    assert!(runtime_root(&dotted, Some("/run")).is_err());
}

#[test]
fn each_runtime_path_error_names_the_path() {
    assert_eq!(
        runtime_path("/r", "app", "tmp", "").unwrap_err(),
        "service `app` has no runtime path configured for `tmp`"
    );
    assert_eq!(
        runtime_path("/r", "app", "tmp", "a/../b").unwrap_err(),
        "service `app` runtime path `tmp` must be relative and contain only normal path components"
    );
    assert_eq!(runtime_path("/r", "app", "tmp", "a//b/").unwrap(), "/r/a//b/");
    assert_eq!(
        runtime_path_under_base("/r", "/r/a", "app", "tmp", "b/tmp").unwrap_err(),
        "service `app` runtime path `tmp` must stay under its base runtime path"
    );
    assert_eq!(runtime_path_under_base("/r", "/r/a", "app", "tmp", "a/tmp").unwrap(), "/r/a/tmp");
}

#[test]
fn service_environment_overrides_runtime_variables() {
    let mut app = service("app");
    app.runtime.env.insert("HOME".to_string(), "/custom".to_string());
    app.runtime.env.insert("EXTRA".to_string(), "1".to_string());
    let manifest = manifest_with("ides/test", vec![("app", app)]);
    let service = manifest.services.get("app").unwrap();
    let runtime = prepare_runtime(&manifest, "app", service, Some(XDG)).ok().unwrap();
    assert_eq!(runtime.environment_values.get("HOME").unwrap(), "/custom");
    assert_eq!(runtime.environment_values.get("EXTRA").unwrap(), "1");
    assert_eq!(
        runtime.environment_values.get("TMPDIR").unwrap(),
        "/tmp/ides-test-runtime/ides/test/services/app/tmp"
    );
    assert_eq!(
        runtime.environment_values.get("IDES_RUNTIME_DIR").unwrap(),
        "/tmp/ides-test-runtime/ides/test/services/app"
    );
    assert_eq!(runtime.environment.len(), 8);
    assert_eq!(runtime.environment[0], "EXTRA=1");
    assert_eq!(runtime.environment[1], "HOME=/custom");
}

#[test]
fn configs_render_from_templates() {
    let mut app = service("app");
    app.configs.insert(
        "main".to_string(),
        ConfigFile {
            path: None,
            runtime: Some(RuntimeConfig {
                file_name: "app.conf".to_string(),
                parts: vec![
                    RuntimeConfigPart::Text("data=".to_string()),
                    RuntimeConfigPart::RuntimePath {
                        runtime_path: "data".to_string(),
                    },
                    RuntimeConfigPart::Text("\nhome=".to_string()),
                    RuntimeConfigPart::Env {
                        env: "HOME".to_string(),
                    },
                ],
            }),
        },
    );
    app.configs.insert(
        "static".to_string(),
        ConfigFile {
            path: Some("/etc/app.conf".to_string()),
            runtime: None,
        },
    );
    let manifest = manifest_with("ides/test", vec![("app", app)]);
    let service = manifest.services.get("app").unwrap();
    let runtime = prepare_runtime(&manifest, "app", service, Some(XDG)).ok().unwrap();
    let plan = render_configs("app", service, &runtime);
    assert_eq!(plan.len(), 2);
    match &plan[0].1 {
        Ok(RenderedConfig::Runtime { path, contents }) => {
            assert_eq!(path, "/tmp/ides-test-runtime/ides/test/services/app/config/app.conf");
            assert_eq!(
                contents.as_ref().unwrap(),
                "data=/tmp/ides-test-runtime/ides/test/services/app/data\nhome=/tmp/ides-test-runtime/ides/test/services/app/home"
            );
        }
        _ => panic!("expected a runtime config"),
    }
    let paths = rendered_paths(&plan).ok().unwrap();
    assert_eq!(paths.get("static").unwrap(), "/etc/app.conf");
    assert_eq!(
        paths.get("main").unwrap(),
        "/tmp/ides-test-runtime/ides/test/services/app/config/app.conf"
    );
    let status = config_status("app", "main", service.configs.get("main").unwrap(), &runtime.paths)
        .ok()
        .unwrap();
    assert_eq!(status.kind, "runtime");
    assert_eq!(status.file_name, Some("app.conf".to_string()));
}

#[test]
fn config_errors_name_the_config() {
    let runtime_template = |file_name: &str, parts: Vec<RuntimeConfigPart>| ConfigFile {
        path: None,
        runtime: Some(RuntimeConfig {
            file_name: file_name.to_string(),
            parts,
        }),
    };
    let manifest = manifest_with("ides/test", vec![("app", service("app"))]);
    let service = manifest.services.get("app").unwrap();
    let runtime = prepare_runtime(&manifest, "app", service, Some(XDG)).ok().unwrap();
    let neither = ConfigFile { path: None, runtime: None };
    assert_eq!(
        render_config("app", "c", &neither, &runtime).err().unwrap(),
        "service `app` config `c` has neither a static path nor a runtime template"
    );
    assert_eq!(
        render_config("app", "c", &runtime_template("", vec![]), &runtime).err().unwrap(),
        "service `app` config `c` runtime fileName must not be empty"
    );
    assert_eq!(
        render_config("app", "c", &runtime_template("../x", vec![]), &runtime).err().unwrap(),
        "service `app` config `c` runtime fileName must be relative and stay inside the runtime config directory"
    );
    let missing_env = runtime_template(
        "x.conf",
        vec![RuntimeConfigPart::Env {
            env: "NOPE".to_string(),
        }],
    );
    match render_config("app", "c", &missing_env, &runtime).ok().unwrap() {
        RenderedConfig::Runtime { contents, .. } => assert_eq!(
            contents.unwrap_err(),
            "service `app` config `c` references missing env `NOPE`"
        ),
        _ => panic!("expected a runtime config"),
    }
    assert_eq!(
        runtime_config_path("/c", "app", "c", "sub/x.conf").unwrap(),
        "/c/sub/x.conf"
    );
}

#[test]
fn only_ephemeral_services_are_cleaned_up() {
    let mut kept = service("app");
    kept.runtime.ephemeral = false;
    let manifest = manifest_with("ides/test", vec![("app", kept), ("tmp", service("tmp"))]);
    let app = manifest.services.get("app").unwrap();
    let tmp = manifest.services.get("tmp").unwrap();
    assert_eq!(cleanup_target(&manifest, "app", app, None).unwrap(), None);
    assert_eq!(
        cleanup_target(&manifest, "tmp", tmp, Some(XDG)).unwrap(),
        Some("/tmp/ides-test-runtime/ides/test/services/tmp".to_string())
    );
}
