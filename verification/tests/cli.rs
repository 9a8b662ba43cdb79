use lucius::cli::{
    inspect, inspect_text, lease_kind, manifest_location, parse_args, required_token, Command,
    CommandArgs, Inspection,
};
use lucius::manifest::{
    Activation, ConfigFile, Dependencies, Exec, Manifest, ManifestRuntime, RuntimePaths, Service,
    ServiceRuntime,
};
use lucius::strmap::StrMap;

fn args(v: &[&str]) -> Vec<String> {
    v.iter().map(|s| s.to_string()).collect()
}

#[test]
fn commands_have_aliases() {
    assert_eq!(Command::parse("run"), Ok(Command::Up));
    assert_eq!(Command::parse("et-tu"), Ok(Command::Down));
    assert_eq!(Command::parse("qq"), Ok(Command::Restart));
    assert_eq!(Command::parse("ch"), Ok(Command::Status));
    assert_eq!(Command::parse("top"), Ok(Command::Tui));
    assert_eq!(Command::parse("expose"), Ok(Command::Inspect));
    assert_eq!(Command::parse("h"), Ok(Command::Help));
    assert_eq!(Command::parse("fly").unwrap_err(), "unknown command `fly`");
}

#[test]
fn command_line_reads_options_and_services() {
    let (c, a) = parse_args(&args(&["up", "-m", "/m.json", "--json", "db", "app"]), None).ok().unwrap();
    assert_eq!(c, Command::Up);
    assert_eq!(a.manifest, Some("/m.json".to_string()));
    assert!(a.json);
    assert_eq!(a.services, vec!["db", "app"]);
}

#[test]
fn command_line_errors_are_reported() {
    assert_eq!(
        parse_args(&args(&["up", "--kind=x"]), None).err().unwrap(),
        "unknown option `--kind=x`"
    );
    assert_eq!(
        parse_args(&args(&["enter", "--pid"]), None).err().unwrap(),
        "missing value for --pid"
    );
    assert_eq!(
        parse_args(&args(&["enter", "--pid", "abc"]), None).err().unwrap(),
        "invalid --pid value `abc`: invalid digit found in string"
    );
    assert_eq!(
        parse_args(&args(&["launch"]), None).err().unwrap(),
        "unknown command `launch`"
    );
}

#[test]
fn token_comes_from_the_option_or_the_environment() {
    let (c, a) = parse_args(&args(&["leave"]), Some("env:1".to_string())).ok().unwrap();
    assert_eq!(c, Command::Leave);
    assert_eq!(a.token, Some("env:1".to_string()));
    let (_, a) = parse_args(&args(&["leave", "--token=opt:2"]), Some("env:1".to_string())).ok().unwrap();
    assert_eq!(a.token, Some("opt:2".to_string()));
    let (_, a) = parse_args(&args(&["enter", "--kind", "ide", "--root", "/src", "--pid", "+12", "--manifest=/a=b"]), None)
        .ok()
        .unwrap();
    assert_eq!(a.kind, Some("ide".to_string()));
    assert_eq!(a.root, Some("/src".to_string()));
    assert_eq!(a.pid, Some(12));
    assert_eq!(a.manifest, Some("/a=b".to_string()));
}

#[test]
fn no_command_means_help() {
    let (c, a) = parse_args(&Vec::new(), None).ok().unwrap();
    assert_eq!(c, Command::Help);
    assert!(a.services.is_empty());
    let (c, _) = parse_args(&args(&["status", "--help"]), None).ok().unwrap();
    assert_eq!(c, Command::Help);
}

fn service(unit: &str, configs: StrMap<ConfigFile>, systemd_args: &str) -> Service {
    Service {
        unit_name: unit.to_string(),
        execution: Exec {
            program: None,
            argv: Vec::new(),
            shell_command: None,
            command: "run-it".to_string(),
        },
        configs,
        activation: Activation::default(),
        runtime: ServiceRuntime {
            ephemeral: true,
            env: StrMap::new(),
            paths: RuntimePaths {
                base: "services/x".to_string(),
                ..RuntimePaths::default()
            },
        },
        systemd: Default::default(),
        systemd_args: systemd_args.to_string(),
        dependencies: Dependencies::default(),
    }
}

fn manifest() -> Manifest {
    let mut configs = StrMap::new();
    configs.insert(
        "main".to_string(),
        ConfigFile {
            path: Some("/etc/x.conf".to_string()),
            runtime: None,
        },
    );
    let mut services = StrMap::new();
    services.insert("b".to_string(), service("b-unit", StrMap::new(), "--user"));
    services.insert("a".to_string(), service("a-unit", configs, ""));
    Manifest {
        schema_version: 1,
        set_id: "set".to_string(),
        name: "Demo".to_string(),
        auto_start: true,
        runtime_shell: "/bin/sh".to_string(),
        runtime: ManifestRuntime {
            base: "ides/demo".to_string(),
        },
        services,
    }
}

#[test]
fn inspect_text_lists_services() {
    let (text, result) = inspect_text(&manifest(), "/m.json", &Vec::new());
    assert!(result.is_ok());
    assert_eq!(
        text,
        "manifest: /m.json\nset: Demo (set)\nauto start: true\nservices:\n\
- a\n  unit: a-unit\n  command: run-it\n  config main: /etc/x.conf\n  runtime: services/x\n\
- b\n  unit: b-unit\n  command: run-it\n  runtime: services/x\n  systemd args: --user\n"
    );
    let (text, result) = inspect_text(&manifest(), "/m.json", &args(&["b", "zz", "a"]));
    assert_eq!(result.unwrap_err(), "manifest has no service `zz`");
    assert!(text.ends_with("  systemd args: --user\n"));
}

#[test]
fn inspect_json_selects_services() {
    let m = manifest();
    let a = CommandArgs {
        manifest: None,
        json: true,
        services: args(&["b"]),
        kind: None,
        root: None,
        pid: None,
        token: None,
    };
    match inspect(&m, "/m", &a) {
        Ok(Inspection::Services(v)) => assert_eq!(v[0].0, "b"),
        _ => panic!("services"),
    }
    let all = CommandArgs { services: Vec::new(), ..a };
    assert!(matches!(inspect(&m, "/m", &all), Ok(Inspection::Manifest)));
}

#[test]
fn token_kind_and_manifest_defaults() {
    assert_eq!(required_token(Some("a:b".to_string())).unwrap(), "a:b");
    assert_eq!(
        required_token(None).unwrap_err(),
        "pass --token <token> or set IDES_LEASE_TOKEN"
    );
    assert_eq!(lease_kind(&None), "shell");
    assert_eq!(lease_kind(&Some("ide".to_string())), "ide");
    assert_eq!(
        manifest_location(Some("/a".to_string()), Some("/b".to_string())).unwrap(),
        "/a"
    );
    assert_eq!(manifest_location(None, Some("/b".to_string())).unwrap(), "/b");
    assert_eq!(
        manifest_location(None, None).unwrap_err(),
        "set IDES_MANIFEST or pass --manifest <path>"
    );
}
