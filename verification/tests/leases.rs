use lucius::daemon::token_set_id;
use lucius::leases::{
    active_count, heartbeat, is_stale, lease_dir, lease_path, lease_token, leave_outcome, list,
    runtime_home, validate_token_component, Lease,
};

fn lease(token: &str, pid: Option<u32>) -> Lease {
    Lease {
        schema_version: 1,
        set_id: "set".to_string(),
        token: token.to_string(),
        manifest_path: "/etc/ides/set.json".to_string(),
        kind: "shell".to_string(),
        root: "/home/user/project".to_string(),
        pid,
        created_at: 10,
        updated_at: 20,
    }
}

#[test]
fn lease_tokens_cannot_escape_runtime_home() {
    assert!(lease_path("../set:id", None).unwrap_err().contains("safe path"));
    assert!(lease_path("set:../id", None).unwrap_err().contains("safe path"));
    assert!(lease_path("set:id:extra", None).unwrap_err().contains("safe path"));
}

#[test]
fn lease_file_lies_in_the_set_lease_directory() {
    assert_eq!(
        lease_path("set:abc", Some("/run/user/1000")).unwrap(),
        "/run/user/1000/ides/set/leases/abc.json"
    );
    assert_eq!(
        lease_dir("set", Some("/run/user/1000/")).unwrap(),
        "/run/user/1000/ides/set/leases"
    );
}

#[test]
fn lease_paths_need_a_runtime_dir_and_a_colon() {
    assert_eq!(
        lease_path("set:abc", None).unwrap_err(),
        "XDG_RUNTIME_DIR must be set to use ides leases"
    );
    assert_eq!(
        lease_path("no-colon", Some("/run")).unwrap_err(),
        "lease token must have the form <set-id>:<id>"
    );
    assert_eq!(
        runtime_home(None).unwrap_err(),
        "XDG_RUNTIME_DIR must be set to use ides leases"
    );
    assert_eq!(runtime_home(Some("/run/user/1")).unwrap(), "/run/user/1/ides");
}

#[test]
fn token_components_must_be_single_names() {
    assert!(validate_token_component("lease id", "abc").is_ok());
    assert_eq!(
        validate_token_component("lease id", "a/b").unwrap_err(),
        "lease id must be a single safe path component"
    );
    assert!(validate_token_component("lease id", "..").is_err());
    assert!(validate_token_component("lease id", ".").is_err());
    assert!(validate_token_component("lease id", "").is_err());
    assert!(validate_token_component("lease id", "a:b").is_err());
}

#[test]
fn token_names_its_set() {
    let token = lease_token("set-1", "42-7");
    assert_eq!(token, "set-1:42-7");
    assert_eq!(token_set_id(&token), Some("set-1".to_string()));
    assert_eq!(token_set_id("no-colon"), None);
    assert_eq!(token_set_id("a:b:c"), Some("a".to_string()));
}

#[test]
fn only_json_files_count_as_leases() {
    let names = vec![
        "a.json".to_string(),
        "b.json.tmp".to_string(),
        ".json".to_string(),
        "c.json".to_string(),
        "notes.txt".to_string(),
    ];
    assert_eq!(active_count(&names), 2);
    assert_eq!(active_count(&Vec::new()), 0);
}

#[test]
fn leases_are_listed_by_token() {
    let sorted = list(vec![lease("set:c", None), lease("set:a", Some(3)), lease("set:b", None)]);
    let tokens: Vec<&str> = sorted.iter().map(|l| l.token.as_str()).collect();
    assert_eq!(tokens, vec!["set:a", "set:b", "set:c"]);
    assert_eq!(sorted[0].pid, Some(3));
}

#[test]
fn heartbeat_only_moves_the_update_time() {
    let mut l = lease("set:a", Some(9));
    heartbeat(&mut l, 99);
    assert_eq!(l.updated_at, 99);
    assert_eq!(l.created_at, 10);
    assert_eq!(l.token, "set:a");
    assert_eq!(l.pid, Some(9));
}

#[test]
fn stale_leases_are_unreadable_or_dead() {
    let alive = lease("set:a", Some(1));
    let no_pid = lease("set:b", None);
    assert!(is_stale(None, false));
    assert!(is_stale(Some(&alive), true));
    assert!(!is_stale(Some(&alive), false));
    assert!(!is_stale(Some(&no_pid), true));
}

#[test]
fn leaving_the_last_lease_is_reported() {
    let l = lease("set:a", None);
    let outcome = leave_outcome(&l, 0);
    assert!(outcome.last);
    assert_eq!(outcome.manifest_path, "/etc/ides/set.json");
    assert!(!leave_outcome(&l, 2).last);
}
