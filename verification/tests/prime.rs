use ccusage::prime::{has_data, paths, PRIME_AGENT_DIR_ENV, PRIME_DIRECTORY};

fn names(list: &[&str]) -> Vec<String> {
    list.iter().map(|name| name.to_string()).collect()
}

#[test]
fn defaults_to_prime_agent_sessions_under_home() {
    let sessions = "/home/me/.prime/agent/sessions".to_string();

    let paths = paths(None, None, Some("/home/me"), &vec![sessions.clone()]).unwrap();

    assert_eq!(paths, vec![sessions]);
    assert_eq!(PRIME_DIRECTORY, ".prime/agent/sessions");
}

#[test]
fn prime_agent_dir_env_overrides_default() {
    let custom = "/home/me/custom-prime".to_string();

    let paths = paths(None, Some(&custom), Some("/home/me"), &vec![custom.clone()]).unwrap();

    assert_eq!(paths, vec![custom]);
    assert_eq!(PRIME_AGENT_DIR_ENV, "PRIME_AGENT_DIR");
}

#[test]
fn paths_custom_path_arg_overrides_env() {
    let arg_dir = "/home/me/arg-prime".to_string();
    let directories = vec![arg_dir.clone(), "/home/me/env-prime".to_string()];

    let paths = paths(Some(&arg_dir), Some("/home/me/env-prime"), None, &directories).unwrap();

    assert_eq!(paths, vec![arg_dir]);
}

#[test]
fn paths_missing_dir_yields_empty() {
    let paths = paths(None, None, Some("/home/me"), &vec![]).unwrap();

    assert!(paths.is_empty());
}

#[test]
fn prime_has_data_where_a_store_is() {
    let store = names(&["/home/me/.prime/agent/sessions"]);
    assert!(has_data(None, Some("/home/me"), &store));
    assert!(!has_data(None, Some("/home/you"), &store));
    assert!(!has_data(None, None, &store));
    assert!(has_data(Some("/a,/b"), None, &names(&["/b"])));
    assert!(!has_data(Some("/a"), Some("/home/me"), &store));
}

#[test]
fn prime_needs_a_home_or_a_setting() {
    assert!(paths(None, None, None, &vec![]).is_err());
    assert!(paths(None, Some("/a"), None, &vec![]).unwrap().is_empty());
}
