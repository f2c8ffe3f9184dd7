use prog::assistant::{build_repo_list, get_env_or_config, DEFAULT_BASE_URL, DEFAULT_MODEL};
use prog::models::{Repo, Timestamp};

#[test]
fn test_get_env_or_config_falls_back_to_config() {
    let result = get_env_or_config(None, "config_value");
    assert_eq!(result, Some("config_value".to_string()));
}

#[test]
fn test_get_env_or_config_both_empty_returns_none() {
    let result = get_env_or_config(None, "");
    assert_eq!(result, None);
}

#[test]
fn test_default_constants() {
    assert_eq!(DEFAULT_BASE_URL, "https://api.openai.com");
    assert_eq!(DEFAULT_MODEL, "gpt-4o-mini");
}

#[test]
fn the_environment_comes_before_the_configuration_unless_empty() {
    assert_eq!(get_env_or_config(Some("e"), "c"), Some("e".to_string()));
    assert_eq!(get_env_or_config(Some(""), "c"), Some("c".to_string()));
    assert_eq!(get_env_or_config(Some(""), ""), None);
    assert_eq!(get_env_or_config(Some("e"), ""), Some("e".to_string()));
}

fn repo(host: &str, owner: &str, name: &str) -> Repo {
    Repo {
        created_at: Timestamp::new(0, 0),
        updated_at: Timestamp::new(0, 0),
        host: host.to_string(),
        repo: name.to_string(),
        owner: owner.to_string(),
        remote_url: String::new(),
        base_dir: String::new(),
        full_path: String::new(),
    }
}

#[test]
fn the_list_of_repositories_has_one_line_for_each() {
    assert_eq!(build_repo_list(&vec![]), "");
    assert_eq!(build_repo_list(&vec![repo("h", "o", "r")]), "h/o/r");
    assert_eq!(
        build_repo_list(&vec![repo("h", "o", "r"), repo("g", "p", "s"), repo("", "", "")]),
        "h/o/r\ng/p/s\n//"
    );
}
