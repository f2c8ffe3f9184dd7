use prog::path::{
    config_path_with, contract_tilde, contract_tilde_with, expand_path, expand_tilde,
    expand_tilde_with, get_config_path, join,
};

#[test]
fn test_expand_tilde() {
    let home = dirs::home_dir().unwrap().to_string_lossy().to_string();

    assert_eq!(expand_tilde("~"), home);

    let docs_path = format!("{}/Documents", home);
    assert_eq!(expand_tilde("~/Documents"), docs_path);

    let normal_path = "/usr/local/bin";
    assert_eq!(expand_tilde(normal_path), normal_path);

    assert_eq!(expand_tilde(""), "");

    let middle_tilde = "/usr/~local/bin";
    assert_eq!(expand_tilde(middle_tilde), middle_tilde);

    let no_slash_path = format!("{}/test", home);
    assert_eq!(expand_tilde("~test"), no_slash_path);
}

#[test]
fn test_contract_tilde() {
    let home = dirs::home_dir().unwrap().to_string_lossy().to_string();

    assert_eq!(contract_tilde(&home), "~");

    let docs_path = format!("{}/Documents", home);
    assert_eq!(contract_tilde(&docs_path), "~/Documents");

    let normal_path = "/usr/local/bin";
    assert_eq!(contract_tilde(normal_path), normal_path);

    assert_eq!(contract_tilde(""), "");

    let middle_home = format!("/usr{}/bin", home);
    assert_eq!(contract_tilde(&middle_home), middle_home);

    let nested_path = format!("{}/Documents/Projects/rust", home);
    assert_eq!(contract_tilde(&nested_path), "~/Documents/Projects/rust");
}

#[test]
fn expand_tilde_with_a_given_home() {
    assert_eq!(expand_tilde_with("~", Some("/home/u")), "/home/u");
    assert_eq!(expand_tilde_with("~/", Some("/home/u")), "/home/u/");
    assert_eq!(expand_tilde_with("~/a/b", Some("/home/u")), "/home/u/a/b");
    assert_eq!(expand_tilde_with("~/a/b", Some("/home/u/")), "/home/u/a/b");
    assert_eq!(expand_tilde_with("~a", Some("/home/u")), "/home/u/a");
    assert_eq!(expand_tilde_with("~//etc", Some("/home/u")), "/etc");
    assert_eq!(expand_tilde_with("~/a", Some("")), "a");
    assert_eq!(expand_tilde_with("~/a", None), "~/a");
    assert_eq!(expand_tilde_with("a/~", Some("/home/u")), "a/~");
    assert_eq!(expand_tilde_with("", Some("/home/u")), "");
}

#[test]
fn contract_tilde_with_a_given_home() {
    assert_eq!(contract_tilde_with("/home/u", Some("/home/u")), "~");
    assert_eq!(contract_tilde_with("/home/u/x", Some("/home/u")), "~/x");
    assert_eq!(contract_tilde_with("/home/user", Some("/home/u")), "/home/user");
    assert_eq!(contract_tilde_with("/opt/x", Some("/home/u")), "/opt/x");
    assert_eq!(contract_tilde_with("/home/u/x", None), "/home/u/x");
}

#[test]
fn join_puts_one_slash_between() {
    assert_eq!(join("/a", "b"), "/a/b");
    assert_eq!(join("/a/", "b"), "/a/b");
    assert_eq!(join("/a", "/b"), "/b");
    assert_eq!(join("", "b"), "b");
    assert_eq!(join("/a", ""), "/a/");
    assert_eq!(join("/a", "b/c"), "/a/b/c");
}

#[test]
fn join_is_what_std_gives_on_unix() {
    for (a, b) in [("/a", "b"), ("/a/", "b"), ("/a", "/b"), ("", "b"), ("/a", ""), ("a", "b/c")] {
        if std::path::MAIN_SEPARATOR == '/' {
            assert_eq!(join(a, b), std::path::Path::new(a).join(b).to_string_lossy());
        }
    }
}

#[test]
fn the_files_of_the_program_lie_in_its_folder_below_home() {
    assert_eq!(config_path_with("/home/u", "config.toml"), "/home/u/.prog/config.toml");
    let home = dirs::home_dir().unwrap().to_string_lossy().to_string();
    assert_eq!(get_config_path("data.toml"), Some(format!("{}/.prog/data.toml", home)));
    assert_eq!(expand_path("~/x"), format!("{}/x", home));
}
