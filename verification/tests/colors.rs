use prog::colors::{colors_enabled, Color, ColorEnv, ColoredString, Colorize};

fn env(
    no_color: bool,
    clicolor: Option<&str>,
    force: Option<&str>,
    ci: bool,
    term: Option<&str>,
) -> ColorEnv {
    ColorEnv {
        no_color,
        clicolor: clicolor.map(|s| s.to_string()),
        clicolor_force: force.map(|s| s.to_string()),
        ci,
        term: term.map(|s| s.to_string()),
    }
}

#[test]
fn a_coloured_text_is_shown_between_the_sequences_of_its_colour() {
    assert_eq!("x".red().render(true), "\x1b[31mx\x1b[0m");
    assert_eq!("x".green().render(true), "\x1b[32mx\x1b[0m");
    assert_eq!("x".yellow().render(true), "\x1b[33mx\x1b[0m");
    assert_eq!("x".blue().render(true), "\x1b[34mx\x1b[0m");
    assert_eq!(String::from("Done!").green().render(true), "\x1b[32mDone!\x1b[0m");
    assert_eq!(String::from("a").red().render(false), "a");
    assert_eq!(String::from("a").yellow().render(true), "\x1b[33ma\x1b[0m");
    assert_eq!(String::from("a").blue().render(false), "a");
    assert_eq!(ColoredString::new("".to_string(), Color::Blue).render(true), "\x1b[34m\x1b[0m");
    assert_eq!(Color::Red.code(), "\x1b[31m");
}

#[test]
fn the_rule_by_which_colours_are_on() {
    assert!(colors_enabled(&env(false, None, None, false, None)));
    assert!(colors_enabled(&env(false, None, None, false, Some("xterm"))));
    assert!(!colors_enabled(&env(true, None, Some("1"), false, None)));
    assert!(!colors_enabled(&env(false, Some("0"), Some("1"), false, None)));
    assert!(colors_enabled(&env(false, Some("1"), None, false, None)));
    assert!(colors_enabled(&env(false, None, Some("1"), true, Some("dumb"))));
    assert!(!colors_enabled(&env(false, None, Some("0"), true, None)));
    assert!(!colors_enabled(&env(false, None, None, true, None)));
    assert!(!colors_enabled(&env(false, None, None, false, Some("dumb"))));
}
