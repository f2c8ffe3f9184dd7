//! Coloured text for the terminal, and the rule by which colours are on.

use crate::order::{compare, Rel};
use crate::text::{push_str, str_chars, string_of};
use vstd::prelude::*;

verus! {

/// A colour of the terminal.
#[derive(Debug, Clone, Copy, PartialEq, Eq, Structural)]
pub enum Color {
    Red,
    Green,
    Yellow,
    Blue,
}

/// The ANSI sequence that ends a colour.
pub const RESET: &'static str = "\x1b[0m";

impl Color {
    /// The ANSI sequence that begins the colour.
    pub open spec fn code_of(self) -> Seq<char> {
        match self {
            Color::Red => "\x1b[31m"@,
            Color::Green => "\x1b[32m"@,
            Color::Yellow => "\x1b[33m"@,
            Color::Blue => "\x1b[34m"@,
        }
    }

    /// The ANSI sequence that begins the colour.
    pub fn code(&self) -> (r: &'static str)
        ensures
            r@ == self.code_of(),
    {
        match self {
            Color::Red => "\x1b[31m",
            Color::Green => "\x1b[32m",
            Color::Yellow => "\x1b[33m",
            Color::Blue => "\x1b[34m",
        }
    }
}

/// A text with the colour in which it is to be shown.
#[derive(Debug)]
pub struct ColoredString {
    content: String,
    color: Color,
}

impl ColoredString {
    /// The text.
    pub closed spec fn content(&self) -> Seq<char> {
        self.content@
    }

    /// The colour.
    pub closed spec fn color(&self) -> Color {
        self.color
    }

    /// What is written to the terminal: the text between the sequences that
    /// begin and end the colour where colours are on, else the text alone.
    pub open spec fn shown(&self, enabled: bool) -> Seq<char> {
        if enabled {
            self.color().code_of() + self.content() + RESET@
        } else {
            self.content()
        }
    }

    /// `content` in the colour `color`.
    pub fn new(content: String, color: Color) -> (r: ColoredString)
        ensures
            r.content() == content@,
            r.color() == color,
    {
        ColoredString { content, color }
    }

    /// What is written to the terminal.
    pub fn render(&self, enabled: bool) -> (r: String)
        ensures
            r@ == self.shown(enabled),
    {
        if enabled {
            let mut out = str_chars(self.color.code());
            push_str(&mut out, self.content.as_str());
            push_str(&mut out, RESET);
            string_of(&out)
        } else {
            self.content.clone()
        }
    }
}

/// A text that can be given a colour.
pub trait Colorize {
    /// The text.
    spec fn text(&self) -> Seq<char>;

    /// The text in red.
    fn red(self) -> (r: ColoredString)
        ensures
            r.content() == self.text(),
            r.color() == Color::Red,
    ;

    /// The text in green.
    fn green(self) -> (r: ColoredString)
        ensures
            r.content() == self.text(),
            r.color() == Color::Green,
    ;

    /// The text in yellow.
    fn yellow(self) -> (r: ColoredString)
        ensures
            r.content() == self.text(),
            r.color() == Color::Yellow,
    ;

    /// The text in blue.
    fn blue(self) -> (r: ColoredString)
        ensures
            r.content() == self.text(),
            r.color() == Color::Blue,
    ;
}

impl Colorize for String {
    open spec fn text(&self) -> Seq<char> {
        self@
    }

    fn red(self) -> (r: ColoredString) {
        ColoredString::new(self, Color::Red)
    }

    fn green(self) -> (r: ColoredString) {
        ColoredString::new(self, Color::Green)
    }

    fn yellow(self) -> (r: ColoredString) {
        ColoredString::new(self, Color::Yellow)
    }

    fn blue(self) -> (r: ColoredString) {
        ColoredString::new(self, Color::Blue)
    }
}

impl Colorize for &str {
    open spec fn text(&self) -> Seq<char> {
        self@
    }

    fn red(self) -> (r: ColoredString) {
        ColoredString::new(self.to_owned(), Color::Red)
    }

    fn green(self) -> (r: ColoredString) {
        ColoredString::new(self.to_owned(), Color::Green)
    }

    fn yellow(self) -> (r: ColoredString) {
        ColoredString::new(self.to_owned(), Color::Yellow)
    }

    fn blue(self) -> (r: ColoredString) {
        ColoredString::new(self.to_owned(), Color::Blue)
    }
}

/// What the environment says of colours.
#[derive(Debug)]
pub struct ColorEnv {
    /// Whether `NO_COLOR` is set.
    pub no_color: bool,
    /// The value of `CLICOLOR`.
    pub clicolor: Option<String>,
    /// The value of `CLICOLOR_FORCE`.
    pub clicolor_force: Option<String>,
    /// Whether `CI` or `CONTINUOUS_INTEGRATION` is set.
    pub ci: bool,
    /// The value of `TERM`.
    pub term: Option<String>,
}

/// Whether the optional text `value` is the text `wanted`.
pub open spec fn is_text(value: Option<String>, wanted: Seq<char>) -> bool {
    value matches Some(v) && v@ == wanted
}

/// Colours are off where `NO_COLOR` is set or `CLICOLOR` is `0`; else on where
/// `CLICOLOR_FORCE` is `1`; else off in continuous integration and on a
/// terminal that is `dumb`; else on.
pub open spec fn colors_on(env: ColorEnv) -> bool {
    if env.no_color || is_text(env.clicolor, "0"@) {
        false
    } else if is_text(env.clicolor_force, "1"@) {
        true
    } else {
        !env.ci && !is_text(env.term, "dumb"@)
    }
}

fn has_text(value: &Option<String>, wanted: &str) -> (r: bool)
    ensures
        r == is_text(*value, wanted@),
{
    match value {
        Some(v) => compare(v.as_str(), wanted) == Rel::Same,
        None => false,
    }
}

/// Whether colours are on in the environment `env`.
pub fn colors_enabled(env: &ColorEnv) -> (r: bool)
    ensures
        r == colors_on(*env),
{
    if env.no_color || has_text(&env.clicolor, "0") {
        false
    } else if has_text(&env.clicolor_force, "1") {
        true
    } else {
        !env.ci && !has_text(&env.term, "dumb")
    }
}

} // verus!
