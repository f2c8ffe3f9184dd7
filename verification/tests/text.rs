use prog::order::{compare, str_starts_with, Rel};
use prog::text::{
    char_is_whitespace, contains_in, find_in, split_chars, str_chars, string_of, trim_bounds,
};

fn chars(s: &str) -> Vec<char> {
    s.chars().collect()
}

#[test]
fn whitespace_is_what_std_calls_whitespace() {
    for code in 0..=0x10ffffu32 {
        if let Some(c) = char::from_u32(code) {
            assert_eq!(char_is_whitespace(c), c.is_whitespace(), "U+{:04X}", code);
        }
    }
}

#[test]
fn trimming_is_what_std_does() {
    for s in ["", " ", "a", " a ", "\t\na b\r\n", "\u{a0}x\u{3000}", "\u{200b}x", "x \u{e9} "] {
        let v = chars(s);
        let (lo, hi) = trim_bounds(&v);
        let trimmed: String = v[lo..hi].iter().collect();
        assert_eq!(trimmed, s.trim(), "trim of {:?}", s);
    }
}

const WORDS: [&str; 14] = [
    "",
    "a",
    "A",
    "ab",
    "abc",
    "abd",
    "b",
    "/base/a",
    "/base/a/b",
    "/base/a-b",
    "\u{e9}",
    "e\u{301}",
    "\u{10348}",
    "\u{ffff}",
];

#[test]
fn the_order_is_the_order_of_std() {
    for a in WORDS {
        for b in WORDS {
            let expected = if a < b {
                Rel::Before
            } else if a == b {
                Rel::Same
            } else {
                Rel::After
            };
            assert_eq!(compare(a, b), expected, "{:?} and {:?}", a, b);
        }
    }
}

#[test]
fn prefixes_and_parts_are_what_std_finds() {
    for a in WORDS {
        for b in WORDS {
            assert_eq!(str_starts_with(a, b), a.starts_with(b), "{:?} starts with {:?}", a, b);
            assert_eq!(contains_in(&chars(a), &chars(b)), a.contains(b), "{:?} holds {:?}", a, b);
            let found = find_in(&chars(a), &chars(b));
            let expected = a.find(b).map(|byte| a[..byte].chars().count());
            assert_eq!(found, expected, "{:?} in {:?}", b, a);
        }
    }
}

#[test]
fn splitting_is_what_std_does() {
    for s in ["", "a", "a-b", "-a", "a-", "a--b", "a_b.c-d", "..", "\u{e9}-\u{e9}"] {
        let parts: Vec<String> =
            split_chars(&chars(s), &chars("-_.")).into_iter().map(|p| p.into_iter().collect()).collect();
        let expected: Vec<String> =
            s.split(|c| c == '-' || c == '_' || c == '.').map(|p| p.to_string()).collect();
        assert_eq!(parts, expected, "parts of {:?}", s);
    }
}

#[test]
fn characters_go_to_a_vector_and_back() {
    for s in ["", "abc", "\u{e9}t\u{e9} \u{4e2d}\u{6587} \u{10348}"] {
        assert_eq!(str_chars(s), chars(s));
        assert_eq!(string_of(&str_chars(s)), s);
    }
}
