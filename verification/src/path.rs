//! Paths as text: joining, the home directory and the tilde that stands for it.

use crate::text::{push_from, starts_with, str_chars, string_of};
use vstd::prelude::*;

verus! {

/// The name of the program.
pub const PROGRAM: &'static str = "prog";

/// The directory under the home directory in which the program keeps its files.
pub const FOLDER: &'static str = ".prog";

/// The path `part` below the directory `base`. A `part` that begins with `/`
/// stands for itself; otherwise one `/` stands between the two unless `base`
/// is empty or ends with one.
pub open spec fn join_path(base: Seq<char>, part: Seq<char>) -> Seq<char> {
    if part.len() > 0 && part[0] == '/' {
        part
    } else if base.len() == 0 || base.last() == '/' {
        base + part
    } else {
        base + seq!['/'] + part
    }
}

/// `path` with a leading `~` replaced by the home directory `home`: `~` alone is
/// the home directory, `~/rest` and `~rest` are `rest` below it. A path
/// without a leading `~` stands for itself, and so does every path where
/// there is no home directory.
pub open spec fn expand_tilde_in(path: Seq<char>, home: Option<Seq<char>>) -> Seq<char> {
    match home {
        Some(h) => if path.len() > 0 && path[0] == '~' {
            if path.len() == 1 {
                h
            } else if path[1] == '/' {
                join_path(h, path.skip(2))
            } else {
                join_path(h, path.skip(1))
            }
        } else {
            path
        },
        None => path,
    }
}

/// `path` with the home directory `home` at its beginning replaced by `~`,
/// where `path` is the home directory or lies below it.
pub open spec fn contract_tilde_in(path: Seq<char>, home: Option<Seq<char>>) -> Seq<char> {
    match home {
        Some(h) => if h.is_prefix_of(path) {
            if path.len() == h.len() {
                seq!['~']
            } else if path[h.len() as int] == '/' {
                seq!['~'] + path.skip(h.len() as int)
            } else {
                path
            }
        } else {
            path
        },
        None => path,
    }
}

/// The home directory of the user.
///
/// Wraps `dirs::home_dir`, which reads it from the environment and the user
/// database, and gives the path as text. Nothing is promised of the value.
#[verifier::external_body]
pub(crate) fn home_dir() -> (home: Option<String>) {
    dirs::home_dir().map(|p| p.to_string_lossy().into_owned())
}

/// The path `part[from..]` below the directory `base`.
fn join_chars(base: &Vec<char>, part: &Vec<char>, from: usize) -> (r: Vec<char>)
    requires
        from <= part.len(),
    ensures
        r@ == join_path(base@, part@.skip(from as int)),
{
    let mut out: Vec<char> = Vec::new();
    if from < part.len() && part[from] == '/' {
        push_from(&mut out, part, from);
        assert(out@ =~= part@.skip(from as int));
        return out;
    }
    push_from(&mut out, base, 0);
    assert(out@ =~= base@);
    if base.len() > 0 && base[base.len() - 1] != '/' {
        out.push('/');
    }
    push_from(&mut out, part, from);
    out
}

/// The path `part` below the directory `base`.
pub fn join(base: &str, part: &str) -> (r: String)
    ensures
        r@ == join_path(base@, part@),
{
    let b = str_chars(base);
    let p = str_chars(part);
    assert(p@.skip(0) =~= p@);
    string_of(&join_chars(&b, &p, 0))
}

/// `path` with a leading `~` replaced by the home directory `home`.
pub fn expand_tilde_with(path: &str, home: Option<&str>) -> (r: String)
    ensures
        r@ == expand_tilde_in(
            path@,
            match home {
                Some(h) => Some(h@),
                None => None,
            },
        ),
{
    match home {
        Some(h) => {
            let p = str_chars(path);
            if p.len() > 0 && p[0] == '~' {
                let hc = str_chars(h);
                if p.len() == 1 {
                    string_of(&hc)
                } else if p[1] == '/' {
                    string_of(&join_chars(&hc, &p, 2))
                } else {
                    string_of(&join_chars(&hc, &p, 1))
                }
            } else {
                path.to_owned()
            }
        },
        None => path.to_owned(),
    }
}

/// `path` with a leading `~` replaced by the home directory of the user.
pub fn expand_tilde(path: &str) -> (r: String)
    ensures
        exists|home: Option<Seq<char>>| r@ == #[trigger] expand_tilde_in(path@, home),
{
    let home = home_dir();
    let r = match &home {
        Some(h) => expand_tilde_with(path, Some(h.as_str())),
        None => expand_tilde_with(path, None),
    };
    proof {
        let hv: Option<Seq<char>> = match home {
            Some(h) => Some(h@),
            None => None,
        };
        assert(r@ == expand_tilde_in(path@, hv));
    }
    r
}

/// `path`, expanded as `expand_tilde` does.
pub fn expand_path(path: &str) -> (r: String)
    ensures
        exists|home: Option<Seq<char>>| r@ == #[trigger] expand_tilde_in(path@, home),
{
    expand_tilde(path)
}

/// `path` with the home directory `home` at its beginning replaced by `~`.
pub fn contract_tilde_with(path: &str, home: Option<&str>) -> (r: String)
    ensures
        r@ == contract_tilde_in(
            path@,
            match home {
                Some(h) => Some(h@),
                None => None,
            },
        ),
{
    match home {
        Some(h) => {
            let p = str_chars(path);
            let hc = str_chars(h);
            if starts_with(&p, &hc) {
                if p.len() == hc.len() {
                    let t: Vec<char> = vec!['~'];
                    string_of(&t)
                } else if p[hc.len()] == '/' {
                    let mut t: Vec<char> = vec!['~'];
                    push_from(&mut t, &p, hc.len());
                    string_of(&t)
                } else {
                    path.to_owned()
                }
            } else {
                path.to_owned()
            }
        },
        None => path.to_owned(),
    }
}

/// `path` with the home directory of the user at its beginning replaced by `~`.
pub fn contract_tilde(path: &str) -> (r: String)
    ensures
        exists|home: Option<Seq<char>>| r@ == #[trigger] contract_tilde_in(path@, home),
{
    let home = home_dir();
    let r = match &home {
        Some(h) => contract_tilde_with(path, Some(h.as_str())),
        None => contract_tilde_with(path, None),
    };
    proof {
        let hv: Option<Seq<char>> = match home {
            Some(h) => Some(h@),
            None => None,
        };
        assert(r@ == contract_tilde_in(path@, hv));
    }
    r
}

/// The path of the program's file `file` for a user whose home directory is
/// `home`: `home/.prog/file`.
pub open spec fn config_path_in(home: Seq<char>, file: Seq<char>) -> Seq<char> {
    join_path(join_path(home, FOLDER@), file)
}

/// The path of the program's file `file` for a user whose home directory is
/// `home`.
pub fn config_path_with(home: &str, file: &str) -> (r: String)
    ensures
        r@ == config_path_in(home@, file@),
{
    let dir = join(home, FOLDER);
    join(dir.as_str(), file)
}

/// The path of the program's file `file`, or nothing where the user has no
/// home directory.
pub fn get_config_path(file: &str) -> (r: Option<String>)
    ensures
        r matches Some(p) ==> exists|home: Seq<char>| p@ == #[trigger] config_path_in(home, file@),
{
    match home_dir() {
        Some(h) => {
            let p = config_path_with(h.as_str(), file);
            assert(p@ == config_path_in(h@, file@));
            Some(p)
        },
        None => None,
    }
}

} // verus!
