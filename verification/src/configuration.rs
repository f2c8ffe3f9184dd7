//! The configuration: base directories, aliases for the beginnings of URLs,
//! the directory for temporary work and the interval between syncs.

use crate::path::{expand_tilde_in, expand_tilde_with, home_dir, join, join_path, PROGRAM};
use crate::text::{starts_with, str_chars, string_of};
use vstd::prelude::*;

verus! {

/// The interval between syncs where the configuration names none: one hour.
pub const DEFAULT_AUTO_SYNC_INTERVAL_SECS: i64 = 3600;

/// The interval between syncs where the configuration names none.
pub fn default_auto_sync_interval_secs() -> (secs: i64)
    ensures
        secs == DEFAULT_AUTO_SYNC_INTERVAL_SECS,
{
    DEFAULT_AUTO_SYNC_INTERVAL_SECS
}

/// An alias: a beginning of a URL and what stands for it.
#[derive(Debug)]
pub struct Alias {
    pub prefix: String,
    pub target: String,
}

/// The configuration.
#[derive(Debug)]
pub struct Config {
    /// The base directories, as written: a leading `~` is the home directory.
    pub base: Vec<String>,
    /// The aliases, in the order in which they are tried.
    pub alias: Vec<Alias>,
    /// The directory for temporary work; empty where none is configured.
    pub tmp_dir: String,
    /// The seconds between two syncs; syncing by interval is off where the
    /// number is not positive.
    pub auto_sync_interval_secs: i64,
}

/// Why there is no base directory to work in.
#[derive(Debug, Clone, Copy, PartialEq, Eq, Structural)]
pub enum BaseDirError {
    /// No base directory is configured.
    NotConfigured,
    /// More than one base directory is configured.
    MoreThanOne,
}

/// The characters of which the name of a temporary directory is made by chance.
pub open spec fn suffix_charset() -> Seq<char> {
    "0123456789abcdefghijklmnopqrstuvwxyz"@
}

/// A text of `n` characters chosen by chance among the digits and the small
/// letters.
///
/// Wraps `random_string::generate`, which draws each of the `n` characters
/// from the given charset. It asks for a charset that is not empty, which the
/// one here is, and reserves room for `n` characters, which must therefore
/// not be more than a string can hold.
#[verifier::external_body]
pub fn get_random_string(n: usize) -> (r: String)
    requires
        n <= isize::MAX,
    ensures
        r@.len() == n,
        forall|i: int| 0 <= i < r@.len() ==> suffix_charset().contains(#[trigger] r@[i]),
{
    random_string::generate(n, "0123456789abcdefghijklmnopqrstuvwxyz")
}

/// `url` with the alias at its beginning replaced by what stands for it: of the
/// aliases `aliases[from..]`, the first whose prefix begins `url` is applied.
pub open spec fn replace_alias_from(
    aliases: Seq<(Seq<char>, Seq<char>)>,
    url: Seq<char>,
    from: int,
) -> Seq<char>
    decreases aliases.len() - from,
{
    if from < 0 || from >= aliases.len() {
        url
    } else if aliases[from].0.is_prefix_of(url) {
        aliases[from].1 + url.skip(aliases[from].0.len() as int)
    } else {
        replace_alias_from(aliases, url, from + 1)
    }
}

/// The prefixes and targets of a vector of aliases.
pub open spec fn alias_views(v: Seq<Alias>) -> Seq<(Seq<char>, Seq<char>)> {
    Seq::new(v.len(), |i: int| (v[i].prefix@, v[i].target@))
}

/// The texts of a vector of strings.
pub open spec fn string_views(v: Seq<String>) -> Seq<Seq<char>> {
    Seq::new(v.len(), |i: int| v[i]@)
}

/// Each of the paths `base`, with a leading `~` replaced by `home`.
pub open spec fn expand_all(base: Seq<Seq<char>>, home: Option<Seq<char>>) -> Seq<Seq<char>> {
    Seq::new(base.len(), |i: int| expand_tilde_in(base[i], home))
}

/// The name of a temporary directory with the suffix `suffix`: `prog-suffix`.
pub open spec fn tmp_name(suffix: Seq<char>) -> Seq<char> {
    PROGRAM@ + seq!['-'] + suffix
}

impl Config {
    /// The base directories, each with a leading `~` replaced by `home`.
    pub fn base_dirs_with(&self, home: Option<&str>) -> (r: Vec<String>)
        ensures
            string_views(r@) == expand_all(
                string_views(self.base@),
                match home {
                    Some(h) => Some(h@),
                    None => None,
                },
            ),
    {
        let ghost hv: Option<Seq<char>> = match home {
            Some(h) => Some(h@),
            None => None,
        };
        let mut out: Vec<String> = Vec::new();
        let mut i: usize = 0;
        while i < self.base.len()
            invariant
                i <= self.base.len(),
                out.len() == i,
                hv == match home {
                    Some(h) => Some(h@),
                    None => None,
                },
                forall|j: int|
                    0 <= j < i ==> (#[trigger] out@[j])@ == expand_tilde_in(self.base@[j]@, hv),
            decreases self.base.len() - i,
        {
            out.push(expand_tilde_with(self.base[i].as_str(), home));
            i += 1;
        }
        assert(string_views(out@) =~= expand_all(string_views(self.base@), hv));
        out
    }

    /// The base directories, each with a leading `~` replaced by the home
    /// directory of the user.
    pub fn base_dirs(&self) -> (r: Vec<String>)
        ensures
            exists|home: Option<Seq<char>>|
                string_views(r@) == #[trigger] expand_all(string_views(self.base@), home),
    {
        let home = home_dir();
        let r = match &home {
            Some(h) => self.base_dirs_with(Some(h.as_str())),
            None => self.base_dirs_with(None),
        };
        proof {
            let hv: Option<Seq<char>> = match home {
                Some(h) => Some(h@),
                None => None,
            };
            assert(string_views(r@) == expand_all(string_views(self.base@), hv));
        }
        r
    }

    /// The first base directory, expanded with `home`.
    pub fn get_base_dir_with(&self, home: Option<&str>) -> (r: Result<String, BaseDirError>)
        ensures
            match r {
                Ok(dir) => self.base.len() > 0 && dir@ == expand_tilde_in(
                    self.base@[0]@,
                    match home {
                        Some(h) => Some(h@),
                        None => None,
                    },
                ),
                Err(e) => self.base.len() == 0 && e == BaseDirError::NotConfigured,
            },
    {
        if self.base.len() == 0 {
            Err(BaseDirError::NotConfigured)
        } else {
            Ok(expand_tilde_with(self.base[0].as_str(), home))
        }
    }

    /// The first base directory, expanded with the home directory of the user.
    pub fn get_base_dir(&self) -> (r: Result<String, BaseDirError>)
        ensures
            match r {
                Ok(dir) => self.base.len() > 0 && exists|home: Option<Seq<char>>|
                    dir@ == #[trigger] expand_tilde_in(self.base@[0]@, home),
                Err(e) => self.base.len() == 0 && e == BaseDirError::NotConfigured,
            },
    {
        let home = home_dir();
        let r = match &home {
            Some(h) => self.get_base_dir_with(Some(h.as_str())),
            None => self.get_base_dir_with(None),
        };
        proof {
            let hv: Option<Seq<char>> = match home {
                Some(h) => Some(h@),
                None => None,
            };
            if r is Ok {
                assert(r->Ok_0@ == expand_tilde_in(self.base@[0]@, hv));
            }
        }
        r
    }

    /// `url` with the first alias that begins it replaced by what stands for it.
    pub fn replace_alias(&self, url: String) -> (r: String)
        ensures
            r@ == replace_alias_from(alias_views(self.alias@), url@, 0),
    {
        let chars = str_chars(url.as_str());
        let ghost all = alias_views(self.alias@);
        let mut i: usize = 0;
        while i < self.alias.len()
            invariant
                i <= self.alias.len(),
                all == alias_views(self.alias@),
                chars@ == url@,
                replace_alias_from(all, url@, 0) == replace_alias_from(all, url@, i as int),
            decreases self.alias.len() - i,
        {
            let prefix = str_chars(self.alias[i].prefix.as_str());
            assert(all[i as int] == (self.alias@[i as int].prefix@, self.alias@[i as int].target@));
            if starts_with(&chars, &prefix) {
                let mut out = str_chars(self.alias[i].target.as_str());
                let mut k: usize = prefix.len();
                let ghost target = out@;
                while k < chars.len()
                    invariant
                        prefix.len() <= k <= chars.len(),
                        out@ == target + chars@.subrange(prefix.len() as int, k as int),
                    decreases chars.len() - k,
                {
                    out.push(chars[k]);
                    assert(out@ =~= target + chars@.subrange(prefix.len() as int, k + 1));
                    k += 1;
                }
                assert(chars@.subrange(prefix.len() as int, chars.len() as int) =~= chars@.skip(
                    prefix.len() as int,
                ));
                return string_of(&out);
            }
            i += 1;
        }
        url
    }

    /// The directory for temporary work, expanded with `home`.
    pub fn tmp_dir_with(&self, home: Option<&str>) -> (r: String)
        requires
            self.tmp_dir@.len() > 0,
        ensures
            r@ == expand_tilde_in(
                self.tmp_dir@,
                match home {
                    Some(h) => Some(h@),
                    None => None,
                },
            ),
    {
        expand_tilde_with(self.tmp_dir.as_str(), home)
    }

    /// The directory for temporary work, expanded with the home directory of
    /// the user. One must be configured.
    pub fn tmp_dir(&self) -> (r: String)
        requires
            self.tmp_dir@.len() > 0,
        ensures
            exists|home: Option<Seq<char>>| r@ == #[trigger] expand_tilde_in(self.tmp_dir@, home),
    {
        let home = home_dir();
        let r = match &home {
            Some(h) => self.tmp_dir_with(Some(h.as_str())),
            None => self.tmp_dir_with(None),
        };
        proof {
            let hv: Option<Seq<char>> = match home {
                Some(h) => Some(h@),
                None => None,
            };
            assert(r@ == expand_tilde_in(self.tmp_dir@, hv));
        }
        r
    }

    /// The path of the temporary directory with the suffix `suffix` below the
    /// directory `dir`.
    pub fn tmp_dir_path(dir: &str, suffix: &str) -> (r: String)
        ensures
            r@ == join_path(dir@, tmp_name(suffix@)),
    {
        let mut name = str_chars(PROGRAM);
        name.push('-');
        let s = str_chars(suffix);
        let mut i: usize = 0;
        while i < s.len()
            invariant
                i <= s.len(),
                name@ == PROGRAM@ + seq!['-'] + s@.take(i as int),
            decreases s.len() - i,
        {
            name.push(s[i]);
            i += 1;
        }
        assert(s@.take(s.len() as int) == s@);
        join(dir, string_of(&name).as_str())
    }

    /// The path of a new temporary directory: below the directory for
    /// temporary work, with the name `prog-` and six characters chosen by
    /// chance among the digits and the small letters. One must be configured.
    pub fn create_tmp_dir(&self) -> (r: String)
        requires
            self.tmp_dir@.len() > 0,
        ensures
            exists|home: Option<Seq<char>>, suffix: Seq<char>|
                suffix.len() == 6 && (forall|i: int|
                    0 <= i < 6 ==> suffix_charset().contains(#[trigger] suffix[i])) && r@
                    == join_path(#[trigger] expand_tilde_in(self.tmp_dir@, home), #[trigger] tmp_name(suffix)),
    {
        let suffix = get_random_string(6);
        let home = home_dir();
        let dir = match &home {
            Some(h) => self.tmp_dir_with(Some(h.as_str())),
            None => self.tmp_dir_with(None),
        };
        let r = Config::tmp_dir_path(dir.as_str(), suffix.as_str());
        proof {
            let hv: Option<Seq<char>> = match home {
                Some(h) => Some(h@),
                None => None,
            };
            assert(r@ == join_path(expand_tilde_in(self.tmp_dir@, hv), tmp_name(suffix@)));
        }
        r
    }

    /// The seconds between two syncs.
    pub fn get_auto_sync_interval_secs(&self) -> (secs: i64)
        ensures
            secs == self.auto_sync_interval_secs,
    {
        self.auto_sync_interval_secs
    }
}

} // verus!
