//! The rules of the commands that keep the disk tidy: when a temporary
//! directory is outdated, when a directory counts as empty, and how a size is
//! classed.

use crate::colors::Color;
use crate::order::{compare, Rel};
use vstd::prelude::*;

verus! {

/// The seconds of a day.
pub const SECS_PER_DAY: u64 = 86_400;

/// The seconds of an hour.
pub const SECS_PER_HOUR: u64 = 3_600;

/// The age in seconds past which a temporary directory is outdated: seven days.
pub const OUTDATED_AFTER_SECS: u64 = 604_800;

/// A directory that was last changed `secs` seconds and `nanos` nanoseconds
/// ago is outdated where that is more than seven days.
pub open spec fn outdated(secs: u64, nanos: u32) -> bool {
    secs > OUTDATED_AFTER_SECS || (secs == OUTDATED_AFTER_SECS && nanos > 0)
}

/// Whether a directory of the given age is outdated.
pub fn is_outdated(secs: u64, nanos: u32) -> (r: bool)
    ensures
        r == outdated(secs, nanos),
{
    secs > OUTDATED_AFTER_SECS || (secs == OUTDATED_AFTER_SECS && nanos > 0)
}

/// How the age of a temporary directory is told.
#[derive(Debug, Clone, Copy, PartialEq, Eq, Structural)]
pub enum Age {
    /// More than seven days.
    Outdated,
    /// So many whole days, at least one.
    Days(u64),
    /// So many whole hours, less than a day.
    Hours(u64),
}

/// How the age of a directory is told.
pub fn age_of(secs: u64, nanos: u32) -> (r: Age)
    ensures
        r == if outdated(secs, nanos) {
            Age::Outdated
        } else if secs >= SECS_PER_DAY {
            Age::Days(secs / SECS_PER_DAY)
        } else {
            Age::Hours(secs / SECS_PER_HOUR)
        },
{
    if is_outdated(secs, nanos) {
        Age::Outdated
    } else if secs >= SECS_PER_DAY {
        Age::Days(secs / SECS_PER_DAY)
    } else {
        Age::Hours(secs / SECS_PER_HOUR)
    }
}

/// The name of the file that macOS leaves in directories, and that does not
/// count when a directory is asked whether it is empty.
pub const DS_STORE_FILE: &'static str = ".DS_Store";

/// A directory with the given entries counts as empty where each of them is
/// `.DS_Store`.
pub open spec fn effectively_empty(names: Seq<String>) -> bool {
    forall|i: int| 0 <= i < names.len() ==> (#[trigger] names[i])@ == DS_STORE_FILE@
}

/// Whether a directory with the given entries counts as empty.
pub fn is_dir_effectively_empty(names: &Vec<String>) -> (r: bool)
    ensures
        r == effectively_empty(names@),
{
    let mut i: usize = 0;
    while i < names.len()
        invariant
            i <= names.len(),
            forall|j: int| 0 <= j < i ==> (#[trigger] names@[j])@ == DS_STORE_FILE@,
        decreases names.len() - i,
    {
        if compare(names[i].as_str(), DS_STORE_FILE) != Rel::Same {
            return false;
        }
        i += 1;
    }
    true
}

/// The bytes of a kibibyte, a mebibyte and a gibibyte.
pub const KB: u64 = 1024;

pub const MB: u64 = 1_048_576;

pub const GB: u64 = 1_073_741_824;

/// The unit in which a size is told.
#[derive(Debug, Clone, Copy, PartialEq, Eq, Structural)]
pub enum SizeUnit {
    Bytes,
    KB,
    MB,
    GB,
}

/// The unit in which a size of `bytes` bytes is told: the greatest of which
/// it holds one at least.
pub fn size_unit(bytes: u64) -> (r: SizeUnit)
    ensures
        r == if bytes >= GB {
            SizeUnit::GB
        } else if bytes >= MB {
            SizeUnit::MB
        } else if bytes >= KB {
            SizeUnit::KB
        } else {
            SizeUnit::Bytes
        },
{
    if bytes >= GB {
        SizeUnit::GB
    } else if bytes >= MB {
        SizeUnit::MB
    } else if bytes >= KB {
        SizeUnit::KB
    } else {
        SizeUnit::Bytes
    }
}

/// The colour in which the size of a repository is shown: red from one
/// gibibyte, yellow from 500 mebibytes, green below.
pub fn size_color(bytes: u64) -> (r: Color)
    ensures
        r == if bytes >= GB {
            Color::Red
        } else if bytes >= 500 * MB {
            Color::Yellow
        } else {
            Color::Green
        },
{
    if bytes >= GB {
        Color::Red
    } else if bytes >= 500 * MB {
        Color::Yellow
    } else {
        Color::Green
    }
}

/// The colour in which the size of a directory inside a repository is shown:
/// red from one gibibyte, yellow from 100 mebibytes, none below.
pub fn subdir_size_color(bytes: u64) -> (r: Option<Color>)
    ensures
        r == if bytes >= GB {
            Some(Color::Red)
        } else if bytes >= 100 * MB {
            Some(Color::Yellow)
        } else {
            None
        },
{
    if bytes >= GB {
        Some(Color::Red)
    } else if bytes >= 100 * MB {
        Some(Color::Yellow)
    } else {
        None
    }
}

} // verus!
