//! The rename orchestrator's per-entry decision and its running count.
//!
//! For each entry the walker yields, the orchestrator computes the new name
//! and renames only when the name actually changes; unchanged entries cause
//! no rename call and are not counted.  The filesystem rename itself and
//! the wall-clock timing are the surrounding program's work.
use vstd::prelude::*;

use crate::convention::NamingConvention;
use crate::convert::{change_naming_convention, convention_of_name, convert_name, str_eq,
    ConversionError};

verus! {

/// The resolved configuration of one run, assembled once at startup from
/// external input and read-only thereafter.
pub struct Config {
    /// The directory whose entries are renamed.
    pub target_dir: String,
    /// The convention filenames are converted to.
    pub naming_convention: NamingConvention,
    /// Whether to descend into subdirectories.
    pub recursive: bool,
    /// Whether directories are renamed as well.
    pub include_dir: bool,
    /// Whether the run's summary is suppressed.
    pub quiet: bool,
    /// Whether to translate lines of text instead of renaming files.
    pub text: bool,
}

impl Config {
    /// Build a configuration from already-resolved values.
    pub fn new(
        target_dir: String,
        naming_convention: NamingConvention,
        recursive: bool,
        include_dir: bool,
        quiet: bool,
        text: bool,
    ) -> (c: Config)
        ensures
            c.target_dir == target_dir,
            c.naming_convention == naming_convention,
            c.recursive == recursive,
            c.include_dir == include_dir,
            c.quiet == quiet,
            c.text == text,
    {
        Config { target_dir, naming_convention, recursive, include_dir, quiet, text }
    }
}

/// The running count of entries actually renamed.
pub struct RenameStats {
    /// How many entries were renamed so far.
    pub files_renamed: u64,
}

impl RenameStats {
    /// A fresh count.
    pub fn new() -> (s: RenameStats)
        ensures
            s.files_renamed == 0,
    {
        RenameStats { files_renamed: 0 }
    }

    /// Count one renamed entry.
    pub fn record(&mut self)
        requires
            old(self).files_renamed < u64::MAX,
        ensures
            final(self).files_renamed == old(self).files_renamed + 1,
    {
        self.files_renamed = self.files_renamed + 1;
    }
}

/// Decide what to do with one entry: `Ok(Some(n))` orders a rename to `n`,
/// given exactly when the converted name differs from the old one;
/// `Ok(None)` means the name is already conforming and no rename call may
/// be made; `Err` rejects an unknown convention name.
pub fn plan_rename(file_name: &str, convention: &str) -> (r: Result<
    Option<String>,
    ConversionError,
>)
    ensures
        match r {
            Ok(plan) => {
                &&& convention_of_name(convention@) matches Some(c)
                &&& match plan {
                    Some(n) => n@ == convert_name(file_name@, c) && n@ != file_name@,
                    None => convert_name(file_name@, c) == file_name@,
                }
            },
            Err(e) => {
                &&& convention_of_name(convention@) is None
                &&& e == ConversionError::UnknownConvention
            },
        },
{
    match change_naming_convention(file_name, convention) {
        Ok(new_name) => {
            if str_eq(new_name.as_str(), file_name) {
                Ok(None)
            } else {
                Ok(Some(new_name))
            }
        },
        Err(e) => Err(e),
    }
}

} // verus!
