//! Rename-planning engine: turns filenames into a chosen naming convention
//! (camelCase, snake_case, kebab-case, ...), splitting the stem from the
//! extension on the last `.` and transforming only the stem.
//!
//! - [`chars`] classifies characters and maps ASCII case;
//! - [`words`] cuts a stem into words at separators and word boundaries;
//! - [`convention`] re-cases and re-joins the words per convention;
//! - [`convert`] splits a filename and converts it whole;
//! - [`laws`] proves the transforms idempotent and segmentation-preserving;
//! - [`walk`] fixes the traversal decisions (depth cap, candidate filter);
//! - [`orchestrate`] plans each rename and counts the renames performed.
//!
//! Filesystem traversal, the rename calls themselves, and the command line
//! are left to the surrounding program.
pub mod chars;
pub mod convention;
pub mod convert;
pub mod laws;
pub mod orchestrate;
pub mod walk;
pub mod words;

pub use convention::NamingConvention;
pub use convert::{change_naming_convention, translate_line, ConversionError};
pub use orchestrate::{plan_rename, Config, RenameStats};
