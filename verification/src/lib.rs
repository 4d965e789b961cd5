//! Matching of language tags against a list of preferences, and guessing a
//! track's language and flags from the suffixes of a file name.

pub mod bstr;
pub mod filename;
pub mod iso639;
pub mod score;
pub mod select;
pub mod tag;
pub mod track_flags;
