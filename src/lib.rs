//! Removal of Java `import` statements and annotation applications whose
//! names match a configured set of simple names or regular expressions.
//!
//! The scanner is aware of comments and of string and char literals; the import
//! pass yields an alias map that the annotation pass uses to resolve short
//! annotation names of removed imports.

pub mod bytes;
pub mod scanner;
pub mod annotation;
pub mod pattern;
pub mod names;
pub mod matching;
pub mod strict;
pub mod imports;
pub mod annotations;
pub mod transform;

pub use scanner::{ignore_whitespace_comments, next_symbol, find_token};
pub use annotation::next_annotation;
pub use pattern::Pattern;
pub use names::{NameSet, AliasMap};
pub use matching::MatchCause;
pub use strict::StrictMode;
pub use imports::remove_imports;
pub use annotations::remove_annotations;
pub use transform::{Parameters, handle_content};
