//! Translation support for RPG Maker projects: planning text into
//! request-sized batches, dispatching them to translation services and
//! merging the answers back, matching text between a source and its
//! translation, and guessing a project's language.

use vstd::prelude::*;

pub mod archive;
pub mod batch;
pub mod bundle;
pub mod dispatch;
pub mod language;
pub mod matching;
pub mod merge;
pub mod project;
pub mod text;
pub mod tokenize;
pub mod types;
