//! Syntax trees: the parsed document vocabulary and the grouped score the
//! later stages consume.

pub mod grouped;
pub mod grouped_notes;
pub mod grouped_text_style;
pub mod metadata_access;
pub mod metadata_keys;
pub mod parsed;
