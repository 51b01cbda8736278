//! Jianpu (numbered musical notation) score processing: desugaring of keyed
//! score lines, combination of per-part measures, compilation of measures
//! into column-positioned glyph rows, and consolidation of identical rows.

pub mod error;
pub mod text;
pub mod ast;
pub mod desugar;
pub mod compiler;
pub mod consolidator;
pub mod combiner;
pub mod check;
pub mod compositor;
pub mod audio_source;
pub mod output_name;
