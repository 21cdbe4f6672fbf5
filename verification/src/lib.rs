//! Structural code-duplication detection by tree edit distance.
//!
//! Source files are parsed into ordered labeled trees; an edit-distance
//! engine scores how many weighted rename, insert and delete steps turn
//! one tree into another; the TSED layer normalizes that distance into a
//! fixed-point similarity in `[0, 1]`; and a pair-comparison driver
//! extracts function definitions, filters them, scores every candidate
//! pair and ranks the results.
//!
//! All fractional quantities are fixed-point integers: edit costs in
//! `COST_SCALE` units (1000 per 1.0) and similarities in `SIM_SCALE`
//! units (1000000 per 1.0).

use vstd::prelude::*;

mod apted;
mod driver;
mod extract;
mod parse;
mod raw;
mod tree;
mod tsed;

pub use apted::APTEDOptions;
pub use apted::compute_edit_distance;
pub use driver::FileRec;
pub use driver::SimilarityResult;
pub use driver::compare_functions;
pub use driver::find_similar_functions_across_files;
pub use driver::find_similar_functions_in_file;
pub use extract::GenericFunctionDef;
pub use extract::GenericTypeDef;
pub use extract::TypeDefKind;
pub use parse::PythonParser;
pub use parse::detect_language;
pub use parse::parse_to_tree;
pub use raw::Language;
pub use raw::RawNode;
pub use tree::TreeNode;
pub use tsed::SIM_SCALE;
pub use tsed::TSEDOptions;
pub use tsed::calculate_tsed;
pub use tsed::calculate_tsed_from_code;
pub use tsed::isqrt;

verus! {

} // verus!
