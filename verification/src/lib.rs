//! Source complexity analysis for the `kompass` command-line tool.
//!
//! The library takes source text and gives structural scores, reports on whole
//! scopes, comparisons of reports, and explanations of single lines. Reading
//! files, walking directories and serializing reports is left to the program
//! around it.
use vstd::prelude::*;

pub mod analyze;
pub mod call_graph;
pub mod call_laws;
pub mod callable_names;
pub mod change_laws;
pub mod class_laws;
pub mod comment_laws;
pub mod comparison_laws;
pub mod contribution_laws;
pub mod delta_laws;
pub mod deltas;
pub mod diff;
pub mod diff_laws;
pub mod diff_text;
pub mod discover;
pub mod duplicates;
pub mod entries;
pub mod evidence;
pub mod evidence_laws;
pub mod explain;
pub mod explain_laws;
pub mod frontend_evidence;
pub mod identity;
pub mod identity_laws;
pub mod initializer_laws;
pub mod javascript;
pub mod javascript_evidence;
pub mod javascript_laws;
pub mod javascript_syntax;
pub mod javascript_units;
mod kinds;
pub mod known_names;
pub mod line_laws;
pub mod lines;
pub mod macro_laws;
pub mod matching;
pub mod model;
pub mod module_laws;
pub mod modules;
pub mod name_laws;
pub mod node_signals;
pub mod options;
pub mod order;
pub mod output;
pub mod path_laws;
pub mod paths;
pub mod position_laws;
pub mod python;
pub mod python_evidence;
pub mod python_laws;
pub mod python_syntax;
pub mod python_units;
pub mod ranking;
pub mod reachability;
pub mod region_laws;
pub mod regions;
pub mod report_input;
pub mod report_laws;
pub mod rust;
pub mod rust_evidence;
pub mod rust_laws;
pub mod rust_syntax;
pub mod rust_units;
pub mod score;
pub mod mirror_laws;
pub mod rewriting_laws;
pub mod score_laws;
pub mod signals;
pub mod spans;
pub mod statistics_laws;
pub mod stats;
pub mod summary;
pub mod sums;
pub mod syntax;
pub mod tallies;
pub mod test_laws;
pub mod text;
pub mod text_laws;
pub mod text_map;
pub mod tokens;
pub mod unit_laws;
pub mod unit_walk;
pub mod units;
pub mod view_laws;
pub mod walk;

pub use evidence::{CallGraphEvidence, CallRegion, DuplicateEvidence, Evidence};
pub use model::{AnalysisContract, FileAnalysis, Language, OutputFormat, Report, SortBy};

verus! {

}
