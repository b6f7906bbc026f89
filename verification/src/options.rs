//! Which command-line options go together.
use vstd::prelude::*;
use crate::model::OutputFormat;

verus! {

/// The options of an analysis that exclude one another.
#[derive(Clone, Copy, Debug, PartialEq, Eq, Structural)]
pub struct AnalysisOptions {
    /// Show the test ranking instead of the production ranking.
    pub tests: bool,
    /// Show both production and test rankings.
    pub all: bool,
    /// Show a compact view.
    pub compact: bool,
    pub format: OutputFormat,
}

/// Why options do not go together, if they do not.
pub open spec fn option_conflict(options: AnalysisOptions) -> Option<Seq<char>> {
    if options.tests && options.all {
        Some("the argument '--tests' cannot be used with '--all'"@)
    } else if options.compact && options.format != OutputFormat::Json {
        Some("--compact requires --format json"@)
    } else {
        None
    }
}

/// Refuses options that do not go together.
pub fn check_options(options: AnalysisOptions) -> (result: Result<(), String>)
    ensures
        match (result, option_conflict(options)) {
            (Ok(_), None) => true,
            (Err(message), Some(expected)) => message@ == expected,
            _ => false,
        },
{
    if options.tests && options.all {
        return Err("the argument '--tests' cannot be used with '--all'".to_owned());
    }
    if options.compact && options.format != OutputFormat::Json {
        return Err("--compact requires --format json".to_owned());
    }
    Ok(())
}

}
