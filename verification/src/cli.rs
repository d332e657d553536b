//! The options of a run, as plain values.

use vstd::prelude::*;
use crate::load_files::SkipPattern;

verus! {

/// The options of a run.
pub struct Cli {
    /// The root directory of the corpus.
    pub path: String,
    /// The similarity above which a pair is reported: a fraction from zero
    /// to one, as the bit pattern of a double.
    pub threshold: u64,
    /// The speed level: how often a faster, less precise metric was asked for.
    pub fast: u8,
    /// How often more detail was asked for in the log.
    pub verbose: u8,
    /// Where to save the results as a table, if anywhere.
    pub csv: Option<String>,
    /// Where to save the results as structured text, if anywhere.
    pub json: Option<String>,
    /// File names to leave out.
    pub ignore_file: Vec<String>,
    /// File extensions to leave out.
    pub ignore_ext: Vec<String>,
    /// File names to look for.
    pub require_file: Vec<String>,
    /// File extensions to look for.
    pub require_ext: Vec<String>,
    /// Expressions whose matching lines are left out of the comparison.
    pub skip_lines: Vec<SkipPattern>,
    /// Whether to show the progress of the comparison.
    pub progress: bool,
}

} // verus!
