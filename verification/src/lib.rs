//! Finds near-duplicate texts in a corpus: every unordered pair of texts is
//! scored, and the pairs whose similarity exceeds a threshold are reported.
//!
//! Scores and thresholds are IEEE 754 numbers held as their bit patterns, so
//! that every decision on them is made, and proved, in integer arithmetic.

pub mod cli;
pub mod comparison;
pub mod error;
pub mod load_files;
pub mod logging;
pub mod pairs;
pub mod score;
pub mod serialize;
pub mod percentage;

use vstd::prelude::*;
use crate::cli::Cli;
use crate::comparison::{comparisons, qualifying, records, Comparison, Metric, Settings};
use crate::error::RunError;
use crate::load_files::{files, prepared_corpus, texts};
use crate::pairs::all_pairs;
use crate::score::{encodes_score, score_magnitude};

verus! {

/// A text of the corpus as plain values: the path that names it and its
/// whole content.
pub struct Text {
    pub path: Seq<char>,
    pub content: Seq<char>,
}

/// A text of the corpus: the path that names it and its whole content.
#[derive(Debug)]
pub struct File {
    pub path: String,
    pub content: String,
}

impl View for File {
    type V = Text;

    open spec fn view(&self) -> Text {
        Text { path: self.path@, content: self.content@ }
    }
}

/// The texts of a list of files.
pub open spec fn corpus(files: Seq<File>) -> Seq<Text> {
    files.map_values(|file: File| file@)
}

/// Runs the comparison on the texts that were loaded: validates the
/// threshold, prepares the texts, and compares every pair of them. The
/// threshold is looked at first, the size of the corpus second, and no pair
/// is compared if either is refused.
pub fn run(loaded: Vec<File>, options: &Cli) -> (r: Result<Vec<Comparison>, RunError>)
    ensures
        match r {
            Ok(found) => encodes_score(options.threshold) && loaded.len() >= 2 && records(found@)
                == qualifying(
                prepared_corpus(corpus(loaded@), texts(options.skip_lines@)),
                all_pairs(loaded.len()),
                Metric::of_level(options.fast),
                score_magnitude(options.threshold),
            ),
            Err(RunError::Configuration) => !encodes_score(options.threshold),
            Err(RunError::InsufficientInput) => encodes_score(options.threshold) && loaded.len()
                < 2,
        },
{
    let settings = match Settings::new(options.threshold, options.fast) {
        Ok(settings) => settings,
        Err(e) => {
            return Err(e);
        },
    };
    let prepared = files(loaded, options);
    if prepared.len() < 2 {
        return Err(RunError::InsufficientInput);
    }
    Ok(comparisons(&prepared, &settings))
}

} // verus!
