//! What is handed to the writers of the results: the comparisons in
//! descending order of similarity, each with its rounded percentage and
//! with its paths as they read from the root of the corpus.

use vstd::prelude::*;
use vstd::multiset::Multiset;
use vstd::seq_lib::{lemma_multiset_commutative, to_multiset_build};
use vstd::string::StringExecFns;
use crate::cli::Cli;
use crate::comparison::Comparison;
use crate::percentage::{display_tenths, format_tenths, lemma_display_monotone, tenths_text};
use crate::score::{lemma_magnitude_bounded, unit};

verus! {

/// Whether `x` may stand before `y`: in descending order if its score is at
/// least that of `y`, in ascending order if it is at most that.
pub open spec fn in_order(x: Comparison, y: Comparison, descending: bool) -> bool {
    if descending {
        x@.score >= y@.score
    } else {
        x@.score <= y@.score
    }
}

/// Whether the comparisons stand in the given order of their scores.
pub open spec fn ordered(list: Seq<Comparison>, descending: bool) -> bool {
    forall|i: int, j: int| 0 <= i < j < list.len() ==> in_order(list[i], list[j], descending)
}

/// Whether every member of `list` may stand after `x`.
spec fn leads(x: Comparison, list: Seq<Comparison>, descending: bool) -> bool {
    forall|j: int| 0 <= j < list.len() ==> in_order(x, #[trigger] list[j], descending)
}

proof fn lemma_nothing_in_empty(list: Seq<Comparison>)
    requires
        list.len() == 0,
    ensures
        list.to_multiset() == Multiset::<Comparison>::empty(),
{
    list.to_multiset_ensures();
    assert forall|c: Comparison| list.to_multiset().count(c) == 0 by {
        assert(!list.contains(c));
    }
    assert(list.to_multiset() =~= Multiset::<Comparison>::empty());
}

fn may_precede(x: &Comparison, y: &Comparison, descending: bool) -> (r: bool)
    ensures
        r == in_order(*x, *y, descending),
{
    if descending {
        !y.similarity_pct.0.exceeds(&x.similarity_pct.0)
    } else {
        !x.similarity_pct.0.exceeds(&y.similarity_pct.0)
    }
}

/// Merges two lists that stand in the opposite order into one that stands
/// in the given order, taking from the ends of the two.
fn merge(left: Vec<Comparison>, right: Vec<Comparison>, descending: bool) -> (merged: Vec<
    Comparison,
>)
    requires
        ordered(left@, !descending),
        ordered(right@, !descending),
    ensures
        ordered(merged@, descending),
        merged@.to_multiset() == left@.to_multiset().add(right@.to_multiset()),
{
    let ghost all = left@.to_multiset().add(right@.to_multiset());
    let mut left = left;
    let mut right = right;
    let mut merged: Vec<Comparison> = Vec::new();
    proof {
        lemma_nothing_in_empty(merged@);
    }
    assert(merged@.to_multiset().add(left@.to_multiset()).add(right@.to_multiset()) =~= all);
    while left.len() > 0 || right.len() > 0
        invariant
            ordered(left@, !descending),
            ordered(right@, !descending),
            ordered(merged@, descending),
            forall|i: int| 0 <= i < merged.len() ==> leads(#[trigger] merged[i], left@, descending),
            forall|i: int|
                0 <= i < merged.len() ==> leads(#[trigger] merged[i], right@, descending),
            merged@.to_multiset().add(left@.to_multiset()).add(right@.to_multiset()) == all,
        decreases left.len() + right.len(),
    {
        let from_left: bool = if left.len() == 0 {
            false
        } else if right.len() == 0 {
            true
        } else {
            may_precede(&left[left.len() - 1], &right[right.len() - 1], descending)
        };
        let ghost left_before = left@;
        let ghost right_before = right@;
        let ghost merged_before = merged@;
        let item = if from_left {
            left.pop().unwrap()
        } else {
            right.pop().unwrap()
        };
        proof {
            if from_left {
                assert(left_before =~= left@.push(item));
                to_multiset_build(left@, item);
            } else {
                assert(right_before =~= right@.push(item));
                to_multiset_build(right@, item);
            }
            to_multiset_build(merged_before, item);
            // What was taken stood last in its list, in the opposite order,
            // and was preferred to the last of the other list.
            assert forall|j: int| 0 <= j < left@.len() implies in_order(
                item,
                #[trigger] left@[j],
                descending,
            ) by {
                assert(left@[j] == left_before[j]);
                assert(in_order(left_before[j], left_before.last(), !descending));
            }
            assert forall|j: int| 0 <= j < right@.len() implies in_order(
                item,
                #[trigger] right@[j],
                descending,
            ) by {
                assert(right@[j] == right_before[j]);
                assert(in_order(right_before[j], right_before.last(), !descending));
            }
        }
        merged.push(item);
        proof {
            assert forall|i: int| 0 <= i < merged_before.len() implies in_order(
                merged_before[i],
                item,
                descending,
            ) by {
                assert(leads(merged_before[i], left_before, descending));
                assert(leads(merged_before[i], right_before, descending));
                if from_left {
                    assert(left_before[left_before.len() - 1] == item);
                } else {
                    assert(right_before[right_before.len() - 1] == item);
                }
            }
            assert forall|i: int| 0 <= i < merged.len() implies leads(
                #[trigger] merged[i],
                left@,
                descending,
            ) by {
                if i < merged_before.len() {
                    assert(leads(merged_before[i], left_before, descending));
                    assert forall|j: int| 0 <= j < left@.len() implies in_order(
                        merged[i],
                        #[trigger] left@[j],
                        descending,
                    ) by {
                        assert(left@[j] == left_before[j]);
                    }
                }
            }
            assert forall|i: int| 0 <= i < merged.len() implies leads(
                #[trigger] merged[i],
                right@,
                descending,
            ) by {
                if i < merged_before.len() {
                    assert(leads(merged_before[i], right_before, descending));
                    assert forall|j: int| 0 <= j < right@.len() implies in_order(
                        merged[i],
                        #[trigger] right@[j],
                        descending,
                    ) by {
                        assert(right@[j] == right_before[j]);
                    }
                }
            }
            assert(merged@.to_multiset().add(left@.to_multiset()).add(right@.to_multiset())
                =~= all);
        }
    }
    proof {
        lemma_nothing_in_empty(left@);
        lemma_nothing_in_empty(right@);
    }
    assert(merged@.to_multiset() =~= all);
    merged
}

/// Sorts by merging, each level of the recursion in the order opposite to
/// the one above it, so that a merge can take from the ends of its halves.
fn sort(comparisons: Vec<Comparison>, descending: bool) -> (sorted: Vec<Comparison>)
    ensures
        ordered(sorted@, descending),
        sorted@.to_multiset() == comparisons@.to_multiset(),
    decreases comparisons.len(),
{
    let mut left = comparisons;
    if left.len() < 2 {
        return left;
    }
    let ghost whole = left@;
    let right = left.split_off(left.len() / 2);
    proof {
        assert(whole =~= left@ + right@);
        lemma_multiset_commutative(left@, right@);
    }
    let left = sort(left, !descending);
    let right = sort(right, !descending);
    merge(left, right, descending)
}

/// Puts the comparisons in descending order of their similarity. Nothing
/// is added and nothing is lost; the order of equally similar pairs is
/// left open.
pub fn sort_by_similarity(comparisons: Vec<Comparison>) -> (sorted: Vec<Comparison>)
    ensures
        ordered(sorted@, true),
        sorted@.to_multiset() == comparisons@.to_multiset(),
{
    sort(comparisons, true)
}

/// A path that does not lie under the root of the corpus.
#[derive(Debug)]
pub struct PathError {
    pub path: String,
}

/// A comparison as it is written out: the rounded percentage in tenths of
/// a percent, and the two paths as they read from the root of the corpus.
#[derive(Debug)]
pub struct OutputComparison {
    pub pct_similar: u16,
    pub file1: String,
    pub file2: String,
}

/// Calls `std::path::Path::strip_prefix` on the two paths and hands back
/// what is left of the first as text, or nothing where the second is no
/// prefix of it. Nothing is claimed of the result: how a path is split
/// into its components is the platform's matter.
#[verifier::external_body]
fn strip_prefix(path: &str, base: &str) -> (rest: Option<String>) {
    match std::path::Path::new(path).strip_prefix(base) {
        Ok(rest) => Some(rest.display().to_string()),
        Err(_) => None,
    }
}

/// The path as it reads from the root of the corpus, or the path itself as
/// an error where it does not lie under the root.
pub fn stripped_path(path: &str, options: &Cli) -> (r: Result<String, PathError>)
    ensures
        r matches Err(e) ==> e.path@ == path@,
{
    match strip_prefix(path, options.path.as_str()) {
        Some(rest) => Ok(rest),
        None => Err(PathError { path: path.to_owned() }),
    }
}

/// Whether a row shows a comparison: whether its percentage is that of the
/// comparison, rounded for display.
pub open spec fn shows(row: OutputComparison, comparison: Comparison) -> bool {
    comparison@.score <= unit() && row.pct_similar == display_tenths(comparison@.score)
}

/// Whether the rows show the comparisons, one for one.
pub open spec fn rows_show(rows: Seq<OutputComparison>, list: Seq<Comparison>) -> bool {
    rows.len() == list.len() && forall|i: int|
        0 <= i < rows.len() ==> shows(#[trigger] rows[i], list[i])
}

impl OutputComparison {
    /// Puts a row together from a comparison and its two paths as they were
    /// stripped. The first path that could not be stripped is the error.
    pub fn assemble(
        comparison: &Comparison,
        file1: Result<String, PathError>,
        file2: Result<String, PathError>,
    ) -> (r: Result<OutputComparison, PathError>)
        ensures
            match r {
                Ok(row) => shows(row, *comparison) && file1 == Ok::<String, PathError>(row.file1)
                    && file2 == Ok::<String, PathError>(row.file2),
                Err(e) => (file1 is Err && file1 == Err::<String, PathError>(e)) || (file1 is Ok
                    && file2 == Err::<String, PathError>(e)),
            },
    {
        proof {
            use_type_invariant(&comparison.similarity_pct.0);
            lemma_magnitude_bounded(comparison.similarity_pct.0.pattern());
        }
        match file1 {
            Ok(file1) => match file2 {
                Ok(file2) => Ok(
                    OutputComparison {
                        pct_similar: comparison.similarity_pct.rounded(),
                        file1,
                        file2,
                    },
                ),
                Err(e) => Err(e),
            },
            Err(e) => Err(e),
        }
    }

    /// The row of a comparison, or the path of it that does not lie under
    /// the root of the corpus.
    pub fn from_internal(comparison: &Comparison, options: &Cli) -> (r: Result<
        OutputComparison,
        PathError,
    >)
        ensures
            match r {
                Ok(row) => shows(row, *comparison),
                Err(e) => e.path@ == comparison.path1@ || e.path@ == comparison.path2@,
            },
    {
        let file1 = stripped_path(comparison.path1.as_str(), options);
        let file2 = stripped_path(comparison.path2.as_str(), options);
        OutputComparison::assemble(comparison, file1, file2)
    }

    /// The cells of the row in a table: the percentage with one decimal
    /// place, then the two paths.
    pub fn csv_record(&self) -> (cells: Vec<String>)
        ensures
            cells.len() == 3,
            cells[0]@ == tenths_text(self.pct_similar as nat),
            cells[1]@ == self.file1@,
            cells[2]@ == self.file2@,
    {
        let mut cells: Vec<String> = Vec::new();
        cells.push(format_tenths(self.pct_similar));
        cells.push(self.file1.clone());
        cells.push(self.file2.clone());
        cells
    }
}

/// The heading of the table.
pub fn csv_header() -> (cells: Vec<String>)
    ensures
        cells.len() == 3,
        cells[0]@ == "% similar"@,
        cells[1]@ == "File 1"@,
        cells[2]@ == "File 2"@,
{
    let mut cells: Vec<String> = Vec::new();
    cells.push(String::from_str("% similar"));
    cells.push(String::from_str("File 1"));
    cells.push(String::from_str("File 2"));
    cells
}

/// Whether the error names a path of one of the comparisons.
pub open spec fn names_path_of(e: PathError, list: Seq<Comparison>) -> bool {
    exists|i: int|
        0 <= i < list.len() && (e.path@ == (#[trigger] list[i]).path1@ || e.path@
            == list[i].path2@)
}

/// The rows of a list of comparisons, in their order. Whether a path reads
/// from the root is for the platform to say; an error names a path of the
/// list that does not, so that a list without comparisons always gives its
/// rows, none.
pub fn output(list: &Vec<Comparison>, options: &Cli) -> (r: Result<
    Vec<OutputComparison>,
    PathError,
>)
    ensures
        match r {
            Ok(rows) => rows_show(rows@, list@),
            Err(e) => names_path_of(e, list@),
        },
{
    let mut rows: Vec<OutputComparison> = Vec::new();
    let mut i: usize = 0;
    while i < list.len()
        invariant
            i <= list.len(),
            rows.len() == i,
            forall|k: int| 0 <= k < i ==> shows(#[trigger] rows[k], list[k]),
        decreases list.len() - i,
    {
        match OutputComparison::from_internal(&list[i], options) {
            Ok(row) => {
                rows.push(row);
            },
            Err(e) => {
                assert(e.path@ == list@[i as int].path1@ || e.path@ == list@[i as int].path2@);
                return Err(e);
            },
        }
        i = i + 1;
    }
    Ok(rows)
}

/// Prepares the comparisons for the writers: sorts them in descending
/// order of similarity and turns each into a row. There is one row for
/// each comparison, the rows show the same comparisons, and the
/// percentages that they show never rise from one row to the next. An
/// error names a path of one of the comparisons that does not read from
/// the root, so that without comparisons there is no error.
pub fn serialize(comparisons: Vec<Comparison>, options: &Cli) -> (r: Result<
    Vec<OutputComparison>,
    PathError,
>)
    ensures
        match r {
            Ok(rows) => {
                &&& rows.len() == comparisons.len()
                &&& exists|sorted: Seq<Comparison>|
                    ordered(sorted, true) && sorted.to_multiset() == comparisons@.to_multiset()
                        && #[trigger] rows_show(rows@, sorted)
                &&& forall|i: int, j: int|
                    0 <= i < j < rows.len() ==> rows[i].pct_similar >= rows[j].pct_similar
            },
            Err(e) => names_path_of(e, comparisons@),
        },
{
    let ghost given = comparisons@;
    let sorted = sort_by_similarity(comparisons);
    let r = output(&sorted, options);
    proof {
        sorted@.to_multiset_ensures();
        given.to_multiset_ensures();
        if r is Ok {
            let rows = r->Ok_0;
            assert(rows_show(rows@, sorted@));
            assert forall|i: int, j: int| 0 <= i < j < rows.len() implies rows[i].pct_similar
                >= rows[j].pct_similar by {
                assert(shows(rows[i], sorted[i]));
                assert(shows(rows[j], sorted[j]));
                assert(in_order(sorted[i], sorted[j], true));
                lemma_display_monotone(sorted[j]@.score, sorted[i]@.score);
            }
        } else {
            let e = r->Err_0;
            let i = choose|i: int|
                0 <= i < sorted@.len() && (e.path@ == (#[trigger] sorted@[i]).path1@ || e.path@
                    == sorted@[i].path2@);
            let culprit = sorted@[i];
            assert(sorted@.contains(culprit));
            assert(given.to_multiset().count(culprit) > 0);
            assert(given.contains(culprit));
            let j = choose|j: int| 0 <= j < given.len() && given[j] == culprit;
            assert(e.path@ == given[j].path1@ || e.path@ == given[j].path2@);
        }
    }
    r
}

} // verus!
