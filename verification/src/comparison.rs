//! The evaluation of a pair of texts in two stages, and the collector that
//! evaluates every pair of a corpus and keeps those that qualify.

use vstd::prelude::*;
use vstd::string::StringExecFns;
use vstd::arithmetic::power2::{lemma2_to64, lemma_pow2_adds};
use crate::error::RunError;
use crate::pairs::{Pairs, all_pairs, lemma_no_self_pairs};
use crate::percentage::{display_tenths, tenths_text, Percentage};
use crate::score::{
    encodes_score, lemma_magnitude_bounded, lemma_magnitude_of_one_and_zero, score_magnitude, single_encodes_score,
    single_score_magnitude, unit, Score, ONE_BITS, SINGLE_HIDDEN_BIT, SINGLE_ONE_BITS,
};
use crate::{corpus, File, Text};

verus! {

/// The pattern of the single-precision number that `trigram::similarity`
/// returns for two texts.
pub uninterp spec fn trigram_similarity(a: Seq<char>, b: Seq<char>) -> u32;

/// The pattern of the double that `strsim::normalized_levenshtein` returns
/// for two texts.
pub uninterp spec fn normalized_levenshtein(a: Seq<char>, b: Seq<char>) -> u64;

/// The pattern of the double that `strsim::jaro` returns for two texts.
pub uninterp spec fn jaro(a: Seq<char>, b: Seq<char>) -> u64;

/// Calls `trigram::similarity`, the Jaccard similarity of the sets of
/// character trigrams of the two texts, and hands back the pattern of the
/// single-precision number it returned. Trusted: that number is a function
/// of the two texts alone, lies between zero and one, and is one where the
/// texts are equal, their sets of trigrams then being the same.
#[verifier::external_body]
fn trigram_bits(a: &str, b: &str) -> (bits: u32)
    ensures
        bits == trigram_similarity(a@, b@),
        single_encodes_score(bits),
        a@ == b@ ==> bits == SINGLE_ONE_BITS,
{
    trigram::similarity(a, b).to_bits()
}

/// Calls `strsim::normalized_levenshtein`, one less the edit distance of the
/// two texts divided by the length of the longer, and hands back the pattern
/// of the double it returned. Trusted: that number is a function of the two
/// texts alone, lies between zero and one, and is one where the texts are
/// equal, their distance then being zero.
#[verifier::external_body]
fn normalized_levenshtein_bits(a: &str, b: &str) -> (bits: u64)
    ensures
        bits == normalized_levenshtein(a@, b@),
        encodes_score(bits),
        a@ == b@ ==> bits == ONE_BITS,
{
    strsim::normalized_levenshtein(a, b).to_bits()
}

/// Calls `strsim::jaro`, the Jaro similarity of the two texts, and hands
/// back the pattern of the double it returned. Trusted: that number is a
/// function of the two texts alone, lies between zero and one, and is one
/// where the texts are equal, every character then being matched in place.
#[verifier::external_body]
fn jaro_bits(a: &str, b: &str) -> (bits: u64)
    ensures
        bits == jaro(a@, b@),
        encodes_score(bits),
        a@ == b@ ==> bits == ONE_BITS,
{
    strsim::jaro(a, b).to_bits()
}

/// The precise metric of the second stage.
#[derive(Clone, Copy, Debug, PartialEq, Eq, Structural)]
pub enum Metric {
    /// The normalized edit distance: the slowest and the most exact.
    Precise,
    /// The Jaro similarity: about twice as fast.
    Balanced,
    /// The score of the first stage, used again.
    Fast,
}

impl Metric {
    /// The metric that a speed level selects: level 0 the precise one,
    /// level 1 the balanced one, every higher level the fast one.
    pub open spec fn of_level(level: u8) -> Metric {
        if level == 0 {
            Metric::Precise
        } else if level == 1 {
            Metric::Balanced
        } else {
            Metric::Fast
        }
    }

    /// The metric that a speed level selects.
    pub fn from_level(level: u8) -> (metric: Metric)
        ensures
            metric == Metric::of_level(level),
    {
        match level {
            0 => Metric::Precise,
            1 => Metric::Balanced,
            _ => Metric::Fast,
        }
    }
}

/// What a run is configured with, once it has been validated.
#[derive(Clone, Copy, Debug)]
pub struct Settings {
    /// The score that a pair has to exceed to be reported.
    pub threshold: Score,
    /// The metric of the second stage.
    pub metric: Metric,
}

impl Settings {
    /// Validates a threshold, given as the pattern of a double, and resolves
    /// a speed level. A threshold that is no number from zero to one is a
    /// configuration error.
    pub fn new(threshold: u64, level: u8) -> (r: Result<Settings, RunError>)
        ensures
            match r {
                Ok(settings) => encodes_score(threshold) && settings.threshold.wf()
                    && settings.threshold.scaled() == score_magnitude(threshold) && settings.metric
                    == Metric::of_level(level),
                Err(e) => !encodes_score(threshold) && e == RunError::Configuration,
            },
    {
        match Score::from_bits(threshold) {
            Some(threshold) => Ok(Settings { threshold, metric: Metric::from_level(level) }),
            None => Err(RunError::Configuration),
        }
    }
}

/// The score of the first stage for two texts, as a magnitude.
pub open spec fn approximate_score(a: Seq<char>, b: Seq<char>) -> nat {
    single_score_magnitude(trigram_similarity(a, b))
}

/// The score of the second stage for two texts whose first stage gave
/// `approximate`, as a magnitude.
pub open spec fn precise_score(metric: Metric, a: Seq<char>, b: Seq<char>, approximate: nat) -> nat {
    match metric {
        Metric::Precise => score_magnitude(normalized_levenshtein(a, b)),
        Metric::Balanced => score_magnitude(jaro(a, b)),
        Metric::Fast => approximate,
    }
}

/// The first stage lets a pair pass unless its approximate score is
/// strictly below half the threshold.
pub open spec fn passes_prefilter(approximate: nat, threshold: nat) -> bool {
    2 * approximate >= threshold
}

/// What is reported of a qualifying pair, as plain values: the two paths
/// and the magnitude of the score.
pub struct Record {
    pub path1: Seq<char>,
    pub path2: Seq<char>,
    pub score: nat,
}

/// A qualifying pair: the paths of its two texts and their similarity.
#[derive(Debug)]
pub struct Comparison {
    pub path1: String,
    pub path2: String,
    pub similarity_pct: Percentage,
}

impl View for Comparison {
    type V = Record;

    open spec fn view(&self) -> Record {
        Record {
            path1: self.path1@,
            path2: self.path2@,
            score: self.similarity_pct.0.scaled(),
        }
    }
}

impl Comparison {
    /// The two paths as they are listed in the log, one to a line.
    pub open spec fn listing_text(self) -> Seq<char> {
        "  ‣ "@ + self.path1@ + "\n  ‣ "@ + self.path2@
    }

    /// What the log says of the pair above the listing: that the two files
    /// are identical, or that they are similar, and the rounded percentage.
    pub open spec fn headline_text(self, identical: bool) -> Seq<char> {
        (if identical {
            "These two files are identical ("@
        } else {
            "These two files are similar ("@
        }) + tenths_text(display_tenths(self@.score)) + "%):"@
    }

    /// The two paths as they are listed in the log, one to a line.
    pub fn listing(&self) -> (text: String)
        ensures
            text@ == self.listing_text(),
    {
        let mut text = String::from_str("  ‣ ");
        text.append(self.path1.as_str());
        text.append("\n  ‣ ");
        text.append(self.path2.as_str());
        text
    }

    /// What the log says of the pair above the listing.
    pub fn headline(&self, identical: bool) -> (text: String)
        ensures
            text@ == self.headline_text(identical),
    {
        let mut text = if identical {
            String::from_str("These two files are identical (")
        } else {
            String::from_str("These two files are similar (")
        };
        let percent = self.similarity_pct.rounded_text();
        text.append(percent.as_str());
        text.append("%):");
        text
    }
}

/// The records of a sequence of comparisons.
pub open spec fn records(found: Seq<Comparison>) -> Seq<Record> {
    found.map_values(|c: Comparison| c@)
}

/// What became of a pair, as plain values.
pub enum Verdict {
    /// The first stage rejected the pair; the second never ran.
    Skipped { approximate: nat },
    /// The precise score does not exceed the threshold.
    Different { precise: nat },
    /// The pair qualifies, with a precise score below one.
    Similar(Record),
    /// The pair qualifies, with a precise score of one.
    Identical(Record),
}

/// The classification of a pair by its precise score: it qualifies exactly
/// when that score is strictly greater than the threshold, and is then
/// called identical where the score is one, similar elsewhere.
pub open spec fn classified(
    path1: Seq<char>,
    path2: Seq<char>,
    precise: nat,
    threshold: nat,
) -> Verdict {
    if precise > threshold {
        let record = Record { path1, path2, score: precise };
        if precise >= unit() {
            Verdict::Identical(record)
        } else {
            Verdict::Similar(record)
        }
    } else {
        Verdict::Different { precise }
    }
}

/// The two stages on a pair of texts.
pub open spec fn evaluated(text1: Text, text2: Text, metric: Metric, threshold: nat) -> Verdict {
    let approximate = approximate_score(text1.content, text2.content);
    if passes_prefilter(approximate, threshold) {
        classified(
            text1.path,
            text2.path,
            precise_score(metric, text1.content, text2.content, approximate),
            threshold,
        )
    } else {
        Verdict::Skipped { approximate }
    }
}

/// The record of a verdict, if the pair qualified.
pub open spec fn record_of(verdict: Verdict) -> Option<Record> {
    match verdict {
        Verdict::Similar(record) => Some(record),
        Verdict::Identical(record) => Some(record),
        _ => None,
    }
}

/// What became of a pair.
#[derive(Debug)]
pub enum Outcome {
    /// The first stage rejected the pair; the second never ran.
    Skipped { trigram: Score },
    /// The precise score does not exceed the threshold.
    Different { similarity: Score },
    /// The pair qualifies, with a precise score below one.
    Similar(Comparison),
    /// The pair qualifies, with a precise score of one.
    Identical(Comparison),
}

impl View for Outcome {
    type V = Verdict;

    open spec fn view(&self) -> Verdict {
        match self {
            Outcome::Skipped { trigram } => Verdict::Skipped { approximate: trigram.scaled() },
            Outcome::Different { similarity } => Verdict::Different {
                precise: similarity.scaled(),
            },
            Outcome::Similar(comparison) => Verdict::Similar(comparison@),
            Outcome::Identical(comparison) => Verdict::Identical(comparison@),
        }
    }
}

impl Outcome {
    /// What the log says of a qualifying pair above its listing; nothing of
    /// a pair that does not qualify.
    pub fn headline(&self) -> (text: Option<String>)
        ensures
            match self {
                Outcome::Identical(comparison) => text matches Some(line) && line@
                    == comparison.headline_text(true),
                Outcome::Similar(comparison) => text matches Some(line) && line@
                    == comparison.headline_text(false),
                _ => text is None,
            },
    {
        match self {
            Outcome::Identical(comparison) => Some(comparison.headline(true)),
            Outcome::Similar(comparison) => Some(comparison.headline(false)),
            _ => None,
        }
    }

    /// The comparison of a qualifying pair, nothing of any other.
    pub fn record(self) -> (found: Option<Comparison>)
        ensures
            found.is_some() == record_of(self@).is_some(),
            found matches Some(comparison) ==> record_of(self@) == Some(comparison@),
    {
        match self {
            Outcome::Similar(comparison) => Some(comparison),
            Outcome::Identical(comparison) => Some(comparison),
            _ => None,
        }
    }
}

/// Two texts on their way through the stages, with the score of the first.
pub struct ComparedPair<'a> {
    pub file1: &'a File,
    pub file2: &'a File,
    pub trigram: Score,
}

impl<'a> ComparedPair<'a> {
    /// Runs the first stage on two texts.
    pub fn new(file1: &'a File, file2: &'a File) -> (pair: ComparedPair<'a>)
        ensures
            pair.file1 == file1,
            pair.file2 == file2,
            pair.trigram.wf(),
            pair.trigram.scaled() == approximate_score(file1.content@, file2.content@),
            file1.content@ == file2.content@ ==> pair.trigram.scaled() == unit(),
    {
        let bits: u32 = trigram_bits(file1.content.as_str(), file2.content.as_str());
        let trigram = Score::from_single_bits(bits).unwrap();
        proof {
            if file1.content@ == file2.content@ {
                lemma_single_one();
            }
        }
        ComparedPair { file1, file2, trigram }
    }

    /// Whether the pair passes the first stage: whether its approximate
    /// score is at least half the threshold.
    pub fn trigram_preselect(&self, settings: &Settings) -> (passes: bool)
        ensures
            passes == passes_prefilter(self.trigram.scaled(), settings.threshold.scaled()),
    {
        !self.trigram.below_half_of(&settings.threshold)
    }
}

/// The single-precision number one is the number one.
proof fn lemma_single_one()
    ensures
        single_score_magnitude(SINGLE_ONE_BITS) == unit(),
{
    lemma2_to64();
    lemma_pow2_adds(23, 126);
    lemma_pow2_adds(149, 925);
    assert(SINGLE_ONE_BITS / SINGLE_HIDDEN_BIT == 127);
    assert(SINGLE_ONE_BITS % SINGLE_HIDDEN_BIT == 0);
}

/// Runs the second stage on a pair: computes the precise score with the
/// given metric, the fast one taking the score of the first stage over.
pub fn precise_similarity(pair: &ComparedPair, metric: Metric) -> (similarity: Score)
    ensures
        similarity.wf(),
        similarity.scaled() == precise_score(
            metric,
            pair.file1.content@,
            pair.file2.content@,
            pair.trigram.scaled(),
        ),
        metric != Metric::Fast && pair.file1.content@ == pair.file2.content@
            ==> similarity.scaled() == unit(),
{
    proof {
        use_type_invariant(&pair.trigram);
        lemma_magnitude_of_one_and_zero();
    }
    match metric {
        Metric::Precise => {
            let bits: u64 = normalized_levenshtein_bits(
                pair.file1.content.as_str(),
                pair.file2.content.as_str(),
            );
            Score::from_bits(bits).unwrap()
        },
        Metric::Balanced => {
            let bits: u64 = jaro_bits(pair.file1.content.as_str(), pair.file2.content.as_str());
            Score::from_bits(bits).unwrap()
        },
        Metric::Fast => pair.trigram,
    }
}

/// Classifies a pair by its precise score.
pub fn classify(pair: &ComparedPair, similarity: Score, threshold: &Score) -> (outcome: Outcome)
    ensures
        outcome@ == classified(
            pair.file1.path@,
            pair.file2.path@,
            similarity.scaled(),
            threshold.scaled(),
        ),
{
    proof {
        use_type_invariant(&similarity);
        lemma_magnitude_bounded(similarity.pattern());
    }
    if similarity.exceeds(threshold) {
        let comparison = Comparison {
            path1: pair.file1.path.clone(),
            path2: pair.file2.path.clone(),
            similarity_pct: Percentage::from(similarity),
        };
        if similarity.is_one() {
            Outcome::Identical(comparison)
        } else {
            Outcome::Similar(comparison)
        }
    } else {
        Outcome::Different { similarity }
    }
}

/// Runs the second stage on a pair that passed the first, and hands back
/// the comparison if the pair qualifies.
pub fn compare_files(pair: &ComparedPair, settings: &Settings) -> (found: Option<Comparison>)
    ensures
        found.is_some() == (precise_score(
            settings.metric,
            pair.file1.content@,
            pair.file2.content@,
            pair.trigram.scaled(),
        ) > settings.threshold.scaled()),
        found matches Some(comparison) ==> comparison@ == (Record {
            path1: pair.file1.path@,
            path2: pair.file2.path@,
            score: precise_score(
                settings.metric,
                pair.file1.content@,
                pair.file2.content@,
                pair.trigram.scaled(),
            ),
        }),
{
    let similarity = precise_similarity(pair, settings.metric);
    classify(pair, similarity, &settings.threshold).record()
}

/// Runs both stages on two texts: the first, and the second only if the
/// first lets the pair pass. Two texts of equal content are identical under
/// every metric, unless the threshold is one, which nothing exceeds.
pub fn evaluate(file1: &File, file2: &File, settings: &Settings) -> (outcome: Outcome)
    ensures
        outcome@ == evaluated(file1@, file2@, settings.metric, settings.threshold.scaled()),
        file1.content@ == file2.content@ && settings.threshold.scaled() < unit() ==> outcome@
            == Verdict::Identical(
            Record { path1: file1.path@, path2: file2.path@, score: unit() },
        ),
{
    proof {
        use_type_invariant(&settings.threshold);
        lemma_magnitude_bounded(settings.threshold.pattern());
    }
    let pair = ComparedPair::new(file1, file2);
    if pair.trigram_preselect(settings) {
        let similarity = precise_similarity(&pair, settings.metric);
        classify(&pair, similarity, &settings.threshold)
    } else {
        Outcome::Skipped { trigram: pair.trigram }
    }
}

/// The records of the qualifying pairs among `pairs`, in their order.
pub open spec fn qualifying(
    texts: Seq<Text>,
    pairs: Seq<(usize, usize)>,
    metric: Metric,
    threshold: nat,
) -> Seq<Record>
    decreases pairs.len(),
{
    if pairs.len() == 0 {
        Seq::empty()
    } else {
        let earlier = qualifying(texts, pairs.drop_last(), metric, threshold);
        let (first, second) = pairs.last();
        match record_of(evaluated(texts[first as int], texts[second as int], metric, threshold)) {
            Some(record) => earlier.push(record),
            None => earlier,
        }
    }
}

/// Raising the threshold never lets a pair qualify that did not before: of
/// the same pairs, at most as many qualify under the higher threshold.
pub proof fn lemma_threshold_monotone(
    texts: Seq<Text>,
    pairs: Seq<(usize, usize)>,
    metric: Metric,
    low: nat,
    high: nat,
)
    requires
        low <= high,
    ensures
        qualifying(texts, pairs, metric, high).len() <= qualifying(texts, pairs, metric, low).len(),
    decreases pairs.len(),
{
    if pairs.len() > 0 {
        lemma_threshold_monotone(texts, pairs.drop_last(), metric, low, high);
    }
}

/// Evaluates every pair of the corpus, one after the other, and collects the
/// comparisons of those that qualify, in the order of the pairs.
pub fn comparisons(files: &Vec<File>, settings: &Settings) -> (found: Vec<Comparison>)
    ensures
        records(found@) == qualifying(
            corpus(files@),
            all_pairs(files.len()),
            settings.metric,
            settings.threshold.scaled(),
        ),
{
    let mut found: Vec<Comparison> = Vec::new();
    let mut pairs = match Pairs::new(files.len()) {
        Ok(pairs) => pairs,
        Err(_) => {
            assert(records(found@) =~= Seq::<Record>::empty());
            return found;
        },
    };
    let ghost mut done: Seq<(usize, usize)> = Seq::empty();
    assert(records(found@) =~= Seq::<Record>::empty());
    assert(done + pairs.remaining() =~= all_pairs(files.len()));
    loop
        invariant
            done + pairs.remaining() == all_pairs(files.len()),
            records(found@) == qualifying(
                corpus(files@),
                done,
                settings.metric,
                settings.threshold.scaled(),
            ),
        ensures
            records(found@) == qualifying(
                corpus(files@),
                all_pairs(files.len()),
                settings.metric,
                settings.threshold.scaled(),
            ),
        decreases pairs.remaining().len(),
    {
        let ghost before = pairs.remaining();
        match pairs.next() {
            None => {
                assert(done =~= all_pairs(files.len()));
                break ;
            },
            Some((first, second)) => {
                proof {
                    assert(all_pairs(files.len())[done.len() as int] == before[0]);
                    lemma_no_self_pairs(files.len(), done.len() as int);
                }
                let ghost earlier = records(found@);
                let outcome = evaluate(&files[first], &files[second], settings);
                match outcome.record() {
                    Some(comparison) => {
                        found.push(comparison);
                        assert(records(found@) =~= earlier.push(comparison@));
                    },
                    None => {},
                }
                proof {
                    let extended = done.push((first, second));
                    assert(extended.drop_last() =~= done);
                    assert(extended + pairs.remaining() =~= all_pairs(files.len()));
                    done = extended;
                }
            },
        }
    }
    found
}

} // verus!
