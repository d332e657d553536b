use near_facsimile::cli::Cli;
use near_facsimile::comparison::{
    classify, compare_files, comparisons, evaluate, precise_similarity, ComparedPair, Metric,
    Outcome, Settings,
};
use near_facsimile::error::RunError;
use near_facsimile::run;
use near_facsimile::score::Score;
use near_facsimile::File;

fn file(path: &str, content: &str) -> File {
    File { path: path.to_string(), content: content.to_string() }
}

fn settings(threshold: f64, level: u8) -> Settings {
    Settings::new(threshold.to_bits(), level).unwrap()
}

fn options(threshold: f64, level: u8) -> Cli {
    Cli {
        path: ".".to_string(),
        threshold: threshold.to_bits(),
        fast: level,
        verbose: 0,
        csv: None,
        json: None,
        ignore_file: Vec::new(),
        ignore_ext: Vec::new(),
        require_file: Vec::new(),
        require_ext: Vec::new(),
        skip_lines: Vec::new(),
        progress: false,
    }
}

fn score(fraction: f64) -> Score {
    Score::from_bits(fraction.to_bits()).unwrap()
}

fn corpus() -> Vec<File> {
    vec![
        file("docs/a.adoc", "The quick brown fox jumps over the lazy dog."),
        file("docs/b.adoc", "The quick brown fox jumps over the lazy dog!"),
        file("docs/c.adoc", "The quick brown fox jumped over a lazy dog."),
        file("docs/d.adoc", "A quick brown dog jumps over the lazy fox."),
        file("docs/e.adoc", "Completely unrelated content lives in this file."),
        file("docs/f.adoc", "The quick brown fox jumps over the lazy dog."),
        file("docs/g.adoc", ""),
    ]
}

#[test]
fn hello_world_scenario() {
    let files = vec![file("A", "hello world"), file("B", "hello world"), file("C", "xyz123")];
    let found = run(files, &options(0.85, 0)).unwrap();
    assert_eq!(1, found.len());
    assert_eq!("A", found[0].path1);
    assert_eq!("B", found[0].path2);
    assert_eq!(1000, found[0].similarity_pct.rounded());
    assert_eq!("100.0", found[0].similarity_pct.rounded_text());
}

#[test]
fn threshold_above_one_is_a_configuration_error() {
    let files = vec![file("A", "hello world"), file("B", "hello world")];
    assert!(matches!(run(files, &options(1.1, 0)), Err(RunError::Configuration)));
}

#[test]
fn threshold_is_checked_before_the_corpus() {
    assert!(matches!(run(vec![file("A", "x")], &options(1.1, 0)), Err(RunError::Configuration)));
    assert!(matches!(run(Vec::new(), &options(-0.5, 0)), Err(RunError::Configuration)));
    assert!(matches!(run(Vec::new(), &options(f64::NAN, 0)), Err(RunError::Configuration)));
    assert!(matches!(
        run(Vec::new(), &options(f64::INFINITY, 2)),
        Err(RunError::Configuration)
    ));
}

#[test]
fn corpus_of_one_is_insufficient() {
    assert!(matches!(
        run(vec![file("A", "hello world")], &options(0.85, 0)),
        Err(RunError::InsufficientInput)
    ));
    assert!(matches!(run(Vec::new(), &options(0.85, 0)), Err(RunError::InsufficientInput)));
}

#[test]
fn thresholds_at_the_ends_are_accepted() {
    let files = vec![file("A", "hello world"), file("B", "hello world")];
    assert_eq!(1, run(files, &options(0.0, 0)).unwrap().len());
    let files = vec![file("A", "hello world"), file("B", "hello world")];
    // Nothing is strictly above one.
    assert_eq!(0, run(files, &options(1.0, 0)).unwrap().len());
    let files = vec![file("A", "hello world"), file("B", "hello world")];
    assert_eq!(1, run(files, &options(-0.0, 0)).unwrap().len());
}

#[test]
fn error_messages() {
    assert_eq!(
        "The similarity threshold must be between 0.0 and 100.0.",
        RunError::Configuration.message()
    );
    assert_eq!(
        "Too few files that match the settings to compare in this directory.",
        RunError::InsufficientInput.message()
    );
}

#[test]
fn levels_select_metrics() {
    assert_eq!(Metric::Precise, Metric::from_level(0));
    assert_eq!(Metric::Balanced, Metric::from_level(1));
    assert_eq!(Metric::Fast, Metric::from_level(2));
    assert_eq!(Metric::Fast, Metric::from_level(255));
    assert_eq!(Metric::Balanced, settings(0.5, 1).metric);
    assert_eq!(0.5f64.to_bits(), settings(0.5, 1).threshold.bits());
    assert!(matches!(Settings::new(2.0f64.to_bits(), 0), Err(RunError::Configuration)));
}

#[test]
fn first_stage_is_the_trigram_similarity() {
    let files = corpus();
    for a in &files {
        for b in &files {
            let pair = ComparedPair::new(a, b);
            let expected = f64::from(trigram::similarity(&a.content, &b.content));
            assert_eq!(expected.to_bits(), pair.trigram.bits());
        }
    }
    let pair = ComparedPair::new(&files[0], &files[2]);
    assert!(0.0 < f64::from_bits(pair.trigram.bits()));
    assert!(f64::from_bits(pair.trigram.bits()) < 1.0);
}

#[test]
fn second_stage_is_the_configured_metric() {
    let files = corpus();
    for a in &files {
        for b in &files {
            let pair = ComparedPair::new(a, b);
            assert_eq!(
                strsim::normalized_levenshtein(&a.content, &b.content).to_bits(),
                precise_similarity(&pair, Metric::Precise).bits()
            );
            assert_eq!(
                strsim::jaro(&a.content, &b.content).to_bits(),
                precise_similarity(&pair, Metric::Balanced).bits()
            );
            assert_eq!(pair.trigram.bits(), precise_similarity(&pair, Metric::Fast).bits());
        }
    }
    let kitten = file("k", "kitten");
    let sitting = file("s", "sitting");
    let pair = ComparedPair::new(&kitten, &sitting);
    assert_eq!(
        (1.0f64 - 3.0 / 7.0).to_bits(),
        precise_similarity(&pair, Metric::Precise).bits()
    );
}

#[test]
fn identical_texts_score_one_under_every_metric() {
    for content in ["", "a", "hello world", "line one\nline two\n", "ünï çödé ‣"] {
        let a = file("a", content);
        let b = file("b", content);
        let pair = ComparedPair::new(&a, &b);
        assert!(pair.trigram.is_one());
        for level in 0..4u8 {
            assert!(precise_similarity(&pair, Metric::from_level(level)).is_one());
            match evaluate(&a, &b, &settings(0.85, level)) {
                Outcome::Identical(comparison) => {
                    assert_eq!(1000, comparison.similarity_pct.rounded());
                    assert_eq!("a", comparison.path1);
                    assert_eq!("b", comparison.path2);
                }
                other => panic!("{:?}", other),
            }
            // One is not strictly above one.
            assert!(matches!(
                evaluate(&a, &b, &settings(1.0, level)),
                Outcome::Different { .. }
            ));
        }
    }
}

#[test]
fn prefilter_rejects_below_half_the_threshold() {
    let a = file("a", "hello world");
    let pair_score = |trigram: f64| ComparedPair { file1: &a, file2: &a, trigram: score(trigram) };
    let at = settings(0.85, 0);
    assert!(!pair_score(0.4249).trigram_preselect(&at));
    assert!(pair_score(0.425).trigram_preselect(&at));
    assert!(pair_score(0.4251).trigram_preselect(&at));
    assert!(pair_score(1.0).trigram_preselect(&at));
    assert!(!pair_score(0.0).trigram_preselect(&at));
    // With a threshold of zero nothing is below half of it.
    assert!(pair_score(0.0).trigram_preselect(&settings(0.0, 0)));
}

#[test]
fn second_stage_never_runs_on_a_rejected_pair() {
    let files = corpus();
    for level in 0..3u8 {
        for threshold in [0.0, 0.3, 0.6, 0.85, 1.0] {
            let at = settings(threshold, level);
            let mut evaluations = 0;
            let mut passed = 0;
            for a in &files {
                for b in &files {
                    let trigram = f64::from(trigram::similarity(&a.content, &b.content));
                    let rejected = trigram < threshold / 2.0;
                    if !rejected {
                        passed += 1;
                    }
                    match evaluate(a, b, &at) {
                        Outcome::Skipped { trigram: carried } => {
                            assert!(rejected);
                            assert_eq!(trigram.to_bits(), carried.bits());
                        }
                        _ => {
                            assert!(!rejected);
                            evaluations += 1;
                        }
                    }
                }
            }
            assert_eq!(passed, evaluations);
        }
    }
    let a = file("a", "hello world");
    let c = file("c", "xyz123");
    assert!(matches!(evaluate(&a, &c, &settings(0.85, 0)), Outcome::Skipped { .. }));
}

#[test]
fn a_pair_qualifies_strictly_above_the_threshold() {
    let a = file("a", "hello world");
    let b = file("b", "hello word");
    let pair = ComparedPair { file1: &a, file2: &b, trigram: score(0.5) };
    let threshold = score(0.85);
    assert!(matches!(classify(&pair, score(0.85), &threshold), Outcome::Different { .. }));
    assert!(matches!(classify(&pair, score(0.84), &threshold), Outcome::Different { .. }));
    assert!(matches!(classify(&pair, score(0.0), &threshold), Outcome::Different { .. }));
    match classify(&pair, score(0.8500001), &threshold) {
        Outcome::Similar(comparison) => {
            assert_eq!("a", comparison.path1);
            assert_eq!("b", comparison.path2);
            assert_eq!(850, comparison.similarity_pct.rounded());
            assert_eq!(0.8500001f64.to_bits(), comparison.similarity_pct.0.bits());
        }
        other => panic!("{:?}", other),
    }
    assert!(matches!(classify(&pair, score(0.9999999), &threshold), Outcome::Similar(_)));
    assert!(matches!(classify(&pair, score(1.0), &threshold), Outcome::Identical(_)));
    match classify(&pair, score(0.3), &threshold) {
        Outcome::Different { similarity } => assert_eq!(0.3f64.to_bits(), similarity.bits()),
        other => panic!("{:?}", other),
    }
}

#[test]
fn compare_files_reuses_the_first_stage_at_the_fast_level() {
    let a = file("a", "hello world");
    let b = file("b", "something else entirely");
    // The score carried by the pair is what the fast level classifies.
    let pair = ComparedPair { file1: &a, file2: &b, trigram: score(0.95) };
    let found = compare_files(&pair, &settings(0.85, 2)).unwrap();
    assert_eq!(950, found.similarity_pct.rounded());
    assert!(compare_files(&pair, &settings(0.85, 0)).is_none());
    assert!(compare_files(&pair, &settings(0.96, 7)).is_none());
}

#[test]
fn records_follow_the_order_of_the_pairs() {
    let files = corpus();
    let found = comparisons(&files, &settings(0.0, 0));
    let mut expected = Vec::new();
    for i in 0..files.len() {
        for j in i + 1..files.len() {
            let similarity = strsim::normalized_levenshtein(&files[i].content, &files[j].content);
            if similarity > 0.0 {
                expected.push((files[i].path.clone(), files[j].path.clone(), similarity));
            }
        }
    }
    assert_eq!(expected.len(), found.len());
    for (record, (path1, path2, similarity)) in found.iter().zip(expected) {
        assert_eq!(path1, record.path1);
        assert_eq!(path2, record.path2);
        assert_eq!(similarity.to_bits(), record.similarity_pct.0.bits());
    }
}

#[test]
fn collector_agrees_with_the_two_stages_run_by_hand() {
    let files = corpus();
    for level in 0..3u8 {
        for threshold in [0.0, 0.2, 0.5, 0.85, 0.95, 1.0] {
            let found = comparisons(&files, &settings(threshold, level));
            let mut expected = 0;
            for i in 0..files.len() {
                for j in i + 1..files.len() {
                    let (a, b) = (&files[i].content, &files[j].content);
                    let trigram = f64::from(trigram::similarity(a, b));
                    if trigram < threshold / 2.0 {
                        continue;
                    }
                    let similarity = match level {
                        0 => strsim::normalized_levenshtein(a, b),
                        1 => strsim::jaro(a, b),
                        _ => trigram,
                    };
                    if similarity > threshold {
                        expected += 1;
                    }
                }
            }
            assert_eq!(expected, found.len(), "level {} threshold {}", level, threshold);
        }
    }
}

#[test]
fn raising_the_threshold_never_finds_more() {
    let files = corpus();
    for level in 0..3u8 {
        let mut before = usize::MAX;
        let mut k = 0;
        while k <= 100 {
            let threshold = f64::from(k) / 100.0;
            let count = comparisons(&files, &settings(threshold, level)).len();
            assert!(count <= before);
            before = count;
            k += 1;
        }
    }
}

#[test]
fn corpus_without_pairs_gives_nothing() {
    assert!(comparisons(&Vec::new(), &settings(0.0, 0)).is_empty());
    assert!(comparisons(&vec![file("a", "x")], &settings(0.0, 0)).is_empty());
}

#[test]
fn log_lines_name_the_kind_and_the_paths() {
    let a = file("docs/a.adoc", "same");
    let b = file("docs/b.adoc", "same");
    let outcome = evaluate(&a, &b, &settings(0.85, 0));
    assert_eq!(Some("These two files are identical (100.0%):".to_string()), outcome.headline());
    let comparison = outcome.record().unwrap();
    assert_eq!("  ‣ docs/a.adoc\n  ‣ docs/b.adoc", comparison.listing());
    assert_eq!("These two files are similar (100.0%):", comparison.headline(false));
    let pair = ComparedPair { file1: &a, file2: &b, trigram: score(0.5) };
    let outcome = classify(&pair, score(0.99999), &score(0.85));
    assert_eq!(Some("These two files are similar (99.9%):".to_string()), outcome.headline());
    let outcome = classify(&pair, score(0.5), &score(0.85));
    assert_eq!(None, outcome.headline());
    assert!(outcome.record().is_none());
    let c = file("c", "xyz123");
    assert_eq!(None, evaluate(&a, &c, &settings(0.85, 0)).headline());
}
