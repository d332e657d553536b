use near_facsimile::cli::Cli;
use near_facsimile::comparison::Comparison;
use near_facsimile::percentage::Percentage;
use near_facsimile::score::Score;
use near_facsimile::serialize::{
    csv_header, output, serialize, sort_by_similarity, stripped_path, OutputComparison,
};

fn options(root: &str) -> Cli {
    Cli {
        path: root.to_string(),
        threshold: 0.85f64.to_bits(),
        fast: 0,
        verbose: 0,
        csv: None,
        json: None,
        ignore_file: Vec::new(),
        ignore_ext: Vec::new(),
        require_file: Vec::new(),
        require_ext: Vec::new(),
        skip_lines: Vec::new(),
        progress: false,
    }
}

fn comparison(path1: &str, path2: &str, fraction: f64) -> Comparison {
    Comparison {
        path1: path1.to_string(),
        path2: path2.to_string(),
        similarity_pct: Percentage::from(Score::from_bits(fraction.to_bits()).unwrap()),
    }
}

fn fractions(list: &[Comparison]) -> Vec<f64> {
    list.iter().map(|c| f64::from_bits(c.similarity_pct.0.bits())).collect()
}

#[test]
fn sorting_is_descending_and_keeps_everything() {
    let mut seed: u64 = 0x2545_F491_4F6C_DD1D;
    for length in [0usize, 1, 2, 3, 4, 5, 8, 13, 64, 257] {
        let mut list = Vec::new();
        for k in 0..length {
            seed ^= seed << 13;
            seed ^= seed >> 7;
            seed ^= seed << 17;
            let fraction = ((seed % 1001) as f64) / 1000.0;
            list.push(comparison(&format!("a{}", k), &format!("b{}", k), fraction));
        }
        let mut expected: Vec<(u64, String)> =
            list.iter().map(|c| (c.similarity_pct.0.bits(), c.path1.clone())).collect();
        let sorted = sort_by_similarity(list);
        assert_eq!(length, sorted.len());
        for pair in sorted.windows(2) {
            assert!(pair[0].similarity_pct.0.bits() >= pair[1].similarity_pct.0.bits());
        }
        let mut got: Vec<(u64, String)> =
            sorted.iter().map(|c| (c.similarity_pct.0.bits(), c.path1.clone())).collect();
        expected.sort();
        got.sort();
        assert_eq!(expected, got);
    }
}

#[test]
fn sorting_small_lists() {
    let list = vec![
        comparison("a", "b", 0.9),
        comparison("a", "c", 1.0),
        comparison("b", "c", 0.86),
        comparison("b", "d", 0.999),
    ];
    assert_eq!(vec![1.0, 0.999, 0.9, 0.86], fractions(&sort_by_similarity(list)));
}

#[test]
fn paths_read_from_the_root() {
    let with = options("/srv/docs");
    assert_eq!("guide/a.adoc", stripped_path("/srv/docs/guide/a.adoc", &with).unwrap());
    assert_eq!("a.adoc", stripped_path("/srv/docs/a.adoc", &with).unwrap());
    assert_eq!("/srv/other/a.adoc", stripped_path("/srv/other/a.adoc", &with).unwrap_err().path);
    assert_eq!("/srv/docs2/a.adoc", stripped_path("/srv/docs2/a.adoc", &with).unwrap_err().path);
    assert_eq!("x/a.adoc", stripped_path("./x/a.adoc", &options(".")).unwrap());
}

#[test]
fn rows_carry_the_rounded_percentage() {
    let with = options("docs");
    let row = OutputComparison::from_internal(&comparison("docs/a", "docs/b/c", 0.99999), &with)
        .unwrap();
    assert_eq!(999, row.pct_similar);
    assert_eq!("a", row.file1);
    assert_eq!("b/c", row.file2);
    assert_eq!(vec!["99.9", "a", "b/c"], row.csv_record());
    let row = OutputComparison::from_internal(&comparison("docs/a", "docs/b", 1.0), &with).unwrap();
    assert_eq!(vec!["100.0", "a", "b"], row.csv_record());
    let row = OutputComparison::from_internal(&comparison("docs/a", "docs/b", 0.9), &with).unwrap();
    assert_eq!(vec!["90.0", "a", "b"], row.csv_record());
}

#[test]
fn the_first_foreign_path_is_the_error() {
    let with = options("docs");
    let error =
        OutputComparison::from_internal(&comparison("else/a", "docs/b", 0.9), &with).unwrap_err();
    assert_eq!("else/a", error.path);
    let error =
        OutputComparison::from_internal(&comparison("docs/a", "else/b", 0.9), &with).unwrap_err();
    assert_eq!("else/b", error.path);
    let error =
        OutputComparison::from_internal(&comparison("else/a", "else/b", 0.9), &with).unwrap_err();
    assert_eq!("else/a", error.path);
    let error = OutputComparison::assemble(
        &comparison("docs/a", "docs/b", 0.9),
        stripped_path("docs/a", &with),
        stripped_path("else/b", &with),
    )
    .unwrap_err();
    assert_eq!("else/b", error.path);
}

#[test]
fn heading_of_the_table() {
    assert_eq!(vec!["% similar", "File 1", "File 2"], csv_header());
}

#[test]
fn rows_keep_the_order_given() {
    let with = options("docs");
    let list = vec![comparison("docs/a", "docs/b", 0.9), comparison("docs/a", "docs/c", 1.0)];
    let rows = output(&list, &with).unwrap();
    assert_eq!(2, rows.len());
    assert_eq!((900, "b"), (rows[0].pct_similar, rows[0].file2.as_str()));
    assert_eq!((1000, "c"), (rows[1].pct_similar, rows[1].file2.as_str()));
    let list = vec![comparison("docs/a", "docs/b", 0.9), comparison("no/a", "docs/c", 1.0)];
    assert_eq!("no/a", output(&list, &with).unwrap_err().path);
}

#[test]
fn serialized_rows_are_sorted() {
    let with = options("docs");
    let list = vec![
        comparison("docs/a", "docs/b", 0.9),
        comparison("docs/a", "docs/c", 1.0),
        comparison("docs/b", "docs/c", 0.86),
        comparison("docs/b", "docs/d", 0.99996),
        comparison("docs/c", "docs/d", 0.99949),
    ];
    let rows = serialize(list, &with).unwrap();
    let shown: Vec<(u16, &str, &str)> =
        rows.iter().map(|r| (r.pct_similar, r.file1.as_str(), r.file2.as_str())).collect();
    assert_eq!(
        vec![
            (1000, "a", "c"),
            (999, "b", "d"),
            (999, "c", "d"),
            (900, "a", "b"),
            (860, "b", "c"),
        ],
        shown
    );
    assert!(serialize(Vec::new(), &with).unwrap().is_empty());
    let list = vec![comparison("docs/a", "other/b", 0.9)];
    assert_eq!("other/b", serialize(list, &with).unwrap_err().path);
}

#[test]
fn nothing_to_write_is_no_error() {
    // No path is looked at, so no root can be the wrong one.
    for root in ["docs", "", "/nowhere/at/all"] {
        assert!(output(&Vec::new(), &options(root)).unwrap().is_empty());
        assert!(serialize(Vec::new(), &options(root)).unwrap().is_empty());
    }
}

#[test]
fn an_error_names_a_path_that_was_given() {
    let with = options("docs");
    let list = vec![
        comparison("docs/a", "docs/b", 0.9),
        comparison("docs/c", "far/d", 0.95),
        comparison("docs/e", "docs/f", 1.0),
    ];
    assert_eq!("far/d", output(&list, &with).unwrap_err().path);
    assert_eq!("far/d", serialize(list, &with).unwrap_err().path);
    let list = vec![comparison("docs/a", "docs/b", 0.9), comparison("docs/c", "docs/d", 0.95)];
    assert_eq!(2, serialize(list, &with).unwrap().len());
}
