use near_facsimile::error::RunError;
use near_facsimile::pairs::Pairs;

fn all(units: usize) -> Vec<(usize, usize)> {
    let mut pairs = Pairs::new(units).unwrap();
    let mut found = Vec::new();
    while let Some(pair) = pairs.next() {
        found.push(pair);
    }
    assert_eq!(None, pairs.next());
    found
}

#[test]
fn too_small_a_corpus_has_no_generator() {
    assert!(matches!(Pairs::new(0), Err(RunError::InsufficientInput)));
    assert!(matches!(Pairs::new(1), Err(RunError::InsufficientInput)));
    assert!(Pairs::new(2).is_ok());
}

#[test]
fn every_pair_comes_exactly_once() {
    for units in 2..40usize {
        let found = all(units);
        assert_eq!(units * (units - 1) / 2, found.len());
        for (k, &(a, b)) in found.iter().enumerate() {
            assert!(a < b && b < units);
            for &(c, d) in &found[k + 1..] {
                assert!((a, b) != (c, d) && (a, b) != (d, c));
            }
        }
        for a in 0..units {
            for b in a + 1..units {
                assert!(found.contains(&(a, b)));
            }
        }
    }
}

#[test]
fn pairs_come_row_by_row() {
    assert_eq!(vec![(0, 1)], all(2));
    assert_eq!(vec![(0, 1), (0, 2), (1, 2)], all(3));
    assert_eq!(vec![(0, 1), (0, 2), (0, 3), (1, 2), (1, 3), (2, 3)], all(4));
}

#[test]
fn the_count_of_what_is_left_goes_down_by_one() {
    let mut pairs = Pairs::new(7).unwrap();
    let mut left: u128 = 21;
    assert_eq!(left, pairs.len());
    while pairs.next().is_some() {
        left -= 1;
        assert_eq!(left, pairs.len());
    }
    assert_eq!(0, pairs.len());
}

#[test]
fn the_count_fits_for_the_largest_corpus() {
    let pairs = Pairs::new(usize::MAX).unwrap();
    let units = usize::MAX as u128;
    assert_eq!(units * (units - 1) / 2, pairs.len());
}
