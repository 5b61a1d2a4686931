use lootgen::select::{pick_index, select_weighted, total_weight};
use lootgen::GenError;

#[test]
fn total_weight_sums_the_table() {
    assert_eq!(total_weight(&vec![]), 0);
    assert_eq!(total_weight(&vec![2, 3, 5]), 10);
}

#[test]
fn pick_index_maps_each_draw_to_its_block() {
    let ws: Vec<u64> = vec![2, 3];
    assert_eq!(pick_index(&ws, 0), 0);
    assert_eq!(pick_index(&ws, 1), 0);
    assert_eq!(pick_index(&ws, 2), 1);
    assert_eq!(pick_index(&ws, 3), 1);
    assert_eq!(pick_index(&ws, 4), 1);
}

#[test]
fn pick_index_skips_zero_weight_candidates() {
    let ws: Vec<u64> = vec![0, 5, 0, 2];
    for r in 0..5 {
        assert_eq!(pick_index(&ws, r), 1);
    }
    for r in 5..7 {
        assert_eq!(pick_index(&ws, r), 3);
    }
}

#[test]
fn select_weighted_rejects_empty_table() {
    let ws: Vec<u64> = vec![];
    assert_eq!(select_weighted(&ws), Err(GenError::InvalidDistribution));
}

#[test]
fn select_weighted_rejects_all_zero_weights() {
    let ws: Vec<u64> = vec![0, 0, 0];
    assert_eq!(select_weighted(&ws), Err(GenError::InvalidDistribution));
}

#[test]
fn select_weighted_never_picks_zero_weight() {
    let ws: Vec<u64> = vec![0, 0, 7];
    for _ in 0..200 {
        assert_eq!(select_weighted(&ws), Ok(2));
    }
}

#[test]
fn select_weighted_frequency_tracks_weights() {
    // weights 1 and 3: the second candidate should take about three
    // quarters of a large sample
    let ws: Vec<u64> = vec![1, 3];
    let n = 20000;
    let mut second = 0u64;
    for _ in 0..n {
        match select_weighted(&ws).unwrap() {
            0 => {}
            1 => second += 1,
            _ => unreachable!(),
        }
    }
    let freq = second as f64 / n as f64;
    assert!((freq - 0.75).abs() < 0.05, "frequency was {}", freq);
}
