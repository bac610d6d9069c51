use raytracer::sampling::{
    shuffle_coordinates, shuffled_index_sets, JitteredSamplingStrategy, MultiJitteredSamplingStrategy,
    NRooksSamplingStrategy, SampleSchedule, SimpleSamplingStrategy, Stratum,
};

fn st(col: u32, row: u32, cells: u32) -> Stratum {
    Stratum { col, row, cells }
}

#[test]
fn nrooks_strata_lie_on_the_diagonal() {
    let s = NRooksSamplingStrategy::generate_strata(2, 3);
    assert_eq!(s, vec![st(0, 0, 3), st(1, 1, 3), st(2, 2, 3), st(0, 0, 3), st(1, 1, 3), st(2, 2, 3)]);
}

#[test]
fn jittered_strata_cover_the_grid() {
    let s = JitteredSamplingStrategy::generate_strata(1, 4);
    assert_eq!(s, vec![st(0, 0, 2), st(1, 0, 2), st(0, 1, 2), st(1, 1, 2)]);
}

#[test]
fn jittered_strata_use_the_truncated_root() {
    let s = JitteredSamplingStrategy::generate_strata(2, 10);
    assert_eq!(s.len(), 2 * 9);
    assert!(s.iter().all(|c| c.cells == 3));
    assert_eq!(s[9], st(0, 0, 3));
    assert_eq!(s[14], st(2, 1, 3));
}

#[test]
fn simple_strata_match_the_jittered_layout() {
    assert_eq!(SimpleSamplingStrategy::generate_strata(3, 9), JitteredSamplingStrategy::generate_strata(3, 9));
}

#[test]
fn multi_jittered_strata_are_rooks_on_the_fine_grid() {
    let s = MultiJitteredSamplingStrategy::generate_strata(1, 4);
    assert_eq!(s, vec![st(0, 0, 4), st(1, 2, 4), st(2, 1, 4), st(3, 3, 4)]);
    let s = MultiJitteredSamplingStrategy::generate_strata(1, 9);
    let mut cols: Vec<u32> = s.iter().map(|c| c.col).collect();
    let mut rows: Vec<u32> = s.iter().map(|c| c.row).collect();
    cols.sort();
    rows.sort();
    assert_eq!(cols, (0..9).collect::<Vec<u32>>());
    assert_eq!(rows, (0..9).collect::<Vec<u32>>());
}

#[test]
fn coordinate_shuffle_permutes_inside_each_set() {
    let sets = 5u32;
    let n = 7u32;
    for _ in 0..20 {
        let p = shuffle_coordinates(sets, n);
        assert_eq!(p.len(), 35);
        for (k, &v) in p.iter().enumerate() {
            assert_eq!(v / n, k as u32 / n);
        }
        let mut q = p.clone();
        q.sort();
        assert_eq!(q, (0..35).collect::<Vec<u32>>());
    }
}

#[test]
fn coordinate_shuffle_moves_something() {
    let identity: Vec<u32> = (0..64).collect();
    let moved = (0..10).any(|_| shuffle_coordinates(1, 64) != identity);
    assert!(moved);
}

#[test]
fn index_sets_are_permutations() {
    let v = shuffled_index_sets(4, 6);
    assert_eq!(v.len(), 24);
    for set in v.chunks(6) {
        let mut s = set.to_vec();
        s.sort();
        assert_eq!(s, (0..6).collect::<Vec<u32>>());
    }
    let identity: Vec<u32> = (0..50).collect();
    assert!((0..10).any(|_| shuffled_index_sets(1, 50) != identity));
}

#[test]
fn schedule_walks_one_set_per_pass() {
    let mut s = SampleSchedule::new(4, Some(3));
    assert_eq!(s.sets(), 3);
    assert_eq!(s.samples_in_set(), 4);
    let first: Vec<usize> = (0..4).map(|_| s.advance(7)).collect();
    let mut sorted = first.clone();
    sorted.sort();
    assert_eq!(sorted, vec![4, 5, 6, 7]);
    let second: Vec<usize> = (0..4).map(|i| s.advance(if i == 0 { 9 } else { 1 })).collect();
    let mut sorted = second.clone();
    sorted.sort();
    assert_eq!(sorted, vec![0, 1, 2, 3]);
}

#[test]
fn schedule_defaults_to_eighty_three_sets() {
    let mut s = SampleSchedule::new(16, None);
    assert_eq!(s.sets(), 83);
    for _ in 0..1000 {
        assert!(s.next_index() < 83 * 16);
    }
}
