use raytracer::perlin::{gen_shuffled_vec, PerlinLattice};

#[test]
fn shuffled_vec_is_a_permutation() {
    let mut v = gen_shuffled_vec(256);
    assert_eq!(v.len(), 256);
    let identity: Vec<i32> = (0..256).collect();
    let moved = v != identity || gen_shuffled_vec(256) != identity;
    assert!(moved);
    v.sort();
    assert_eq!(v, identity);
    assert_eq!(gen_shuffled_vec(0), Vec::<i32>::new());
}

#[test]
fn lattice_corners_wrap_every_256_cells() {
    let l = PerlinLattice::new();
    for (i, j, k) in [(0, 0, 0), (5, -3, 17), (-1, -256, 1000)] {
        let c = l.corner(i, j, k);
        assert!(c < 256);
        assert_eq!(c, l.corner(i + 256, j - 256, k + 512));
    }
    assert_eq!(l.corner(-1, 0, 0), l.corner(255, 0, 0));
}
