use raytracer::aabb::{merge_aabbs, Aabb};
use raytracer::bvh::{Bvh, BvhNode};
use raytracer::camera::Projection;
use raytracer::generic_handle::GenericHandle;
use raytracer::image_texture::ImageTexture;
use raytracer::vec3::{TRay, TVec3};

fn collect_leaves(b: &Bvh, k: usize, out: &mut Vec<u32>) {
    match b.node(k) {
        BvhNode::Leaf(p) => out.push(p),
        BvhNode::Branch(l, r) => {
            assert!(l < k && r < k);
            collect_leaves(b, l, out);
            collect_leaves(b, r, out);
        }
    }
}

fn cube(x: i64, y: i64, z: i64) -> Aabb {
    Aabb::new(TVec3::new(x, y, z), TVec3::new(x + 1, y + 2, z + 3))
}

fn boxes_of(keys: &[[i64; 3]]) -> Vec<Aabb> {
    keys.iter().map(|k| cube(k[0], k[1], k[2])).collect()
}

#[test]
fn bvh_reaches_every_primitive() {
    let keys: Vec<Aabb> = (0..37).map(|i| cube((i * 7919) % 101, -(i * 31) % 17, i * i)).collect();
    for _ in 0..10 {
        let b = Bvh::build(&keys);
        let mut leaves = Vec::new();
        collect_leaves(&b, b.root(), &mut leaves);
        leaves.sort();
        leaves.dedup();
        assert_eq!(leaves, (0..37).collect::<Vec<u32>>());
        assert!(b.node_count() <= 3 * 37);
    }
}

#[test]
fn bvh_of_one_primitive_duplicates_it() {
    let b = Bvh::build(&boxes_of(&[[5, 5, 5]]));
    assert_eq!(b.node_count(), 2);
    assert_eq!(b.node(b.root()), BvhNode::Branch(0, 0));
    assert_eq!(b.node(0), BvhNode::Leaf(0));
}

#[test]
fn bvh_of_two_orders_by_key() {
    let b = Bvh::build(&boxes_of(&[[9, 9, 9], [1, 1, 1]]));
    assert_eq!(b.node(b.root()), BvhNode::Branch(0, 1));
    assert_eq!(b.node(0), BvhNode::Leaf(1));
    assert_eq!(b.node(1), BvhNode::Leaf(0));
}

#[test]
fn bvh_splits_sorted_halves() {
    let b = Bvh::build(&boxes_of(&[[3, 3, 3], [0, 0, 0], [2, 2, 2], [1, 1, 1]]));
    match b.node(b.root()) {
        BvhNode::Branch(l, r) => {
            let mut left = Vec::new();
            let mut right = Vec::new();
            collect_leaves(&b, l, &mut left);
            collect_leaves(&b, r, &mut right);
            left.sort();
            right.sort();
            assert_eq!(left, vec![1, 3]);
            assert_eq!(right, vec![0, 2]);
        }
        BvhNode::Leaf(_) => panic!("root must be an inner node"),
    }
}

#[test]
fn texel_lookup_clamps_to_the_image() {
    let pixels: Vec<u8> = (0..2 * 2 * 4).map(|v| v as u8).collect();
    let t = ImageTexture::from_pixels(2, 2, &pixels);
    assert_eq!(t.width(), 2);
    assert_eq!(t.height(), 2);
    assert_eq!(t.texel(0, 0), Some((0, 1, 2)));
    assert_eq!(t.texel(1, 0), Some((4, 5, 6)));
    assert_eq!(t.texel(0, 1), Some((8, 9, 10)));
    assert_eq!(t.texel(7, 9), Some((12, 13, 14)));
}

#[test]
fn texel_of_blank_or_short_texture_is_none() {
    assert_eq!(ImageTexture::blank().texel(0, 0), None);
    let t = ImageTexture::from_pixels(4, 4, &[1, 2, 3, 4]);
    assert_eq!(t.texel(0, 0), Some((1, 2, 3)));
    assert_eq!(t.texel(1, 0), None);
}

#[test]
fn handle_keeps_its_index() {
    let h: GenericHandle<u8> = GenericHandle::from(42u32);
    assert_eq!(h.handle(), 42);
    assert_eq!(h.clone(), h);
}

#[test]
fn vector_constructors() {
    assert_eq!(TVec3::new(1, 2, 3), TVec3 { x: 1, y: 2, z: 3 });
    assert_eq!(TVec3::broadcast(4), TVec3 { x: 4, y: 4, z: 4 });
    assert_eq!(TVec3::with_x(5), TVec3 { x: 5, y: 0, z: 0 });
    assert_eq!(TVec3::with_y(6), TVec3 { x: 0, y: 6, z: 0 });
    assert_eq!(TVec3::with_z(7), TVec3 { x: 0, y: 0, z: 7 });
    let r = TRay::new(TVec3::with_x(1), TVec3::with_z(-1), 0);
    assert_eq!(r.direction.z, -1);
    assert_eq!(r.time, 0);
}

#[test]
fn projections_are_distinct() {
    assert_ne!(Projection::Perspective, Projection::FishEye);
    assert_eq!(Projection::Orthographic, Projection::Orthographic);
}

#[test]
fn bvh_node_boxes_bound_their_primitives() {
    let boxes: Vec<Aabb> = (0..20).map(|i| cube(i * 3 - 30, (i * 7) % 5, -i)).collect();
    let b = Bvh::build(&boxes);
    let mut all = Aabb::empty();
    for bx in &boxes {
        all = merge_aabbs(&all, bx);
    }
    assert_eq!(b.node_box(b.root()), all);
    for k in 0..b.node_count() {
        let mut leaves = Vec::new();
        collect_leaves(&b, k, &mut leaves);
        let nb = b.node_box(k);
        for p in leaves {
            let pb = boxes[p as usize];
            assert!(nb.min.x <= pb.min.x && nb.min.y <= pb.min.y && nb.min.z <= pb.min.z);
            assert!(nb.max.x >= pb.max.x && nb.max.y >= pb.max.y && nb.max.z >= pb.max.z);
        }
    }
}

#[test]
fn merge_takes_componentwise_extremes() {
    let a = Aabb::new(TVec3::new(0, 5, -2), TVec3::new(3, 6, 1));
    let b = Aabb::new(TVec3::new(-1, 7, 0), TVec3::new(2, 9, 4));
    assert_eq!(merge_aabbs(&a, &b), Aabb::new(TVec3::new(-1, 5, -2), TVec3::new(3, 9, 4)));
}

#[test]
fn merge_with_empty_is_identity_and_order_free() {
    let a = Aabb::new(TVec3::new(0, 5, -2), TVec3::new(3, 6, 1));
    let b = Aabb::new(TVec3::new(-1, 7, 0), TVec3::new(2, 9, 4));
    let c = Aabb::new(TVec3::new(10, -7, 3), TVec3::new(12, -1, 3));
    assert_eq!(merge_aabbs(&a, &Aabb::empty()), a);
    assert_eq!(merge_aabbs(&Aabb::empty(), &a), a);
    assert_eq!(merge_aabbs(&a, &b), merge_aabbs(&b, &a));
    assert_eq!(merge_aabbs(&merge_aabbs(&a, &b), &c), merge_aabbs(&a, &merge_aabbs(&b, &c)));
}
