use vstd::prelude::*;
use crate::rng::random_int;
use crate::aabb::{contains, lemma_merge_contains, merge_aabbs, merge_spec, Aabb};

verus! {

/// A node of a bounding volume hierarchy stored in an arena: a primitive,
/// or an inner node whose two children sit earlier in the arena.
#[derive(Clone, Copy, Debug, PartialEq, Eq, Structural)]
pub enum BvhNode {
    Leaf(u32),
    Branch(usize, usize),
}

/// Every leaf names one of `n` primitives and every inner node points back
/// to nodes built before it.
pub open spec fn nodes_wf(nodes: Seq<BvhNode>, n: int) -> bool {
    forall|k: int| 0 <= k < nodes.len() ==> match #[trigger] nodes[k] {
        BvhNode::Leaf(p) => p < n,
        BvhNode::Branch(l, r) => l < k && r < k,
    }
}

/// The primitives under node `k`.
pub open spec fn leaf_set(nodes: Seq<BvhNode>, k: int) -> Set<u32>
    decreases k,
{
    if 0 <= k < nodes.len() {
        match nodes[k] {
            BvhNode::Leaf(p) => set![p],
            BvhNode::Branch(l, r) => {
                if 0 <= l < k && 0 <= r < k {
                    leaf_set(nodes, l as int).union(leaf_set(nodes, r as int))
                } else {
                    Set::empty()
                }
            },
        }
    } else {
        Set::empty()
    }
}

proof fn lemma_leaf_set_prefix(a: Seq<BvhNode>, b: Seq<BvhNode>, k: int)
    requires
        a.len() <= b.len(),
        a == b.take(a.len() as int),
        0 <= k < a.len(),
    ensures
        leaf_set(b, k) == leaf_set(a, k),
    decreases k,
{
    assert(a[k] == b[k]);
    match a[k] {
        BvhNode::Leaf(p) => {},
        BvhNode::Branch(l, r) => {
            if 0 <= l < k && 0 <= r < k {
                lemma_leaf_set_prefix(a, b, l as int);
                lemma_leaf_set_prefix(a, b, r as int);
            }
        },
    }
}

/// The minimum corner of `b` on `axis`.
pub open spec fn box_key(b: Aabb, axis: int) -> i64 {
    if axis == 0 { b.min.x } else if axis == 1 { b.min.y } else { b.min.z }
}

/// At node `k`, an inner node, some axis orders the two subtrees: no
/// primitive on the left starts past a primitive on the right.
pub open spec fn split_ok_at(nodes: Seq<BvhNode>, prim_boxes: Seq<Aabb>, k: int) -> bool {
    match nodes[k] {
        BvhNode::Leaf(_) => true,
        BvhNode::Branch(l, r) => exists|axis: int| 0 <= axis < 3 && #[trigger] axis_orders(nodes, prim_boxes, l as int, r as int, axis),
    }
}

/// On `axis`, every primitive under `l` starts no later than every
/// primitive under `r`.
pub open spec fn axis_orders(nodes: Seq<BvhNode>, prim_boxes: Seq<Aabb>, l: int, r: int, axis: int) -> bool {
    forall|p: u32, q: u32| #[trigger] leaf_set(nodes, l).contains(p) && #[trigger] leaf_set(nodes, r).contains(q)
        ==> box_key(prim_boxes[p as int], axis) <= box_key(prim_boxes[q as int], axis)
}

/// Every inner node splits its primitives along an axis.
pub open spec fn ordered_split(nodes: Seq<BvhNode>, prim_boxes: Seq<Aabb>) -> bool {
    forall|k: int| 0 <= k < nodes.len() ==> #[trigger] split_ok_at(nodes, prim_boxes, k)
}

proof fn lemma_split_prefix(a: Seq<BvhNode>, b: Seq<BvhNode>, prim_boxes: Seq<Aabb>)
    requires
        a.len() <= b.len(),
        a == b.take(a.len() as int),
        nodes_wf(a, prim_boxes.len() as int),
        ordered_split(a, prim_boxes),
    ensures
        forall|k: int| 0 <= k < a.len() ==> #[trigger] split_ok_at(b, prim_boxes, k),
{
    assert forall|k: int| 0 <= k < a.len() implies #[trigger] split_ok_at(b, prim_boxes, k) by {
        assert(a[k] == b[k]);
        assert(split_ok_at(a, prim_boxes, k));
        match a[k] {
            BvhNode::Leaf(_) => {},
            BvhNode::Branch(l, r) => {
                lemma_leaf_set_prefix(a, b, l as int);
                lemma_leaf_set_prefix(a, b, r as int);
                let axis = choose|axis: int| 0 <= axis < 3 && #[trigger] axis_orders(a, prim_boxes, l as int, r as int, axis);
                assert(axis_orders(b, prim_boxes, l as int, r as int, axis));
            },
        }
    }
}

/// At node `k`, an inner node, the left subtree holds half of the node's
/// primitives, rounded down; a node over one primitive has it on both sides.
pub open spec fn halves_at(nodes: Seq<BvhNode>, k: int) -> bool {
    match nodes[k] {
        BvhNode::Leaf(_) => true,
        BvhNode::Branch(l, r) => l == r || leaf_set(nodes, l as int).len() == leaf_set(nodes, k).len() / 2,
    }
}

/// Every inner node splits its primitives at the middle.
pub open spec fn median_split(nodes: Seq<BvhNode>) -> bool {
    forall|k: int| 0 <= k < nodes.len() ==> #[trigger] halves_at(nodes, k)
}

proof fn lemma_halves_prefix(a: Seq<BvhNode>, b: Seq<BvhNode>, n: int)
    requires
        a.len() <= b.len(),
        a == b.take(a.len() as int),
        nodes_wf(a, n),
        median_split(a),
    ensures
        forall|k: int| 0 <= k < a.len() ==> #[trigger] halves_at(b, k),
{
    assert forall|k: int| 0 <= k < a.len() implies #[trigger] halves_at(b, k) by {
        assert(a[k] == b[k]);
        assert(halves_at(a, k));
        lemma_leaf_set_prefix(a, b, k);
        match a[k] {
            BvhNode::Leaf(_) => {},
            BvhNode::Branch(l, r) => {
                lemma_leaf_set_prefix(a, b, l as int);
            },
        }
    }
}

/// Relies on `slice::sort` on pairs of integers, which std orders
/// lexicographically: the pairs are only reordered, by key first.
#[verifier::external_body]
fn sort_pairs(v: &mut Vec<(i64, u32)>)
    ensures
        final(v)@.to_multiset() == old(v)@.to_multiset(),
        forall|a: int, b: int| 0 <= a < b < final(v)@.len() ==> final(v)@[a].0 <= final(v)@[b].0,
{
    v.sort()
}

fn push_node(nodes: &mut Vec<BvhNode>, node: BvhNode) -> (k: usize)
    requires
        old(nodes)@.len() < usize::MAX,
    ensures
        final(nodes)@ == old(nodes)@.push(node),
        k == old(nodes)@.len(),
{
    let k = nodes.len();
    nodes.push(node);
    k
}

proof fn lemma_pairs_same_set(pairs: Seq<(i64, u32)>, sorted: Seq<(i64, u32)>, items: Seq<u32>)
    requires
        pairs.len() == items.len(),
        forall|k: int| 0 <= k < items.len() ==> #[trigger] pairs[k].1 == items[k],
        sorted.to_multiset() == pairs.to_multiset(),
    ensures
        sorted.len() == items.len(),
        sorted.map_values(|q: (i64, u32)| q.1).to_set() == items.to_set(),
{
    vstd::seq_lib::to_multiset_len(sorted);
    vstd::seq_lib::to_multiset_len(pairs);
    let ids = sorted.map_values(|q: (i64, u32)| q.1);
    assert forall|x: u32| ids.to_set().contains(x) implies items.to_set().contains(x) by {
        let j = choose|j: int| 0 <= j < ids.len() && ids[j] == x;
        vstd::seq_lib::to_multiset_contains(sorted, sorted[j]);
        assert(sorted.contains(sorted[j]));
        vstd::seq_lib::to_multiset_contains(pairs, sorted[j]);
        let k = choose|k: int| 0 <= k < pairs.len() && pairs[k] == sorted[j];
        assert(items[k] == x);
        assert(items.contains(x));
    }
    assert forall|x: u32| items.to_set().contains(x) implies ids.to_set().contains(x) by {
        let k = choose|k: int| 0 <= k < items.len() && items[k] == x;
        vstd::seq_lib::to_multiset_contains(pairs, pairs[k]);
        assert(pairs.contains(pairs[k]));
        vstd::seq_lib::to_multiset_contains(sorted, pairs[k]);
        let j = choose|j: int| 0 <= j < sorted.len() && sorted[j] == pairs[k];
        assert(ids[j] == x);
        assert(ids.contains(x));
    }
    assert(ids.to_set() =~= items.to_set());
}

/// The sort key of a box on `axis`: its minimum corner there.
fn key_of(b: &Aabb, axis: usize) -> (r: i64)
    ensures
        r == (if axis == 0 { b.min.x } else if axis == 1 { b.min.y } else { b.min.z }),
{
    if axis == 0 {
        b.min.x
    } else if axis == 1 {
        b.min.y
    } else {
        b.min.z
    }
}

/// Builds the subtree over `items` (primitive indices into `boxes`) at the end of `nodes`, and returns
/// the index of its root. An axis is drawn at random for each inner node;
/// one primitive gives a node whose two children are that primitive, two
/// are ordered by their key, more are sorted by key and split at the middle.
fn build_node(boxes: &Vec<Aabb>, items: Vec<u32>, nodes: &mut Vec<BvhNode>) -> (root: usize)
    requires
        items@.len() >= 1,
        forall|k: int| 0 <= k < items@.len() ==> #[trigger] items@[k] < boxes@.len(),
        nodes_wf(old(nodes)@, boxes@.len() as int),
        ordered_split(old(nodes)@, boxes@),
        median_split(old(nodes)@),
        items@.to_set().len() == items@.len(),
        old(nodes)@.len() + 3 * items@.len() < usize::MAX,
    ensures
        nodes_wf(final(nodes)@, boxes@.len() as int),
        ordered_split(final(nodes)@, boxes@),
        median_split(final(nodes)@),
        old(nodes)@.len() <= root < final(nodes)@.len(),
        final(nodes)@.len() + 1 <= old(nodes)@.len() + 3 * items@.len(),
        old(nodes)@ == final(nodes)@.take(old(nodes)@.len() as int),
        leaf_set(final(nodes)@, root as int) == items@.to_set(),
    decreases items@.len(),
{
    let axis = random_int(0, 2) as usize;
    let ghost start = nodes@;
    if items.len() == 1 {
        let leaf = push_node(nodes, BvhNode::Leaf(items[0]));
        let root = push_node(nodes, BvhNode::Branch(leaf, leaf));
        proof {
            assert(leaf_set(nodes@, leaf as int) == set![items@[0]]);
            assert(items@ == seq![items@[0]]);
            assert(items@.to_set() =~= set![items@[0]]);
            assert(leaf_set(nodes@, root as int) =~= items@.to_set());
            assert(start =~= nodes@.take(start.len() as int));
            lemma_split_prefix(start, nodes@, boxes@);
            assert(axis_orders(nodes@, boxes@, leaf as int, leaf as int, 0));
            lemma_halves_prefix(start, nodes@, boxes@.len() as int);
            assert forall|k: int| 0 <= k < nodes@.len() implies #[trigger] halves_at(nodes@, k) by {
                if k == root as int {
                } else if k == leaf as int {
                } else {
                }
            }
            assert(split_ok_at(nodes@, boxes@, root as int));
            assert forall|k: int| 0 <= k < nodes@.len() implies #[trigger] split_ok_at(nodes@, boxes@, k) by {
                if k == root as int {
                } else if k == leaf as int {
                } else {
                }
            }
        }
        root
    } else if items.len() == 2 {
        let a = items[0];
        let b = items[1];
        let (first, second) = if key_of(&boxes[a as usize], axis) < key_of(&boxes[b as usize], axis) { (a, b) } else { (b, a) };
        let l = push_node(nodes, BvhNode::Leaf(first));
        let r = push_node(nodes, BvhNode::Leaf(second));
        let root = push_node(nodes, BvhNode::Branch(l, r));
        proof {
            assert(leaf_set(nodes@, l as int) == set![first]);
            assert(leaf_set(nodes@, r as int) == set![second]);
            assert(items@ == seq![a, b]);
            assert(items@.to_set() =~= set![a, b]);
            assert(leaf_set(nodes@, root as int) =~= items@.to_set());
            assert(start =~= nodes@.take(start.len() as int));
            lemma_split_prefix(start, nodes@, boxes@);
            assert(box_key(boxes@[first as int], axis as int) <= box_key(boxes@[second as int], axis as int));
            assert(axis_orders(nodes@, boxes@, l as int, r as int, axis as int));
            assert(split_ok_at(nodes@, boxes@, root as int));
            assert forall|k: int| 0 <= k < nodes@.len() implies #[trigger] split_ok_at(nodes@, boxes@, k) by {
                if k == root as int {
                } else if k == l as int || k == r as int {
                } else {
                }
            }
            assert(a != b) by {
                if a == b {
                    assert(items@.to_set() =~= set![a]);
                }
            }
            assert(set![a, b].len() == 2);
            lemma_halves_prefix(start, nodes@, boxes@.len() as int);
            assert forall|k: int| 0 <= k < nodes@.len() implies #[trigger] halves_at(nodes@, k) by {
                if k == root as int {
                } else if k == l as int || k == r as int {
                } else {
                }
            }
        }
        root
    } else {
        let mut pairs: Vec<(i64, u32)> = Vec::new();
        let mut k: usize = 0;
        while k < items.len()
            invariant
                k <= items@.len(),
                pairs@.len() == k,
                forall|j: int| 0 <= j < k ==> #[trigger] pairs@[j].1 == items@[j],
                forall|j: int| 0 <= j < k ==> #[trigger] pairs@[j].0 == box_key(boxes@[pairs@[j].1 as int], axis as int),
                forall|j: int| 0 <= j < items@.len() ==> #[trigger] items@[j] < boxes@.len(),
                axis < 3,
            decreases items@.len() - k,
        {
            let p = items[k];
            pairs.push((key_of(&boxes[p as usize], axis), p));
            k = k + 1;
        }
        let ghost unsorted = pairs@;
        sort_pairs(&mut pairs);
        proof {
            lemma_pairs_same_set(unsorted, pairs@, items@);
            assert forall|j: int| 0 <= j < pairs@.len() implies #[trigger] pairs@[j].0 == box_key(boxes@[pairs@[j].1 as int], axis as int) by {
                vstd::seq_lib::to_multiset_contains(pairs@, pairs@[j]);
                assert(pairs@.contains(pairs@[j]));
                vstd::seq_lib::to_multiset_contains(unsorted, pairs@[j]);
                let w = choose|w: int| 0 <= w < unsorted.len() && unsorted[w] == pairs@[j];
            }
        }
        let ghost ids = pairs@.map_values(|q: (i64, u32)| q.1);
        let mid = pairs.len() / 2;
        let mut left_items: Vec<u32> = Vec::new();
        let mut right_items: Vec<u32> = Vec::new();
        let mut j: usize = 0;
        while j < pairs.len()
            invariant
                j <= pairs@.len(),
                mid == pairs@.len() / 2,
                ids == pairs@.map_values(|q: (i64, u32)| q.1),
                left_items@ == ids.take(if j < mid { j as int } else { mid as int }),
                right_items@ == (if j < mid { Seq::<u32>::empty() } else { ids.subrange(mid as int, j as int) }),
            decreases pairs@.len() - j,
        {
            if j < mid {
                left_items.push(pairs[j].1);
                assert(left_items@ =~= ids.take(j + 1));
            } else {
                right_items.push(pairs[j].1);
                assert(right_items@ =~= ids.subrange(mid as int, j + 1));
            }
            j = j + 1;
        }
        proof {
            assert(ids =~= left_items@ + right_items@);
            assert forall|q: int| 0 <= q < ids.len() implies #[trigger] ids[q] < boxes@.len() by {
                assert(ids.to_set().contains(ids[q]));
                assert(items@.to_set().contains(ids[q]));
                let w = choose|w: int| 0 <= w < items@.len() && items@[w] == ids[q];
            }
            assert forall|q: int| 0 <= q < left_items@.len() implies #[trigger] left_items@[q] < boxes@.len() by {
                assert(left_items@[q] == ids[q]);
            }
            assert forall|q: int| 0 <= q < right_items@.len() implies #[trigger] right_items@[q] < boxes@.len() by {
                assert(right_items@[q] == ids[mid + q]);
            }
        }
        let ghost left_seq = left_items@;
        let ghost right_seq = right_items@;
        proof {
            vstd::seq_lib::seq_to_set_distributes_over_add(left_seq, right_seq);
            assert(items@.to_set() == left_seq.to_set().union(right_seq.to_set()));
            left_seq.lemma_cardinality_of_set();
            right_seq.lemma_cardinality_of_set();
            vstd::seq_lib::seq_to_set_is_finite(left_seq);
            vstd::seq_lib::seq_to_set_is_finite(right_seq);
            vstd::set_lib::lemma_len_union(left_seq.to_set(), right_seq.to_set());
            assert(left_seq.len() == mid);
        }
        let l = build_node(boxes, left_items, nodes);
        let ghost after_left = nodes@;
        let r = build_node(boxes, right_items, nodes);
        let ghost after_right = nodes@;
        let root = push_node(nodes, BvhNode::Branch(l, r));
        proof {
            assert(after_left =~= after_right.take(after_left.len() as int));
            assert(after_right =~= nodes@.take(after_right.len() as int));
            assert(after_left =~= nodes@.take(after_left.len() as int));
            lemma_leaf_set_prefix(after_left, after_right, l as int);
            lemma_leaf_set_prefix(after_left, nodes@, l as int);
            lemma_leaf_set_prefix(after_right, nodes@, r as int);
            vstd::seq_lib::seq_to_set_distributes_over_add(left_seq, right_seq);
            assert(leaf_set(nodes@, root as int) =~= items@.to_set());
            assert(start =~= nodes@.take(start.len() as int));
            lemma_split_prefix(after_right, nodes@, boxes@);
            assert forall|p: u32, q: u32| #[trigger] leaf_set(nodes@, l as int).contains(p) && #[trigger] leaf_set(nodes@, r as int).contains(q)
                implies box_key(boxes@[p as int], axis as int) <= box_key(boxes@[q as int], axis as int) by {
                assert(left_seq.to_set().contains(p));
                assert(right_seq.to_set().contains(q));
                let i = choose|i: int| 0 <= i < left_seq.len() && left_seq[i] == p;
                let jj = choose|jj: int| 0 <= jj < right_seq.len() && right_seq[jj] == q;
                assert(ids[i] == p);
                assert(ids[mid + jj] == q);
                assert(pairs@[i].0 <= pairs@[mid + jj].0);
            }
            assert(axis_orders(nodes@, boxes@, l as int, r as int, axis as int));
            assert(split_ok_at(nodes@, boxes@, root as int));
            assert forall|k: int| 0 <= k < nodes@.len() implies #[trigger] split_ok_at(nodes@, boxes@, k) by {
                if k == root as int {
                } else {
                }
            }
            lemma_halves_prefix(after_right, nodes@, boxes@.len() as int);
            assert(halves_at(nodes@, root as int));
            assert forall|k: int| 0 <= k < nodes@.len() implies #[trigger] halves_at(nodes@, k) by {
                if k == root as int {
                } else {
                }
            }
        }
        root
    }
}

/// Each node's box: a leaf has its primitive's box, an inner node the
/// merge of its children's boxes.
pub open spec fn boxes_exact(nodes: Seq<BvhNode>, node_boxes: Seq<Aabb>, prim_boxes: Seq<Aabb>) -> bool {
    &&& node_boxes.len() == nodes.len()
    &&& forall|k: int| 0 <= k < nodes.len() ==> match #[trigger] nodes[k] {
        BvhNode::Leaf(p) => node_boxes[k] == prim_boxes[p as int],
        BvhNode::Branch(l, r) => node_boxes[k] == merge_spec(node_boxes[l as int], node_boxes[r as int]),
    }
}

/// Each node's box holds the box of every primitive below it.
pub open spec fn boxes_bound(nodes: Seq<BvhNode>, node_boxes: Seq<Aabb>, prim_boxes: Seq<Aabb>) -> bool {
    forall|k: int, p: u32| 0 <= k < nodes.len() && #[trigger] leaf_set(nodes, k).contains(p)
        ==> contains(node_boxes[k], #[trigger] prim_boxes[p as int])
}

proof fn lemma_box_bounds_leaves(nodes: Seq<BvhNode>, node_boxes: Seq<Aabb>, prim_boxes: Seq<Aabb>, k: int)
    requires
        nodes_wf(nodes, prim_boxes.len() as int),
        boxes_exact(nodes, node_boxes, prim_boxes),
        0 <= k < nodes.len(),
    ensures
        forall|p: u32| #[trigger] leaf_set(nodes, k).contains(p) ==> contains(node_boxes[k], prim_boxes[p as int]),
    decreases k,
{
    match nodes[k] {
        BvhNode::Leaf(q) => {
            assert(leaf_set(nodes, k) == set![q]);
        },
        BvhNode::Branch(l, r) => {
            assert(l < k && r < k);
            lemma_box_bounds_leaves(nodes, node_boxes, prim_boxes, l as int);
            lemma_box_bounds_leaves(nodes, node_boxes, prim_boxes, r as int);
            lemma_merge_contains(node_boxes[l as int], node_boxes[r as int]);
            assert(leaf_set(nodes, k) == leaf_set(nodes, l as int).union(leaf_set(nodes, r as int)));
            assert forall|p: u32| #[trigger] leaf_set(nodes, k).contains(p) implies contains(node_boxes[k], prim_boxes[p as int]) by {
                if leaf_set(nodes, l as int).contains(p) {
                    assert(contains(node_boxes[l as int], prim_boxes[p as int]));
                } else {
                    assert(contains(node_boxes[r as int], prim_boxes[p as int]));
                }
            }
        },
    }
}

/// A bounding volume hierarchy over primitives `0..n`, as an arena of nodes
/// with the box of each node.
pub struct Bvh {
    nodes: Vec<BvhNode>,
    boxes: Vec<Aabb>,
    root: usize,
    count: u32,
}

impl Bvh {
    pub closed spec fn nodes_view(&self) -> Seq<BvhNode> {
        self.nodes@
    }

    pub closed spec fn boxes_view(&self) -> Seq<Aabb> {
        self.boxes@
    }

    pub closed spec fn root_index(&self) -> int {
        self.root as int
    }

    pub closed spec fn primitive_count(&self) -> int {
        self.count as int
    }

    /// The arena is well formed, the root lies in it and there is a box
    /// for every node.
    pub open spec fn wf(&self) -> bool {
        &&& nodes_wf(self.nodes_view(), self.primitive_count())
        &&& 0 <= self.root_index() < self.nodes_view().len()
        &&& self.boxes_view().len() == self.nodes_view().len()
    }

    /// The primitives reachable from the root.
    pub open spec fn reachable(&self) -> Set<u32> {
        leaf_set(self.nodes_view(), self.root_index())
    }

    /// Builds the hierarchy over the primitives whose bounding boxes are
    /// `boxes`, and the box of every node. Inner nodes are ordered on a
    /// random axis by the minimum corner of their boxes.
    pub fn build(boxes: &Vec<Aabb>) -> (r: Bvh)
        requires
            1 <= boxes@.len() <= u32::MAX,
            3 * boxes@.len() < usize::MAX,
        ensures
            r.wf(),
            r.primitive_count() == boxes@.len(),
            r.reachable() == Set::new(|p: u32| p < boxes@.len()),
            boxes_exact(r.nodes_view(), r.boxes_view(), boxes@),
            boxes_bound(r.nodes_view(), r.boxes_view(), boxes@),
            ordered_split(r.nodes_view(), boxes@),
            median_split(r.nodes_view()),
    {
        let n = boxes.len() as u32;
        let mut items: Vec<u32> = Vec::new();
        let mut k: u32 = 0;
        while k < n
            invariant
                k <= n,
                n == boxes@.len(),
                items@ == Seq::new(k as nat, |i: int| i as u32),
            decreases n - k,
        {
            items.push(k);
            k = k + 1;
            assert(items@ =~= Seq::new(k as nat, |i: int| i as u32));
        }
        let ghost all = items@;
        proof {
            assert(all.no_duplicates());
            all.unique_seq_to_set();
        }
        let mut nodes: Vec<BvhNode> = Vec::new();
        let root = build_node(boxes, items, &mut nodes);
        proof {
            assert forall|p: u32| all.to_set().contains(p) <==> p < boxes@.len() by {
                if p < boxes@.len() {
                    assert(all[p as int] == p);
                }
            }
            assert(all.to_set() =~= Set::new(|p: u32| p < boxes@.len()));
        }
        let mut node_boxes: Vec<Aabb> = Vec::new();
        let mut j: usize = 0;
        while j < nodes.len()
            invariant
                j <= nodes@.len(),
                nodes_wf(nodes@, boxes@.len() as int),
                node_boxes@.len() == j,
                forall|q: int| 0 <= q < j ==> match #[trigger] nodes@[q] {
                    BvhNode::Leaf(p) => node_boxes@[q] == boxes@[p as int],
                    BvhNode::Branch(l, r) => node_boxes@[q] == merge_spec(node_boxes@[l as int], node_boxes@[r as int]),
                },
            decreases nodes@.len() - j,
        {
            let b = match nodes[j] {
                BvhNode::Leaf(p) => boxes[p as usize],
                BvhNode::Branch(l, r) => merge_aabbs(&node_boxes[l], &node_boxes[r]),
            };
            node_boxes.push(b);
            j = j + 1;
        }
        proof {
            assert(boxes_exact(nodes@, node_boxes@, boxes@));
            assert forall|q: int, p: u32| 0 <= q < nodes@.len() && #[trigger] leaf_set(nodes@, q).contains(p)
                implies contains(node_boxes@[q], #[trigger] boxes@[p as int]) by {
                lemma_box_bounds_leaves(nodes@, node_boxes@, boxes@, q);
            }
        }
        Bvh { nodes, boxes: node_boxes, root, count: n }
    }

    /// Index of the root node.
    pub fn root(&self) -> (r: usize)
        ensures
            r == self.root_index(),
    {
        self.root
    }

    /// Number of nodes in the arena.
    pub fn node_count(&self) -> (r: usize)
        ensures
            r == self.nodes_view().len(),
    {
        self.nodes.len()
    }

    /// Node `k` of the arena.
    pub fn node(&self, k: usize) -> (r: BvhNode)
        requires
            k < self.nodes_view().len(),
        ensures
            r == self.nodes_view()[k as int],
    {
        self.nodes[k]
    }

    /// The box of node `k`.
    pub fn node_box(&self, k: usize) -> (r: Aabb)
        requires
            self.wf(),
            k < self.nodes_view().len(),
        ensures
            r == self.boxes_view()[k as int],
    {
        self.boxes[k]
    }
}

} // verus!
