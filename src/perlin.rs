use vstd::prelude::*;
use crate::rng::shuffle;

verus! {

/// Size of the lattice tables.
pub const LATTICE: u32 = 256;

/// The values `0..len` in order.
pub open spec fn iota_i32(len: int) -> Seq<i32> {
    Seq::new(len as nat, |k: int| k as i32)
}

/// The values `0..elements` in a random order.
pub fn gen_shuffled_vec(elements: u32) -> (r: Vec<i32>)
    requires
        elements <= i32::MAX,
    ensures
        r@.to_multiset() == iota_i32(elements as int).to_multiset(),
        forall|k: int| 0 <= k < r@.len() ==> 0 <= #[trigger] r@[k] < elements,
        r@.len() == elements,
{
    let mut v: Vec<i32> = Vec::new();
    let mut k: u32 = 0;
    while k < elements
        invariant
            k <= elements,
            elements <= i32::MAX,
            v@ == iota_i32(k as int),
        decreases elements - k,
    {
        v.push(k as i32);
        k = k + 1;
        assert(v@ =~= iota_i32(k as int));
    }
    let ghost before = v@;
    shuffle(&mut v);
    proof {
        vstd::seq_lib::to_multiset_len(before);
        vstd::seq_lib::to_multiset_len(v@);
        assert forall|k: int| 0 <= k < v@.len() implies 0 <= #[trigger] v@[k] < elements by {
            vstd::seq_lib::to_multiset_contains(v@, v@[k]);
            assert(v@.contains(v@[k]));
            vstd::seq_lib::to_multiset_contains(before, v@[k]);
        }
    }
    v
}

/// The three permutation tables that hash a lattice point of Perlin noise
/// to one of 256 gradients.
pub struct PerlinLattice {
    perm_x: Vec<i32>,
    perm_y: Vec<i32>,
    perm_z: Vec<i32>,
}

/// A table of 256 entries, each in `0..256`.
pub open spec fn table_wf(t: Seq<i32>) -> bool {
    &&& t.len() == LATTICE
    &&& forall|k: int| 0 <= k < t.len() ==> 0 <= #[trigger] t[k] < LATTICE
}

/// The gradient slot of lattice point `(i, j, k)`: the exclusive or of the
/// three tables, each read at its coordinate modulo 256.
pub open spec fn corner_spec(px: Seq<i32>, py: Seq<i32>, pz: Seq<i32>, i: i32, j: i32, k: i32) -> int {
    (px[(i & 255) as int] ^ py[(j & 255) as int] ^ pz[(k & 255) as int]) as int
}

impl PerlinLattice {
    pub closed spec fn tables(&self) -> (Seq<i32>, Seq<i32>, Seq<i32>) {
        (self.perm_x@, self.perm_y@, self.perm_z@)
    }

    pub open spec fn wf(&self) -> bool {
        &&& table_wf(self.tables().0)
        &&& table_wf(self.tables().1)
        &&& table_wf(self.tables().2)
    }

    /// Three independent random permutations of `0..256`.
    pub fn new() -> (r: PerlinLattice)
        ensures
            r.wf(),
            r.tables().0.to_multiset() == iota_i32(LATTICE as int).to_multiset(),
            r.tables().1.to_multiset() == iota_i32(LATTICE as int).to_multiset(),
            r.tables().2.to_multiset() == iota_i32(LATTICE as int).to_multiset(),
    {
        PerlinLattice {
            perm_x: gen_shuffled_vec(LATTICE),
            perm_y: gen_shuffled_vec(LATTICE),
            perm_z: gen_shuffled_vec(LATTICE),
        }
    }

    /// The gradient slot, in `0..256`, of the lattice point `(i, j, k)`;
    /// coordinates wrap every 256 cells, negative ones included.
    pub fn corner(&self, i: i32, j: i32, k: i32) -> (r: usize)
        requires
            self.wf(),
        ensures
            r == corner_spec(self.tables().0, self.tables().1, self.tables().2, i, j, k),
            r < LATTICE,
    {
        let a = i & 255;
        let b = j & 255;
        let c = k & 255;
        assert(0 <= a < 256 && 0 <= b < 256 && 0 <= c < 256) by (bit_vector)
            requires a == i & 255, b == j & 255, c == k & 255;
        let x = self.perm_x[a as usize];
        let y = self.perm_y[b as usize];
        let z = self.perm_z[c as usize];
        assert(0 <= x ^ y ^ z < 256) by (bit_vector)
            requires 0 <= x < 256, 0 <= y < 256, 0 <= z < 256;
        (x ^ y ^ z) as usize
    }
}

} // verus!
