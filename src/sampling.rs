use vstd::prelude::*;
use crate::rng::{random_int, shuffle};

verus! {

/// Relies on num's `Roots::sqrt` for `u32`: the truncated square root, the
/// `r` with `r * r <= x < (r + 1) * (r + 1)`.
#[verifier::external_body]
fn isqrt(x: u32) -> (r: u32)
    ensures
        is_floor_sqrt(r as int, x as int),
{
    num::integer::Roots::sqrt(&x)
}

pub open spec fn is_floor_sqrt(r: int, x: int) -> bool {
    0 <= r && r * r <= x < (r + 1) * (r + 1)
}

/// The truncated square root of `x`.
pub open spec fn floor_sqrt(x: int) -> int {
    choose|r: int| is_floor_sqrt(r, x)
}

proof fn lemma_floor_sqrt_unique(r: int, x: int)
    requires
        is_floor_sqrt(r, x),
    ensures
        floor_sqrt(x) == r,
{
    let s = floor_sqrt(x);
    assert(is_floor_sqrt(s, x));
    if s < r {
        assert((s + 1) * (s + 1) <= r * r) by (nonlinear_arith)
            requires 0 <= s < r;
    } else if r < s {
        assert((r + 1) * (r + 1) <= s * s) by (nonlinear_arith)
            requires 0 <= r < s;
    }
}

fn floor_sqrt_u32(x: u32) -> (r: u32)
    ensures
        r == floor_sqrt(x as int),
        is_floor_sqrt(r as int, x as int),
{
    let r = isqrt(x);
    proof { lemma_floor_sqrt_unique(r as int, x as int); }
    r
}

/// One cell of a `cells` x `cells` grid over the unit square: the sample
/// lies in `[col / cells, (col + 1) / cells) x [row / cells, (row + 1) / cells)`.
#[derive(Clone, Copy, Debug, PartialEq, Eq, Structural)]
pub struct Stratum {
    pub col: u32,
    pub row: u32,
    pub cells: u32,
}

/// N-rooks: the `j`-th sample of a set lies on the diagonal cell `(j, j)`
/// of an `n` x `n` grid, so each row and each column holds one sample.
pub open spec fn nrooks_stratum(n: int, k: int) -> Stratum {
    let j = k % n;
    Stratum { col: j as u32, row: j as u32, cells: n as u32 }
}

/// Jittered: sample `j * m + i` of a set lies in cell `(i, j)` of an
/// `m` x `m` grid, `m` the truncated square root of the set size.
pub open spec fn jittered_stratum(m: int, k: int) -> Stratum {
    let s = k % (m * m);
    Stratum { col: (s % m) as u32, row: (s / m) as u32, cells: m as u32 }
}

/// Multi-jittered: sample `i * m + j` of a set lies in the fine cell
/// `(i * m + j, j * m + i)` of an `n` x `n` grid, one per coarse cell and
/// one per fine row and column.
pub open spec fn multi_jittered_stratum(n: int, m: int, k: int) -> Stratum {
    let s = k % (m * m);
    let i = s / m;
    let j = s % m;
    Stratum { col: (i * m + j) as u32, row: (j * m + i) as u32, cells: n as u32 }
}

pub open spec fn nrooks_strata(sets: int, n: int) -> Seq<Stratum> {
    Seq::new((sets * n) as nat, |k: int| nrooks_stratum(n, k))
}

pub open spec fn jittered_strata(sets: int, n: int) -> Seq<Stratum> {
    let m = floor_sqrt(n);
    Seq::new((sets * (m * m)) as nat, |k: int| jittered_stratum(m, k))
}

pub open spec fn multi_jittered_strata(sets: int, n: int) -> Seq<Stratum> {
    let m = floor_sqrt(n);
    Seq::new((sets * (m * m)) as nat, |k: int| multi_jittered_stratum(n, m, k))
}

proof fn lemma_div_mod_bounds(k: int, m: int)
    requires
        m > 0,
        0 <= k,
    ensures
        0 <= (k % (m * m)) / m < m,
        0 <= (k % (m * m)) % m < m,
        (k % (m * m)) / m * m + (k % (m * m)) % m < m * m,
        (k % (m * m)) % m * m + (k % (m * m)) / m < m * m,
{
    let s = k % (m * m);
    assert(m * m > 0) by (nonlinear_arith) requires m > 0;
    assert(0 <= s < m * m);
    assert(s == (s / m) * m + s % m) by (nonlinear_arith) requires m > 0;
    assert(s / m < m) by (nonlinear_arith) requires 0 <= s < m * m, m > 0, s == (s / m) * m + s % m, 0 <= s % m;
    assert(0 <= s / m) by (nonlinear_arith) requires 0 <= s, m > 0;
    let i = s / m;
    let j = s % m;
    assert(j * m + i < m * m) by (nonlinear_arith) requires 0 <= j < m, 0 <= i < m;
}

/// Strata of `sets` sets of `samples_in_set` samples each, set after set.
fn strata_of(sets: u32, samples_in_set: u32, kind: u8) -> (r: Vec<Stratum>)
    requires
        sets * samples_in_set <= u32::MAX,
        samples_in_set > 0,
        kind < 3,
    ensures
        kind == 0 ==> r@ == nrooks_strata(sets as int, samples_in_set as int),
        kind == 1 ==> r@ == jittered_strata(sets as int, samples_in_set as int),
        kind == 2 ==> r@ == multi_jittered_strata(sets as int, samples_in_set as int),
{
    let n = samples_in_set;
    let m = floor_sqrt_u32(n);
    let per_set: u32 = if kind == 0 { n } else { m * m };
    assert(is_floor_sqrt(m as int, n as int));
    assert(per_set <= n);
    assert(sets * per_set <= sets * n) by (nonlinear_arith) requires per_set <= n, sets >= 0;
    let total = sets * per_set;
    let mut out: Vec<Stratum> = Vec::new();
    let mut k: u32 = 0;
    while k < total
        invariant
            k <= total,
            total == sets * per_set,
            per_set == (if kind == 0 { n as int } else { m * m }),
            m == floor_sqrt(n as int),
            is_floor_sqrt(m as int, n as int),
            n == samples_in_set,
            n > 0,
            kind < 3,
            out@.len() == k,
            forall|j: int| 0 <= j < k ==> out@[j] == (if kind == 0 {
                nrooks_stratum(n as int, j)
            } else if kind == 1 {
                jittered_stratum(m as int, j)
            } else {
                multi_jittered_stratum(n as int, m as int, j)
            }),
        decreases total - k,
    {
        let st = if kind == 0 {
            let j = k % n;
            Stratum { col: j, row: j, cells: n }
        } else {
            proof {
                assert(m > 0) by (nonlinear_arith) requires m * m <= n, n > 0, (m + 1) * (m + 1) > n, m >= 0;
                lemma_div_mod_bounds(k as int, m as int);
            }
            let s = k % (m * m);
            let i = s / m;
            let j = s % m;
            if kind == 1 {
                Stratum { col: j, row: i, cells: m }
            } else {
                Stratum { col: i * m + j, row: j * m + i, cells: n }
            }
        };
        out.push(st);
        k = k + 1;
    }
    proof {
        if kind == 0 {
            assert(out@ =~= nrooks_strata(sets as int, n as int));
        } else if kind == 1 {
            assert(out@ =~= jittered_strata(sets as int, n as int));
        } else {
            assert(out@ =~= multi_jittered_strata(sets as int, n as int));
        }
    }
    out
}

/// Samples spread so that every row and every column of an `n` x `n` grid
/// holds exactly one sample of a set.
#[derive(Clone, Copy, Debug)]
pub struct NRooksSamplingStrategy {}

/// One sample jittered inside each cell of a square grid.
#[derive(Clone, Copy, Debug)]
pub struct JitteredSamplingStrategy {}

/// Jittered on a coarse square grid and, at the same time, N-rooks on the
/// fine grid of all samples.
#[derive(Clone, Copy, Debug)]
pub struct MultiJitteredSamplingStrategy {}

/// One sample at the centre of each cell of a square grid, no jitter.
#[derive(Clone, Copy, Debug)]
pub struct SimpleSamplingStrategy {}

impl NRooksSamplingStrategy {
    /// The cell of each sample, `sets` sets of `samples_in_set`; each is
    /// jittered uniformly inside its cell.
    pub fn generate_strata(sets: u32, samples_in_set: u32) -> (r: Vec<Stratum>)
        requires
            sets * samples_in_set <= u32::MAX,
            samples_in_set > 0,
        ensures
            r@ == nrooks_strata(sets as int, samples_in_set as int),
    {
        strata_of(sets, samples_in_set, 0)
    }
}

impl JitteredSamplingStrategy {
    /// The cell of each sample: `sets` sets of `m * m`, `m` the truncated
    /// square root of `samples_in_set`; each is jittered inside its cell.
    pub fn generate_strata(sets: u32, samples_in_set: u32) -> (r: Vec<Stratum>)
        requires
            sets * samples_in_set <= u32::MAX,
            samples_in_set > 0,
        ensures
            r@ == jittered_strata(sets as int, samples_in_set as int),
    {
        strata_of(sets, samples_in_set, 1)
    }
}

impl MultiJitteredSamplingStrategy {
    /// The fine cell of each sample on a `samples_in_set` x `samples_in_set`
    /// grid; each is jittered inside its cell.
    pub fn generate_strata(sets: u32, samples_in_set: u32) -> (r: Vec<Stratum>)
        requires
            sets * samples_in_set <= u32::MAX,
            samples_in_set > 0,
        ensures
            r@ == multi_jittered_strata(sets as int, samples_in_set as int),
    {
        strata_of(sets, samples_in_set, 2)
    }
}

impl SimpleSamplingStrategy {
    /// The cell of each sample, laid out as the jittered strategy lays them
    /// out; each sample sits at the centre of its cell.
    pub fn generate_strata(sets: u32, samples_in_set: u32) -> (r: Vec<Stratum>)
        requires
            sets * samples_in_set <= u32::MAX,
            samples_in_set > 0,
        ensures
            r@ == jittered_strata(sets as int, samples_in_set as int),
    {
        strata_of(sets, samples_in_set, 1)
    }
}

/// `p` maps each position of a set to a position of the same set, with no
/// two positions mapped alike: a permutation inside each set of `n`.
pub open spec fn permutes_within_sets(p: Seq<u32>, sets: int, n: int) -> bool {
    &&& p.len() == sets * n
    &&& forall|k: int| 0 <= k < p.len() ==> #[trigger] p[k] < sets * n && (p[k] as int) / n == k / n
    &&& forall|a: int, b: int| 0 <= a < p.len() && 0 <= b < p.len() && a != b ==> p[a] != p[b]
}

/// The identity order `0, 1, ..., len - 1`.
pub open spec fn iota(len: int) -> Seq<u32> {
    Seq::new(len as nat, |k: int| k as u32)
}

proof fn lemma_div_same_block(a: int, p: int, n: int)
    requires
        n > 0,
        p >= 0,
        p * n <= a < p * n + n,
    ensures
        a / n == p,
{
    vstd::arithmetic::div_mod::lemma_fundamental_div_mod_converse(a, n, p, a - p * n);
}

/// Shuffles one coordinate of the samples inside each set: entry `k` names
/// the sample whose coordinate moves to position `k`. For each position
/// after the first of a set, a position of the same set is drawn at random
/// and the two are swapped.
pub fn shuffle_coordinates(sets: u32, samples_in_set: u32) -> (r: Vec<u32>)
    requires
        samples_in_set > 0,
        sets * samples_in_set <= i32::MAX,
    ensures
        permutes_within_sets(r@, sets as int, samples_in_set as int),
{
    let n = samples_in_set;
    let total = sets * n;
    let mut order: Vec<u32> = Vec::new();
    let mut k: u32 = 0;
    while k < total
        invariant
            k <= total,
            total == sets * n,
            order@ == iota(k as int),
        decreases total - k,
    {
        order.push(k);
        k = k + 1;
        assert(order@ =~= iota(k as int));
    }
    proof {
        assert forall|j: int| 0 <= j < order@.len() implies #[trigger] order@[j] < sets * n && (order@[j] as int) / (n as int) == j / (n as int) by {
        }
    }
    let mut p: u32 = 0;
    while p < sets
        invariant
            p <= sets,
            n == samples_in_set,
            n > 0,
            total == sets * n,
            total <= i32::MAX,
            permutes_within_sets(order@, sets as int, n as int),
        decreases sets - p,
    {
        assert((p + 1) * n <= sets * n) by (nonlinear_arith) requires p + 1 <= sets, n > 0;
        assert((p + 1) * n == p * n + n) by (nonlinear_arith);
        let base = p * n;
        let mut i: u32 = 0;
        while i + 1 < n
            invariant
                i < n,
                n == samples_in_set,
                n > 0,
                base == p * n,
                base + n <= total,
                total == sets * n,
                total <= i32::MAX,
                p < sets,
                permutes_within_sets(order@, sets as int, n as int),
            decreases n - i,
        {
            let target = random_int(0, (n - 1) as i32) as u32 + base;
            let a = (base + i + 1) as usize;
            let b = target as usize;
            proof {
                lemma_div_same_block(a as int, p as int, n as int);
                lemma_div_same_block(b as int, p as int, n as int);
            }
            let va = order[a];
            let vb = order[b];
            order.set(a, vb);
            order.set(b, va);
            i = i + 1;
        }
        p = p + 1;
    }
    order
}

/// Every set is an arrangement of `0..n`: each block of `n` entries holds
/// each index below `n` exactly once.
pub open spec fn sets_of_indices(v: Seq<u32>, sets: int, n: int) -> bool {
    &&& v.len() == sets * n
    &&& forall|p: int| 0 <= p < sets ==> #[trigger] v.subrange(p * n, p * n + n).to_multiset() == iota(n).to_multiset()
    &&& forall|k: int| 0 <= k < v.len() ==> #[trigger] v[k] < n
}

/// For each of `sets` sets, the indices `0..n` in a random order.
pub fn shuffled_index_sets(sets: u32, samples_in_set: u32) -> (r: Vec<u32>)
    requires
        sets * samples_in_set <= u32::MAX,
    ensures
        sets_of_indices(r@, sets as int, samples_in_set as int),
{
    let n = samples_in_set;
    let mut indices: Vec<u32> = Vec::new();
    let mut k: u32 = 0;
    while k < n
        invariant
            k <= n,
            indices@ == iota(k as int),
        decreases n - k,
    {
        indices.push(k);
        k = k + 1;
        assert(indices@ =~= iota(k as int));
    }
    let mut out: Vec<u32> = Vec::new();
    let mut p: u32 = 0;
    while p < sets
        invariant
            p <= sets,
            n == samples_in_set,
            sets * n <= u32::MAX,
            indices@.len() == n,
            indices@.to_multiset() == iota(n as int).to_multiset(),
            out@.len() == p * n,
            forall|q: int| 0 <= q < p ==> #[trigger] out@.subrange(q * n, q * n + n).to_multiset() == iota(n as int).to_multiset(),
            forall|j: int| 0 <= j < out@.len() ==> #[trigger] out@[j] < n,
        decreases sets - p,
    {
        let ghost before = indices@;
        shuffle(&mut indices);
        proof {
            vstd::seq_lib::to_multiset_len(before);
            vstd::seq_lib::to_multiset_len(indices@);
            assert forall|j: int| 0 <= j < indices@.len() implies #[trigger] indices@[j] < n by {
                vstd::seq_lib::to_multiset_contains(indices@, indices@[j]);
                vstd::seq_lib::to_multiset_contains(iota(n as int), indices@[j]);
                assert(indices@.contains(indices@[j]));
            }
        }
        let ghost old_out = out@;
        let mut j: usize = 0;
        while j < indices.len()
            invariant
                j <= indices@.len(),
                indices@.len() == n,
                out@ == old_out + indices@.subrange(0, j as int),
            decreases indices@.len() - j,
        {
            out.push(indices[j]);
            j = j + 1;
            assert(out@ =~= old_out + indices@.subrange(0, j as int));
        }
        proof {
            assert(indices@.subrange(0, n as int) =~= indices@);
            assert((p + 1) * n == p * n + n) by (nonlinear_arith);
            assert forall|q: int| 0 <= q < p + 1 implies #[trigger] out@.subrange(q * n, q * n + n).to_multiset() == iota(n as int).to_multiset() by {
                if q < p {
                    assert(q * n + n <= p * n) by (nonlinear_arith) requires q + 1 <= p, n >= 0;
                    assert(q * n >= 0) by (nonlinear_arith) requires q >= 0, n >= 0;
                    assert(out@.subrange(q * n, q * n + n) =~= old_out.subrange(q * n, q * n + n));
                } else {
                    assert(out@.subrange(q * n, q * n + n) =~= indices@);
                }
            }
        }
        p = p + 1;
    }
    out
}

/// Which sample a sampler hands out next. A pass over a set starts at a
/// randomly drawn set and walks it in that set's shuffled order.
pub struct SampleSchedule {
    shuffled_indices: Vec<u32>,
    sets: u32,
    samples_in_set: u32,
    count: u32,
    set: u32,
}

/// Mathematical state of a [`SampleSchedule`]: the shuffled orders, the
/// shape, the position inside the current pass and the current set.
pub struct ScheduleState {
    pub indices: Seq<u32>,
    pub sets: int,
    pub samples_in_set: int,
    pub count: int,
    pub set: int,
}

/// Number of sets when none is asked for.
pub const DEFAULT_SETS: u32 = 83;

impl ScheduleState {
    pub open spec fn wf(self) -> bool {
        &&& self.sets > 0
        &&& self.samples_in_set > 0
        &&& self.sets * self.samples_in_set <= u32::MAX
        &&& sets_of_indices(self.indices, self.sets, self.samples_in_set)
        &&& 0 <= self.count < self.samples_in_set
        &&& 0 <= self.set < self.sets
    }

    /// One step with `draw` as the random number: a new pass picks set
    /// `draw % sets`; the sample is the next one of the pass in the set's
    /// shuffled order, as an index into all samples.
    pub open spec fn step(self, draw: int) -> (ScheduleState, int) {
        let n = self.samples_in_set;
        let set = if self.count == 0 { draw % self.sets } else { self.set };
        let index = set * n + self.indices[set * n + self.count] as int;
        (ScheduleState { count: (self.count + 1) % n, set, ..self }, index)
    }
}

impl View for SampleSchedule {
    type V = ScheduleState;

    closed spec fn view(&self) -> ScheduleState {
        ScheduleState {
            indices: self.shuffled_indices@,
            sets: self.sets as int,
            samples_in_set: self.samples_in_set as int,
            count: self.count as int,
            set: self.set as int,
        }
    }
}

proof fn lemma_index_in_set(set: int, n: int, sets: int, c: int)
    requires
        0 <= set < sets,
        n > 0,
        0 <= c < n,
    ensures
        0 <= set * n,
        set * n + c < sets * n,
        set * n + n <= sets * n,
{
    assert(set * n + n <= sets * n) by (nonlinear_arith) requires set + 1 <= sets, n > 0;
    assert(0 <= set * n) by (nonlinear_arith) requires set >= 0, n > 0;
}

impl SampleSchedule {
    pub open spec fn wf(&self) -> bool {
        self@.wf()
    }

    /// A schedule over `num_sets` sets (83 when `None`) of `num_samples`
    /// samples, each set with its own random order.
    pub fn new(num_samples: u32, num_sets: Option<u32>) -> (r: SampleSchedule)
        requires
            num_samples > 0,
            num_sets != Some(0u32),
            num_sets.unwrap_or(DEFAULT_SETS) * num_samples <= u32::MAX,
        ensures
            r.wf(),
            r@.sets == num_sets.unwrap_or(DEFAULT_SETS),
            r@.samples_in_set == num_samples,
            r@.count == 0,
    {
        let sets = match num_sets {
            Some(s) => s,
            None => DEFAULT_SETS,
        };
        let shuffled_indices = shuffled_index_sets(sets, num_samples);
        SampleSchedule { shuffled_indices, sets, samples_in_set: num_samples, count: 0, set: 0 }
    }

    /// Number of sets.
    pub fn sets(&self) -> (r: u32)
        ensures
            r == self@.sets,
    {
        self.sets
    }

    /// Number of samples in each set.
    pub fn samples_in_set(&self) -> (r: u32)
        ensures
            r == self@.samples_in_set,
    {
        self.samples_in_set
    }

    /// The index of the next sample, `draw` being the random number that
    /// picks the set when a new pass starts.
    pub fn advance(&mut self, draw: u32) -> (r: usize)
        requires
            old(self).wf(),
        ensures
            final(self).wf(),
            (final(self)@, r as int) == old(self)@.step(draw as int),
            r < old(self)@.sets * old(self)@.samples_in_set,
    {
        let n = self.samples_in_set;
        if self.count == 0 {
            self.set = draw % self.sets;
        }
        proof {
            lemma_index_in_set(self.set as int, n as int, self.sets as int, self.count as int);
        }
        let base = self.set * n;
        let offset = self.shuffled_indices[(base + self.count) as usize];
        proof {
            lemma_index_in_set(self.set as int, n as int, self.sets as int, offset as int);
        }
        self.count = (self.count + 1) % n;
        (base + offset) as usize
    }

    /// The index of the next sample; a new pass starts at a random set.
    pub fn next_index(&mut self) -> (r: usize)
        requires
            old(self).wf(),
        ensures
            final(self).wf(),
            exists|draw: int| 0 <= draw && (final(self)@, r as int) == old(self)@.step(draw),
            r < old(self)@.sets * old(self)@.samples_in_set,
    {
        let draw: u32 = if self.count == 0 { random_int(0, i32::MAX - 1) as u32 } else { 0 };
        self.advance(draw)
    }
}

} // verus!
