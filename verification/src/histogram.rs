//! The co-occurrence histogram: a three-dimensional tensor of unsigned
//! 64-bit counters with shape `[k, k, w]`, indexed by base character index,
//! neighbor character index, and offset slot.
//!
//! The counters live in an `ndarray` array. Verus refuses the declaration of
//! `ndarray::ArrayBase` itself (its generic parameters carry outside trait
//! bounds), so the array is held in an opaque field and described by the two
//! names `array_data` and `array_dim`; every operation on it goes through a
//! small trusted wrapper whose contract speaks over those names.

use vstd::prelude::*;

verus! {

broadcast use vstd::seq_lib::group_to_multiset_ensures;

/// Flat row-major position of cell `(b, n, j)` in a `[k, k, w]` tensor.
pub open spec fn flat_idx(k: int, w: int, b: int, n: int, j: int) -> int {
    (b * k + n) * w + j
}

/// The index triple `(b, n, j)` addresses a cell of a `[k, k, w]` tensor.
pub open spec fn cell_in_range(k: int, w: int, b: int, n: int, j: int) -> bool {
    0 <= b < k && 0 <= n < k && 0 <= j < w
}

/// An in-range cell has an in-range flat position.
pub proof fn lemma_flat_idx_bounds(k: int, w: int, b: int, n: int, j: int)
    requires
        cell_in_range(k, w, b, n, j),
    ensures
        0 <= flat_idx(k, w, b, n, j) < k * k * w,
{
    assert(0 <= (b * k + n) * w + j < k * k * w) by (nonlinear_arith)
        requires
            0 <= b < k,
            0 <= n < k,
            0 <= j < w,
    ;
}

/// Distinct in-range cells have distinct flat positions.
pub proof fn lemma_flat_idx_injective(
    k: int,
    w: int,
    b1: int,
    n1: int,
    j1: int,
    b2: int,
    n2: int,
    j2: int,
)
    requires
        cell_in_range(k, w, b1, n1, j1),
        cell_in_range(k, w, b2, n2, j2),
        flat_idx(k, w, b1, n1, j1) == flat_idx(k, w, b2, n2, j2),
    ensures
        b1 == b2 && n1 == n2 && j1 == j2,
{
    let x1 = b1 * k + n1;
    let x2 = b2 * k + n2;
    assert(x1 == x2 && j1 == j2) by (nonlinear_arith)
        requires
            x1 * w + j1 == x2 * w + j2,
            0 <= j1 < w,
            0 <= j2 < w,
    ;
    assert(b1 == b2 && n1 == n2) by (nonlinear_arith)
        requires
            b1 * k + n1 == b2 * k + n2,
            0 <= n1 < k,
            0 <= n2 < k,
            0 <= b1,
            0 <= b2,
    ;
}

/// The shape `[k, k, w]` and each of its partial products stay within
/// `isize::MAX`, the bound under which the backing array can always be
/// allocated and indexed.
pub open spec fn shape_fits(k: int, w: int) -> bool {
    &&& k <= isize::MAX
    &&& w <= isize::MAX
    &&& k * k <= isize::MAX
    &&& k * w <= isize::MAX
    &&& k * k * w <= isize::MAX
}

/// The collection backing a histogram. The array inside is opaque to Verus;
/// the two names below give its contents and shape, and the trusted wrappers
/// state what each `ndarray` call does over them.
#[verifier::external_body]
pub struct CountArray {
    arr: ndarray::Array3<u64>,
}

/// What the backing array holds: its elements in the logical order of the
/// indices (row-major, last index varying fastest).
pub uninterp spec fn array_data(a: CountArray) -> Seq<u64>;

/// The shape the backing array was created with.
pub uninterp spec fn array_dim(a: CountArray) -> (nat, nat, nat);

/// Relies on ndarray::Array3::zeros: an array of the given shape with every
/// element zero. It panics when the product of the non-zero axis lengths
/// overflows `isize`; bounding every partial product of the shape rules
/// every such case out.
#[verifier::external_body]
fn array_zeros(d0: usize, d1: usize, d2: usize) -> (a: CountArray)
    requires
        d0 <= isize::MAX,
        d1 <= isize::MAX,
        d2 <= isize::MAX,
        d0 * d1 <= isize::MAX,
        d0 * d2 <= isize::MAX,
        d1 * d2 <= isize::MAX,
        d0 * d1 * d2 <= isize::MAX,
    ensures
        array_dim(a) == ((d0 as nat, d1 as nat, d2 as nat)),
        array_data(a) == Seq::new((d0 * d1 * d2) as nat, |i: int| 0u64),
{
    CountArray { arr: ndarray::Array3::zeros((d0, d1, d2)) }
}

/// Relies on ndarray::ArrayBase::get: returns the element at an in-bounds
/// index triple.
#[verifier::external_body]
fn array_get(a: &CountArray, i0: usize, i1: usize, i2: usize) -> (r: u64)
    requires
        i0 < array_dim(*a).0,
        i1 < array_dim(*a).1,
        i2 < array_dim(*a).2,
    ensures
        r == array_data(*a)[(i0 * array_dim(*a).1 + i1) * array_dim(*a).2 + i2],
{
    *a.arr.get((i0, i1, i2)).unwrap()
}

/// Relies on ndarray::ArrayBase::get_mut: writes the element at an in-bounds
/// index triple and leaves the rest of the array unchanged.
#[verifier::external_body]
fn array_set(a: &mut CountArray, i0: usize, i1: usize, i2: usize, v: u64)
    requires
        i0 < array_dim(*old(a)).0,
        i1 < array_dim(*old(a)).1,
        i2 < array_dim(*old(a)).2,
    ensures
        array_dim(*final(a)) == array_dim(*old(a)),
        array_data(*final(a)) == array_data(*old(a)).update(
            (i0 * array_dim(*old(a)).1 + i1) * array_dim(*old(a)).2 + i2,
            v,
        ),
{
    *a.arr.get_mut((i0, i1, i2)).unwrap() = v;
}

/// Relies on ndarray::ArrayBase::iter: yields the elements in the logical
/// order of the indices.
#[verifier::external_body]
fn array_to_vec(a: &CountArray) -> (v: Vec<u64>)
    ensures
        v@ == array_data(*a),
{
    a.arr.iter().cloned().collect()
}

/// Relies on ndarray::Array3::from_shape_vec: with a plain shape the vector
/// is taken in row-major order; it succeeds when the vector length equals
/// the product of the dimensions and the product of the non-zero axis
/// lengths stays within `isize`, which bounding every partial product
/// guarantees.
#[verifier::external_body]
fn array_from_vec(d0: usize, d1: usize, d2: usize, v: Vec<u64>) -> (a: CountArray)
    requires
        v@.len() == d0 * d1 * d2,
        d0 <= isize::MAX,
        d1 <= isize::MAX,
        d2 <= isize::MAX,
        d0 * d1 <= isize::MAX,
        d0 * d2 <= isize::MAX,
        d1 * d2 <= isize::MAX,
    ensures
        array_dim(a) == ((d0 as nat, d1 as nat, d2 as nat)),
        array_data(a) == v@,
{
    CountArray { arr: ndarray::Array3::from_shape_vec((d0, d1, d2), v).unwrap() }
}

/// A co-occurrence histogram over an alphabet of `k` characters and a scan
/// window of `w` offset slots.
pub struct Histogram {
    pub k: usize,
    pub w: usize,
    pub counts: CountArray,
}

impl View for Histogram {
    type V = Seq<u64>;

    /// The counters, flattened in row-major order.
    closed spec fn view(&self) -> Seq<u64> {
        array_data(self.counts)
    }
}

impl Histogram {
    /// The backing array has the shape `[k, k, w]` that the histogram
    /// promises, and its flattening has the matching length.
    pub open spec fn wf(&self) -> bool {
        &&& array_dim(self.counts) == ((self.k as nat, self.k as nat, self.w as nat))
        &&& self@.len() == self.k * self.k * self.w
        &&& shape_fits(self.k as int, self.w as int)
    }

    /// The counter of cell `(b, n, j)`.
    pub open spec fn cell(&self, b: int, n: int, j: int) -> u64
        recommends
            self.wf(),
            cell_in_range(self.k as int, self.w as int, b, n, j),
    {
        self@[flat_idx(self.k as int, self.w as int, b, n, j)]
    }

    /// A zero-filled histogram of shape `[k, k, w]`.
    pub fn new(k: usize, w: usize) -> (h: Histogram)
        requires
            shape_fits(k as int, w as int),
        ensures
            h.wf(),
            h.k == k,
            h.w == w,
            h@.len() == k * k * w,
            forall|i: int| 0 <= i < h@.len() ==> h@[i] == 0u64,
    {
        let counts = array_zeros(k, k, w);
        Histogram { k, w, counts }
    }

    /// The counter of cell `(b, n, j)`.
    pub fn get(&self, b: usize, n: usize, j: usize) -> (r: u64)
        requires
            self.wf(),
            b < self.k,
            n < self.k,
            j < self.w,
        ensures
            r == self.cell(b as int, n as int, j as int),
    {
        array_get(&self.counts, b, n, j)
    }

    /// Adds one to the counter of cell `(b, n, j)`.
    pub fn inc(&mut self, b: usize, n: usize, j: usize)
        requires
            old(self).wf(),
            b < old(self).k,
            n < old(self).k,
            j < old(self).w,
            old(self).cell(b as int, n as int, j as int) < u64::MAX,
        ensures
            final(self).wf(),
            final(self).k == old(self).k,
            final(self).w == old(self).w,
            final(self)@ == old(self)@.update(
                flat_idx(old(self).k as int, old(self).w as int, b as int, n as int, j as int),
                (old(self).cell(b as int, n as int, j as int) + 1) as u64,
            ),
    {
        proof {
            lemma_flat_idx_bounds(self.k as int, self.w as int, b as int, n as int, j as int);
        }
        let v = array_get(&self.counts, b, n, j);
        array_set(&mut self.counts, b, n, j, v + 1);
    }

    /// The counters as a flat vector, in row-major order.
    pub fn to_vec(&self) -> (v: Vec<u64>)
        ensures
            v@ == self@,
    {
        array_to_vec(&self.counts)
    }

    /// A histogram of shape `[k, k, w]` holding the given flat counters.
    pub fn from_vec(k: usize, w: usize, v: Vec<u64>) -> (h: Histogram)
        requires
            v@.len() == k * k * w,
            shape_fits(k as int, w as int),
        ensures
            h.wf(),
            h.k == k,
            h.w == w,
            h@ == v@,
    {
        let counts = array_from_vec(k, k, w, v);
        Histogram { k, w, counts }
    }

    /// Element-wise addition of another partial histogram of the same shape,
    /// the aggregation step of the scan. Returns `true` and adds when no
    /// counter would overflow; otherwise returns `false` and leaves this
    /// histogram unchanged.
    pub fn merge_from(&mut self, other: &Histogram) -> (ok: bool)
        requires
            old(self).wf(),
            other.wf(),
            old(self).k == other.k,
            old(self).w == other.w,
        ensures
            final(self).wf(),
            final(self).k == old(self).k,
            final(self).w == old(self).w,
            ok == (forall|i: int|
                0 <= i < old(self)@.len() ==> old(self)@[i] + other@[i] <= u64::MAX),
            ok ==> widened(final(self)@) == seq_add(widened(old(self)@), widened(other@)),
            !ok ==> final(self)@ == old(self)@,
    {
        let a = array_to_vec(&self.counts);
        let b = array_to_vec(&other.counts);
        let mut out: Vec<u64> = Vec::new();
        let mut i: usize = 0;
        while i < a.len()
            invariant
                old(self).wf(),
                other.wf(),
                old(self).k == other.k,
                old(self).w == other.w,
                a@ == old(self)@,
                b@ == other@,
                a@.len() == b@.len(),
                i <= a@.len(),
                out@.len() == i,
                forall|p: int| 0 <= p < i ==> a@[p] + b@[p] <= u64::MAX,
                forall|p: int| 0 <= p < i ==> out@[p] == a@[p] + b@[p],
                *self == *old(self),
            decreases a@.len() - i,
        {
            if a[i] > u64::MAX - b[i] {
                return false;
            }
            out.push(a[i] + b[i]);
            i += 1;
        }
        let merged = array_from_vec(self.k, self.k, self.w, out);
        proof {
            assert(widened(array_data(merged)) =~= seq_add(widened(old(self)@), widened(other@)));
        }
        self.counts = merged;
        true
    }
}

/// A sequence of counters, read as unbounded integers.
pub open spec fn widened(s: Seq<u64>) -> Seq<int> {
    s.map_values(|v: u64| v as int)
}

/// Element-wise sum of two equally long sequences of counters.
pub open spec fn seq_add(a: Seq<int>, b: Seq<int>) -> Seq<int>
    recommends
        a.len() == b.len(),
{
    Seq::new(a.len(), |i: int| a[i] + b[i])
}

/// Merging partial histograms is commutative: the aggregated histogram does
/// not depend on which of two partial results arrives first.
pub proof fn lemma_seq_add_commutative(a: Seq<int>, b: Seq<int>)
    requires
        a.len() == b.len(),
    ensures
        seq_add(a, b) == seq_add(b, a),
{
    assert(seq_add(a, b) =~= seq_add(b, a));
}

/// Merging partial histograms is associative: together with commutativity,
/// the aggregated histogram is the same for every arrival order of the
/// partial results, which makes the gather deterministic.
pub proof fn lemma_seq_add_associative(a: Seq<int>, b: Seq<int>, c: Seq<int>)
    requires
        a.len() == b.len(),
        b.len() == c.len(),
    ensures
        seq_add(seq_add(a, b), c) == seq_add(a, seq_add(b, c)),
{
    assert(seq_add(seq_add(a, b), c) =~= seq_add(a, seq_add(b, c)));
}

/// Every partial histogram of a batch has `len` cells.
pub open spec fn all_len(parts: Seq<Seq<int>>, len: nat) -> bool {
    forall|p: int| 0 <= p < parts.len() ==> (#[trigger] parts[p]).len() == len
}

/// A batch of partial histograms folded in arrival order into the zero
/// histogram.
pub open spec fn merge_all(parts: Seq<Seq<int>>, len: nat) -> Seq<int>
    decreases parts.len(),
{
    if parts.len() == 0 {
        Seq::new(len, |i: int| 0int)
    } else {
        seq_add(merge_all(parts.drop_last(), len), parts.last())
    }
}

/// Folding a batch yields `len` cells.
pub proof fn lemma_merge_all_len(parts: Seq<Seq<int>>, len: nat)
    ensures
        merge_all(parts, len).len() == len,
    decreases parts.len(),
{
    if parts.len() > 0 {
        lemma_merge_all_len(parts.drop_last(), len);
    }
}

/// Any one partial result of a batch can be merged last instead of at its
/// own position.
pub proof fn lemma_merge_all_pull_out(parts: Seq<Seq<int>>, len: nat, p: int)
    requires
        all_len(parts, len),
        0 <= p < parts.len(),
    ensures
        merge_all(parts, len) == seq_add(merge_all(parts.remove(p), len), parts[p]),
    decreases parts.len(),
{
    parts.remove_ensures(p);
    if p == parts.len() - 1 {
        assert(parts.remove(p) =~= parts.drop_last());
    } else {
        let shorter = parts.drop_last();
        assert(all_len(shorter, len));
        lemma_merge_all_pull_out(shorter, len, p);
        shorter.remove_ensures(p);
        lemma_merge_all_len(shorter.remove(p), len);
        let a = merge_all(shorter.remove(p), len);
        let b = parts[p];
        let c = parts.last();
        lemma_seq_add_associative(a, b, c);
        lemma_seq_add_commutative(b, c);
        lemma_seq_add_associative(a, c, b);
        assert(parts.remove(p).drop_last() =~= shorter.remove(p));
        assert(parts.remove(p).last() == parts.last());
    }
}

/// Determinism of the gather: the aggregated histogram does not depend on
/// the order in which the partial results arrive. Two batches that hold the
/// same partial histograms — the same multiset, in any order — fold to the
/// same histogram.
pub proof fn lemma_merge_all_order_independent(
    parts1: Seq<Seq<int>>,
    parts2: Seq<Seq<int>>,
    len: nat,
)
    requires
        all_len(parts1, len),
        all_len(parts2, len),
        parts1.to_multiset() == parts2.to_multiset(),
    ensures
        merge_all(parts1, len) == merge_all(parts2, len),
    decreases parts1.len(),
{
    if parts1.len() == 0 {
        assert(parts1.to_multiset().len() == 0);
        assert(parts2.to_multiset().len() == 0);
        assert(parts2.len() == 0);
    } else {
        let n = parts1.len() as int;
        let x = parts1.last();
        assert(parts1[n - 1] == x);
        assert(parts1.contains(x));
        assert(parts2.to_multiset().count(x) > 0);
        assert(parts2.contains(x));
        let q = choose|q: int| 0 <= q < parts2.len() && parts2[q] == x;
        parts1.remove_ensures(n - 1);
        parts2.remove_ensures(q);
        assert(parts1.remove(n - 1) =~= parts1.drop_last());
        assert(parts1.drop_last().to_multiset() =~= parts2.remove(q).to_multiset());
        assert(all_len(parts1.drop_last(), len));
        assert(all_len(parts2.remove(q), len));
        lemma_merge_all_order_independent(parts1.drop_last(), parts2.remove(q), len);
        lemma_merge_all_pull_out(parts2, len, q);
    }
}

} // verus!
