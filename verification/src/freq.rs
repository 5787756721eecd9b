//! Frequency tables over a window's 2x2 sub-windows.
//!
//! The reference semantics enumerates every 2x2 sub-window contained in
//! the outer window.  Each sub-window contributes one count per cell visit
//! to the single-occurrence table, and one count per unordered pair of
//! distinct values present to the joint-occurrence table (a pair counts at
//! most once per sub-window however many cells hold its values).  The
//! closed-form builder obtains the same tables from precomputed per-cell
//! weights, which is possible because the four window shapes are fixed.

use vstd::prelude::*;
use crate::window::Window;
use crate::window::WinView;
use crate::window::lemma_div_mod_in_range;

verus! {

impl WinView {
    /// Number of 2x2 sub-windows contained in the window.
    pub open spec fn sub_count(self) -> int {
        (self.rows - 1) * (self.cols - 1)
    }

    /// Top-left row of sub-window number `k`.
    pub open spec fn anchor_row(self, k: int) -> int {
        k / (self.cols - 1)
    }

    /// Top-left column of sub-window number `k`.
    pub open spec fn anchor_col(self, k: int) -> int {
        k % (self.cols - 1)
    }

    /// How many of the four cells of sub-window `k` hold the value `v`.
    pub open spec fn sub_cell_count(self, k: int, v: u8) -> int {
        let i = self.anchor_row(k);
        let j = self.anchor_col(k);
        (if self.cell(i, j) == v { 1int } else { 0int })
            + (if self.cell(i, j + 1) == v { 1int } else { 0int })
            + (if self.cell(i + 1, j) == v { 1int } else { 0int })
            + (if self.cell(i + 1, j + 1) == v { 1int } else { 0int })
    }

    /// Sub-window `k` contains the value `v` somewhere.
    pub open spec fn sub_has(self, k: int, v: u8) -> bool {
        self.sub_cell_count(k, v) > 0
    }

    /// Single-occurrence weight of `v` accumulated over the first `k`
    /// sub-windows.
    pub open spec fn single_weight_upto(self, v: u8, k: int) -> int
        decreases k,
    {
        if k <= 0 {
            0
        } else {
            self.single_weight_upto(v, k - 1) + self.sub_cell_count(k - 1, v)
        }
    }

    /// Weighted occurrence count of `v` in the window: one count for every
    /// (sub-window, cell) visit in which the cell holds `v`.
    pub open spec fn single_weight(self, v: u8) -> int {
        self.single_weight_upto(v, self.sub_count())
    }

    /// Co-occurrence weight of the pair accumulated over the first `k`
    /// sub-windows.
    pub open spec fn joint_weight_upto(self, a: u8, b: u8, k: int) -> int
        decreases k,
    {
        if k <= 0 {
            0
        } else {
            self.joint_weight_upto(a, b, k - 1)
                + (if self.sub_has(k - 1, a) && self.sub_has(k - 1, b) { 1int } else { 0int })
        }
    }

    /// Weighted co-occurrence count of the pair `(a, b)`: the number of
    /// sub-windows in which both values appear, each sub-window counted at
    /// most once however many cells hold them.
    pub open spec fn joint_weight(self, a: u8, b: u8) -> int {
        self.joint_weight_upto(a, b, self.sub_count())
    }
}

/// Number of sub-windows whose two cells along one axis of length `n`
/// cover the position `pos`: 1 everywhere except the middle position of a
/// 3-cell axis, which both sub-windows cover.
pub open spec fn axis_weight(pos: int, n: int) -> int {
    if n == 3 && pos == 1 { 2 } else { 1 }
}

impl WinView {
    /// Number of sub-windows that contain the cell (i, j): the product of
    /// the two axis weights, the closed-form single-count weight of that
    /// cell.
    pub open spec fn cell_weight(self, i: int, j: int) -> int {
        if axis_weight(i, self.rows) == 2 {
            2 * axis_weight(j, self.cols)
        } else {
            axis_weight(j, self.cols)
        }
    }

    /// Closed-form single weight of `v` accumulated over the first `t`
    /// cells of the window.
    pub open spec fn closed_single_upto(self, v: u8, t: int) -> int
        decreases t,
    {
        if t <= 0 {
            0
        } else {
            self.closed_single_upto(v, t - 1)
                + (if self.cells[t - 1] == v {
                    self.cell_weight((t - 1) / self.cols, (t - 1) % self.cols)
                } else {
                    0int
                })
        }
    }

    /// Closed-form weighted occurrence count of `v`: every cell holding
    /// `v` contributes the number of sub-windows that contain it.
    pub open spec fn closed_single_weight(self, v: u8) -> int {
        self.closed_single_upto(v, self.rows * self.cols)
    }
}

/// The greater of two samples.
pub open spec fn hi_of(x: u8, y: u8) -> u8 {
    if x > y { x } else { y }
}

/// The lesser of two samples.
pub open spec fn lo_of(x: u8, y: u8) -> u8 {
    if x > y { y } else { x }
}

/// The value `x` appears among the four samples of one sub-window.
pub open spec fn quad_has(v00: u8, v01: u8, v10: u8, v11: u8, x: u8) -> bool {
    x == v00 || x == v01 || x == v10 || x == v11
}

/// Weighted occurrence count per 8-bit value, kept as a flat 256-entry
/// table so that no lookup can miss.
pub struct SingleTable {
    pub counts: Vec<u64>,
}

impl SingleTable {
    pub open spec fn wf(self) -> bool {
        self.counts@.len() == 256
    }

    /// The weighted count recorded for value `v`.
    pub open spec fn count_of(self, v: u8) -> int {
        self.counts@[v as int] as int
    }

    /// An empty table: every count zero.
    pub fn new_table() -> (t: SingleTable)
        ensures
            t.wf(),
            forall|v: u8| t.count_of(v) == 0,
    {
        let mut counts: Vec<u64> = Vec::new();
        let mut i: usize = 0;
        while i < 256
            invariant
                i <= 256,
                counts@.len() == i,
                forall|k: int| 0 <= k < i ==> counts@[k] == 0u64,
            decreases 256 - i,
        {
            counts.push(0u64);
            i = i + 1;
        }
        SingleTable { counts }
    }

    /// Read the count recorded for value `v`.
    pub fn get(&self, v: u8) -> (n: u64)
        requires
            self.wf(),
        ensures
            n as int == self.count_of(v),
    {
        self.counts[v as usize]
    }

    /// Add `amount` to the count of `v`.
    fn bump(&mut self, v: u8, amount: u64)
        requires
            old(self).wf(),
            old(self).count_of(v) + amount <= u64::MAX,
        ensures
            final(self).wf(),
            final(self).count_of(v) == old(self).count_of(v) + amount,
            forall|v2: u8| v2 != v ==> final(self).count_of(v2) == old(self).count_of(v2),
    {
        let cur: u64 = self.counts[v as usize];
        self.counts.set(v as usize, cur + amount);
    }
}

/// Weighted co-occurrence count per ordered pair of values, kept as a
/// flat 256x256 table indexed greater-value-first.
pub struct JointTable {
    pub counts: Vec<u64>,
}

impl JointTable {
    pub open spec fn wf(self) -> bool {
        self.counts@.len() == 65536
    }

    /// The weighted count recorded for the pair `(a, b)`.
    pub open spec fn count_of(self, a: u8, b: u8) -> int {
        self.counts@[a as int * 256 + b as int] as int
    }

    /// An empty table: every count zero.
    pub fn new_table() -> (t: JointTable)
        ensures
            t.wf(),
            forall|a: u8, b: u8| t.count_of(a, b) == 0,
    {
        let mut counts: Vec<u64> = Vec::new();
        let mut i: usize = 0;
        while i < 65536
            invariant
                i <= 65536,
                counts@.len() == i,
                forall|k: int| 0 <= k < i ==> counts@[k] == 0u64,
            decreases 65536 - i,
        {
            counts.push(0u64);
            i = i + 1;
        }
        JointTable { counts }
    }

    /// Read the count recorded for the pair `(a, b)`.
    pub fn get(&self, a: u8, b: u8) -> (n: u64)
        requires
            self.wf(),
        ensures
            n as int == self.count_of(a, b),
    {
        self.counts[a as usize * 256 + b as usize]
    }
}

/// Record one co-occurrence of two distinct values, keyed greater-first.
fn bump_pair(joint: &mut JointTable, x: u8, y: u8)
    requires
        old(joint).wf(),
        x != y,
        old(joint).count_of(hi_of(x, y), lo_of(x, y)) < u64::MAX,
    ensures
        final(joint).wf(),
        final(joint).count_of(hi_of(x, y), lo_of(x, y))
            == old(joint).count_of(hi_of(x, y), lo_of(x, y)) + 1,
        forall|a: u8, b: u8| !(a == hi_of(x, y) && b == lo_of(x, y))
            ==> final(joint).count_of(a, b) == old(joint).count_of(a, b),
{
    let hi: u8 = if x > y { x } else { y };
    let lo: u8 = if x > y { y } else { x };
    let idx: usize = hi as usize * 256 + lo as usize;
    let cur: u64 = joint.counts[idx];
    joint.counts.set(idx, cur + 1);
}

/// Record one sub-window's co-occurrences: every unordered pair of
/// distinct values present among its four samples, each counted once.
fn bump_sub_pairs(joint: &mut JointTable, v00: u8, v01: u8, v10: u8, v11: u8)
    requires
        old(joint).wf(),
        forall|a: u8, b: u8| a > b ==> old(joint).count_of(a, b) < u64::MAX,
    ensures
        final(joint).wf(),
        forall|a: u8, b: u8| a > b
            ==> final(joint).count_of(a, b) == old(joint).count_of(a, b)
                + (if quad_has(v00, v01, v10, v11, a) && quad_has(v00, v01, v10, v11, b) {
                    1int
                } else {
                    0int
                }),
        forall|a: u8, b: u8| a <= b
            ==> final(joint).count_of(a, b) == old(joint).count_of(a, b),
{
    // A pair is recorded at the first position where each of its values
    // appears, so that no pair is recorded twice.
    let f01: bool = v01 != v00;
    let f10: bool = v10 != v00 && v10 != v01;
    let f11: bool = v11 != v00 && v11 != v01 && v11 != v10;
    if f01 {
        bump_pair(joint, v00, v01);
    }
    if f10 {
        bump_pair(joint, v00, v10);
    }
    if f11 {
        bump_pair(joint, v00, v11);
    }
    if f01 && f10 {
        bump_pair(joint, v01, v10);
    }
    if f01 && f11 {
        bump_pair(joint, v01, v11);
    }
    if f10 && f11 {
        bump_pair(joint, v10, v11);
    }
}

/// The single table records exactly the window's single-occurrence weights.
pub open spec fn single_matches(t: SingleTable, w: WinView) -> bool {
    &&& t.wf()
    &&& forall|v: u8| t.count_of(v) == w.single_weight(v)
}

/// The joint table records exactly the window's co-occurrence weights,
/// keyed greater-value-first; slots that are not a descending pair stay
/// zero.
pub open spec fn joint_matches(t: JointTable, w: WinView) -> bool {
    &&& t.wf()
    &&& forall|a: u8, b: u8| a > b ==> t.count_of(a, b) == w.joint_weight(a, b)
    &&& forall|a: u8, b: u8| a <= b ==> t.count_of(a, b) == 0
}

/// Accumulated single weights stay between 0 and four counts per
/// sub-window.
pub proof fn lemma_single_upto_bounds(w: WinView, v: u8, k: int)
    ensures
        0 <= w.single_weight_upto(v, k),
        k >= 0 ==> w.single_weight_upto(v, k) <= 4 * k,
    decreases k,
{
    if k > 0 {
        lemma_single_upto_bounds(w, v, k - 1);
    }
}

/// Accumulated joint weights stay between 0 and one count per sub-window.
pub proof fn lemma_joint_upto_bounds(w: WinView, a: u8, b: u8, k: int)
    ensures
        0 <= w.joint_weight_upto(a, b, k),
        k >= 0 ==> w.joint_weight_upto(a, b, k) <= k,
    decreases k,
{
    if k > 0 {
        lemma_joint_upto_bounds(w, a, b, k - 1);
    }
}

/// Build both frequency tables by enumerating every 2x2 sub-window, the
/// reference semantics of the co-occurrence analysis.  The closed-form
/// builder `build_tables` produces the same tables; this one is kept as
/// the correctness oracle.
pub fn build_tables_naive(w: &Window) -> (r: (SingleTable, JointTable))
    requires
        w@.wf(),
    ensures
        single_matches(r.0, w@),
        joint_matches(r.1, w@),
{
    let mut single = SingleTable::new_table();
    let mut joint = JointTable::new_table();
    let sub_rows: usize = w.rows - 1;
    let sub_cols: usize = w.cols - 1;
    assert((sub_rows as int) * (sub_cols as int) <= 4) by (nonlinear_arith)
        requires
            sub_rows <= 2,
            sub_cols <= 2,
    ;
    let n: usize = sub_rows * sub_cols;
    assert(n == w@.sub_count());
    let mut k: usize = 0;
    while k < n
        invariant
            w@.wf(),
            sub_rows == w@.rows - 1,
            sub_cols == w@.cols - 1,
            n == w@.sub_count(),
            n <= 4,
            k <= n,
            single.wf(),
            joint.wf(),
            forall|v: u8| single.count_of(v) == w@.single_weight_upto(v, k as int),
            forall|a: u8, b: u8| a > b
                ==> joint.count_of(a, b) == w@.joint_weight_upto(a, b, k as int),
            forall|a: u8, b: u8| a <= b ==> joint.count_of(a, b) == 0,
        decreases n - k,
    {
        proof {
            lemma_div_mod_in_range(k as int, sub_cols as int, sub_rows as int);
            assert forall|v: u8| single.count_of(v) <= 16 by {
                lemma_single_upto_bounds(w@, v, k as int);
            }
            assert forall|a: u8, b: u8| a > b implies joint.count_of(a, b) <= 4 by {
                lemma_joint_upto_bounds(w@, a, b, k as int);
            }
        }
        let i: usize = k / sub_cols;
        let j: usize = k % sub_cols;
        let v00: u8 = w.cell_at(i, j);
        let v01: u8 = w.cell_at(i, j + 1);
        let v10: u8 = w.cell_at(i + 1, j);
        let v11: u8 = w.cell_at(i + 1, j + 1);
        single.bump(v00, 1);
        single.bump(v01, 1);
        single.bump(v10, 1);
        single.bump(v11, 1);
        bump_sub_pairs(&mut joint, v00, v01, v10, v11);
        proof {
            assert forall|a: u8, b: u8| a > b
                implies joint.count_of(a, b) == w@.joint_weight_upto(a, b, k as int + 1) by {
                assert(w@.sub_has(k as int, a)
                    <==> quad_has(v00, v01, v10, v11, a));
                assert(w@.sub_has(k as int, b)
                    <==> quad_has(v00, v01, v10, v11, b));
            }
        }
        k = k + 1;
    }
    (single, joint)
}

/// The four cell positions of sub-window `k` lie inside the window.
pub proof fn lemma_anchor_in_range(w: WinView, k: int)
    requires
        w.wf(),
        0 <= k < w.sub_count(),
    ensures
        0 <= w.anchor_row(k) && w.anchor_row(k) + 1 < w.rows,
        0 <= w.anchor_col(k) && w.anchor_col(k) + 1 < w.cols,
        0 <= w.anchor_row(k) * w.cols + w.anchor_col(k),
        (w.anchor_row(k) + 1) * w.cols + (w.anchor_col(k) + 1) < w.cells.len(),
        w.anchor_row(k) * w.cols + (w.anchor_col(k) + 1) < w.cells.len(),
        (w.anchor_row(k) + 1) * w.cols + w.anchor_col(k) < w.cells.len(),
{
    lemma_div_mod_in_range(k, w.cols - 1, w.rows - 1);
    let i = w.anchor_row(k);
    let j = w.anchor_col(k);
    assert((i + 1) * w.cols + (j + 1) < w.rows * w.cols
        && 0 <= i * w.cols + j
        && i * w.cols + (j + 1) <= (i + 1) * w.cols + (j + 1)
        && (i + 1) * w.cols + j <= (i + 1) * w.cols + (j + 1)) by (nonlinear_arith)
        requires
            0 <= i < w.rows - 1,
            0 <= j < w.cols - 1,
            w.cols >= 2,
            w.rows >= 2,
    ;
}

/// Accumulated closed-form single weights stay between 0 and four counts
/// per cell.
proof fn lemma_closed_single_upto_bounds(w: WinView, v: u8, t: int)
    ensures
        0 <= w.closed_single_upto(v, t),
        t >= 0 ==> w.closed_single_upto(v, t) <= 4 * t,
    decreases t,
{
    if t > 0 {
        lemma_closed_single_upto_bounds(w, v, t - 1);
    }
}

/// The closed-form per-cell weights agree with the sub-window
/// enumeration: every cell is visited by exactly `cell_weight` of the
/// window's sub-windows, so both tallies assign each value the same
/// single-occurrence weight.
#[verifier::rlimit(100)]
pub proof fn lemma_single_weight_closed_form(w: WinView, v: u8)
    requires
        w.wf(),
    ensures
        w.closed_single_weight(v) == w.single_weight(v),
{
    reveal_with_fuel(WinView::single_weight_upto, 5);
    reveal_with_fuel(WinView::closed_single_upto, 10);
    lemma_sub_count_value(w);
    // One branch per shape, so that both tallies unfold over a concrete
    // cell and anchor layout.
    if w.rows == 2 && w.cols == 2 {
        assert(w.closed_single_weight(v) == w.single_weight(v));
    } else if w.rows == 2 && w.cols == 3 {
        assert(w.closed_single_weight(v) == w.single_weight(v));
    } else if w.rows == 3 && w.cols == 2 {
        assert(w.closed_single_weight(v) == w.single_weight(v));
    } else {
        assert(w.closed_single_weight(v) == w.single_weight(v));
    }
}

proof fn lemma_joint_le_single_upto(w: WinView, a: u8, b: u8, k: int)
    ensures
        w.joint_weight_upto(a, b, k) <= w.single_weight_upto(a, k),
        w.joint_weight_upto(a, b, k) <= w.single_weight_upto(b, k),
    decreases k,
{
    if k > 0 {
        lemma_joint_le_single_upto(w, a, b, k - 1);
        lemma_single_upto_bounds(w, a, k - 1);
        lemma_single_upto_bounds(w, b, k - 1);
    }
}

/// The affinity score of any co-occurring pair is bounded: its joint
/// weight is at least 1 and at most either of its single weights, so the
/// canonical metric (joint weight over smaller single weight) always lies
/// in the half-open interval (0, 1].
pub proof fn lemma_affinity_bounded(w: WinView, a: u8, b: u8)
    requires
        w.wf(),
        w.joint_weight(a, b) > 0,
    ensures
        1 <= w.joint_weight(a, b),
        w.joint_weight(a, b) <= w.single_weight(a),
        w.joint_weight(a, b) <= w.single_weight(b),
{
    lemma_joint_le_single_upto(w, a, b, w.sub_count());
}

proof fn lemma_uniform_upto(w: WinView, x: u8, a: u8, b: u8, k: int)
    requires
        w.wf(),
        w.uniform(x),
        a != b,
        k <= w.sub_count(),
    ensures
        w.joint_weight_upto(a, b, k) == 0,
    decreases k,
{
    if k > 0 {
        lemma_uniform_upto(w, x, a, b, k - 1);
        lemma_anchor_in_range(w, k - 1);
        if w.sub_has(k - 1, a) && w.sub_has(k - 1, b) {
            assert(a == x && b == x);
        }
    }
}

/// A window filled with one repeated value has an empty joint table: no
/// pair of distinct values ever co-occurs.
pub proof fn lemma_uniform_no_joint(w: WinView, x: u8, a: u8, b: u8)
    requires
        w.wf(),
        w.uniform(x),
        a != b,
    ensures
        w.joint_weight(a, b) == 0,
{
    lemma_uniform_upto(w, x, a, b, w.sub_count());
}

impl WinView {
    /// Sum over the values below `n` of the single weights accumulated
    /// over the first `k` sub-windows.
    pub open spec fn total_single_upto(self, n: int, k: int) -> int
        decreases n,
    {
        if n <= 0 {
            0
        } else {
            self.total_single_upto(n - 1, k) + self.single_weight_upto((n - 1) as u8, k)
        }
    }

    /// Sum of the single-occurrence weights of all 256 values.
    pub open spec fn total_single_weight(self) -> int {
        self.total_single_upto(256, self.sub_count())
    }

    /// Sum over the values below `n` of how many cells of sub-window `k`
    /// hold each value.
    pub open spec fn total_sub_count(self, k: int, n: int) -> int
        decreases n,
    {
        if n <= 0 {
            0
        } else {
            self.total_sub_count(k, n - 1) + self.sub_cell_count(k, (n - 1) as u8)
        }
    }
}

/// The number of sub-windows and cells each shape contains: 4 and 9 for
/// 3x3, 2 and 6 for 2x3 and 3x2, 1 and 4 for 2x2.
pub proof fn lemma_sub_count_value(w: WinView)
    requires
        w.wf(),
    ensures
        1 <= w.sub_count() <= 4,
        4 <= w.rows * w.cols <= 9,
        w.rows == 2 && w.cols == 2 ==> w.sub_count() == 1 && w.rows * w.cols == 4,
        w.rows + w.cols == 5 ==> w.sub_count() == 2 && w.rows * w.cols == 6,
        w.rows == 3 && w.cols == 3 ==> w.sub_count() == 4 && w.rows * w.cols == 9,
{
    if w.rows == 2 && w.cols == 2 {
        assert(w.sub_count() == 1 && w.rows * w.cols == 4) by (nonlinear_arith)
            requires
                w.sub_count() == (w.rows - 1) * (w.cols - 1),
                w.rows == 2,
                w.cols == 2,
        ;
    } else if w.rows == 3 && w.cols == 3 {
        assert(w.sub_count() == 4 && w.rows * w.cols == 9) by (nonlinear_arith)
            requires
                w.sub_count() == (w.rows - 1) * (w.cols - 1),
                w.rows == 3,
                w.cols == 3,
        ;
    } else {
        assert(w.sub_count() == 2 && w.rows * w.cols == 6) by (nonlinear_arith)
            requires
                w.sub_count() == (w.rows - 1) * (w.cols - 1),
                w.rows + w.cols == 5,
                w.rows >= 2,
                w.cols >= 2,
        ;
    }
}

/// One sub-window's cell counts, summed over the values below `n`, come
/// to one count per cell whose value lies below `n`.
proof fn lemma_total_sub_count(w: WinView, k: int, n: int)
    requires
        0 <= n <= 256,
    ensures
        w.total_sub_count(k, n) == (if (w.cell(w.anchor_row(k), w.anchor_col(k)) as int) < n {
            1int
        } else {
            0int
        }) + (if (w.cell(w.anchor_row(k), w.anchor_col(k) + 1) as int) < n {
            1int
        } else {
            0int
        }) + (if (w.cell(w.anchor_row(k) + 1, w.anchor_col(k)) as int) < n {
            1int
        } else {
            0int
        }) + (if (w.cell(w.anchor_row(k) + 1, w.anchor_col(k) + 1) as int) < n {
            1int
        } else {
            0int
        }),
    decreases n,
{
    if n > 0 {
        lemma_total_sub_count(w, k, n - 1);
    }
}

/// Summing single weights value by value distributes over the last
/// sub-window.
proof fn lemma_total_single_split(w: WinView, n: int, k: int)
    requires
        k >= 1,
    ensures
        w.total_single_upto(n, k)
            == w.total_single_upto(n, k - 1) + w.total_sub_count(k - 1, n),
    decreases n,
{
    if n > 0 {
        lemma_total_single_split(w, n - 1, k);
    }
}

proof fn lemma_total_single_zero(w: WinView, n: int)
    ensures
        w.total_single_upto(n, 0) == 0,
    decreases n,
{
    if n > 0 {
        lemma_total_single_zero(w, n - 1);
    }
}

proof fn lemma_total_single_rec(w: WinView, k: int)
    requires
        0 <= k,
    ensures
        w.total_single_upto(256, k) == 4 * k,
    decreases k,
{
    if k == 0 {
        lemma_total_single_zero(w, 256);
    } else {
        lemma_total_single_rec(w, k - 1);
        lemma_total_single_split(w, 256, k);
        lemma_total_sub_count(w, k - 1, 256);
    }
}

/// Weight invariant: the single-occurrence weights of all values sum to
/// four counts per sub-window, whatever the window holds: 16 for a 3x3
/// window, 8 for 2x3 and 3x2, and 4 for 2x2.
pub proof fn lemma_total_single_weight(w: WinView)
    requires
        w.wf(),
    ensures
        w.total_single_weight() == 4 * w.sub_count(),
        w.rows == 3 && w.cols == 3 ==> w.total_single_weight() == 16,
        w.rows + w.cols == 5 ==> w.total_single_weight() == 8,
        w.rows == 2 && w.cols == 2 ==> w.total_single_weight() == 4,
{
    lemma_sub_count_value(w);
    lemma_total_single_rec(w, w.sub_count());
}

/// Any two table pairs built for the same window hold the same counts:
/// in particular the naive and the closed-form builder agree everywhere.
pub proof fn lemma_tables_agree(
    w: WinView,
    s1: SingleTable, j1: JointTable,
    s2: SingleTable, j2: JointTable,
)
    requires
        single_matches(s1, w),
        joint_matches(j1, w),
        single_matches(s2, w),
        joint_matches(j2, w),
    ensures
        forall|v: u8| s1.count_of(v) == s2.count_of(v),
        forall|a: u8, b: u8| j1.count_of(a, b) == j2.count_of(a, b),
{
}

/// Tally one sub-window into the joint table.
fn bump_anchor(joint: &mut JointTable, w: &Window, i: usize, j: usize, Ghost(k): Ghost<int>)
    requires
        w@.wf(),
        old(joint).wf(),
        0 <= k < w@.sub_count(),
        w@.anchor_row(k) == i,
        w@.anchor_col(k) == j,
        forall|a: u8, b: u8| a > b
            ==> old(joint).count_of(a, b) == w@.joint_weight_upto(a, b, k),
        forall|a: u8, b: u8| a <= b ==> old(joint).count_of(a, b) == 0,
    ensures
        final(joint).wf(),
        forall|a: u8, b: u8| a > b
            ==> final(joint).count_of(a, b) == w@.joint_weight_upto(a, b, k + 1),
        forall|a: u8, b: u8| a <= b ==> final(joint).count_of(a, b) == 0,
{
    proof {
        lemma_anchor_in_range(w@, k);
        assert(w@.sub_count() <= 4) by (nonlinear_arith)
            requires
                w@.sub_count() == (w@.rows - 1) * (w@.cols - 1),
                w@.rows <= 3,
                w@.cols <= 3,
        ;
        assert forall|a: u8, b: u8| a > b implies joint.count_of(a, b) < u64::MAX by {
            lemma_joint_upto_bounds(w@, a, b, k);
        }
    }
    let v00: u8 = w.cell_at(i, j);
    let v01: u8 = w.cell_at(i, j + 1);
    let v10: u8 = w.cell_at(i + 1, j);
    let v11: u8 = w.cell_at(i + 1, j + 1);
    bump_sub_pairs(joint, v00, v01, v10, v11);
    proof {
        assert forall|a: u8, b: u8| a > b
            implies joint.count_of(a, b) == w@.joint_weight_upto(a, b, k + 1) by {
            assert(w@.sub_has(k, a) <==> quad_has(v00, v01, v10, v11, a));
            assert(w@.sub_has(k, b) <==> quad_has(v00, v01, v10, v11, b));
        }
    }
}

/// Build both frequency tables from the closed-form weights that the
/// fixed window shapes admit: each cell feeds the single table with its
/// precomputed sub-window membership count, and the joint table is
/// tallied over the fixed set of sub-window anchors of the shape.
/// Produces exactly the tables of the enumeration in
/// `build_tables_naive`.
pub fn build_tables(w: &Window) -> (r: (SingleTable, JointTable))
    requires
        w@.wf(),
    ensures
        single_matches(r.0, w@),
        joint_matches(r.1, w@),
{
    let mut single = SingleTable::new_table();
    assert((w.rows as int) * (w.cols as int) <= 9) by (nonlinear_arith)
        requires
            w.rows <= 3,
            w.cols <= 3,
    ;
    let total_cells: usize = w.rows * w.cols;
    let mut t: usize = 0;
    while t < total_cells
        invariant
            w@.wf(),
            total_cells == w@.rows * w@.cols,
            total_cells <= 9,
            t <= total_cells,
            single.wf(),
            forall|v: u8| single.count_of(v) == w@.closed_single_upto(v, t as int),
        decreases total_cells - t,
    {
        proof {
            lemma_div_mod_in_range(t as int, w@.cols, w@.rows);
            assert((t as int) / w@.cols * w@.cols + (t as int) % w@.cols == t as int)
                by (nonlinear_arith)
                requires
                    w@.cols >= 1,
            ;
            assert forall|v: u8| single.count_of(v) <= 36 by {
                lemma_closed_single_upto_bounds(w@, v, t as int);
            }
        }
        let i: usize = t / w.cols;
        let j: usize = t % w.cols;
        let v: u8 = w.cell_at(i, j);
        let cw: u64 = if w.cols == 3 && j == 1 { 2 } else { 1 };
        let amount: u64 = if w.rows == 3 && i == 1 { 2 * cw } else { cw };
        single.bump(v, amount);
        t = t + 1;
    }
    proof {
        assert forall|v: u8| single.count_of(v) == w@.single_weight(v) by {
            lemma_single_weight_closed_form(w@, v);
        }
    }

    let mut joint = JointTable::new_table();
    proof {
        lemma_sub_count_value(w@);
    }
    if w.rows == 2 && w.cols == 2 {
        bump_anchor(&mut joint, w, 0, 0, Ghost(0));
        assert(w@.sub_count() == 1);
    } else if w.rows == 2 && w.cols == 3 {
        bump_anchor(&mut joint, w, 0, 0, Ghost(0));
        bump_anchor(&mut joint, w, 0, 1, Ghost(1));
        assert(w@.sub_count() == 2);
    } else if w.rows == 3 && w.cols == 2 {
        bump_anchor(&mut joint, w, 0, 0, Ghost(0));
        bump_anchor(&mut joint, w, 1, 0, Ghost(1));
        assert(w@.sub_count() == 2);
    } else {
        bump_anchor(&mut joint, w, 0, 0, Ghost(0));
        bump_anchor(&mut joint, w, 0, 1, Ghost(1));
        bump_anchor(&mut joint, w, 1, 0, Ghost(2));
        bump_anchor(&mut joint, w, 1, 1, Ghost(3));
        assert(w@.sub_count() == 4);
    }
    (single, joint)
}

} // verus!
