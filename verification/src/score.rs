//! Affinity scoring: pick the winning value pair of a window.
//!
//! A pair's affinity is its joint weight divided by one of its single
//! weights; the canonical metric divides by the smaller one, which bounds
//! the score by 1.  Scores are compared exactly by cross-multiplication,
//! so no inexact arithmetic is ever needed.  The pair with the strictly
//! greatest score wins; on an exact tie the pair with the larger value
//! difference wins.  The output is the difference of the winning pair, or
//! 0 when no two distinct values co-occur.

use vstd::prelude::*;
use crate::window::WinView;
use crate::freq::SingleTable;
use crate::freq::JointTable;
use crate::freq::single_matches;
use crate::freq::joint_matches;
use crate::freq::lemma_uniform_no_joint;

verus! {

/// How a pair's affinity score normalizes its joint weight.
#[derive(Clone, Copy, Debug, PartialEq, Eq, Structural)]
pub enum Metric {
    /// Joint weight over the smaller single weight (canonical: the score
    /// is then always in (0, 1]).
    MinNorm,
    /// Joint weight over the larger single weight.
    MaxNorm,
    /// The raw joint weight, with no normalization.
    RawCount,
}

pub open spec fn min_int(a: int, b: int) -> int {
    if a < b { a } else { b }
}

pub open spec fn max_int(a: int, b: int) -> int {
    if a < b { b } else { a }
}

/// The pair is eligible: two distinct values that co-occur in the window.
pub open spec fn candidate(w: WinView, a: u8, b: u8) -> bool {
    a > b && w.joint_weight(a, b) > 0
}

/// The denominator the metric divides the pair's joint weight by.
pub open spec fn score_den(w: WinView, m: Metric, a: u8, b: u8) -> int {
    match m {
        Metric::MinNorm => min_int(w.single_weight(a), w.single_weight(b)),
        Metric::MaxNorm => max_int(w.single_weight(a), w.single_weight(b)),
        Metric::RawCount => 1,
    }
}

/// Pair 1 scores strictly higher than pair 2, compared exactly by
/// cross-multiplication of the two fractions.
pub open spec fn scores_higher(
    w: WinView, m: Metric,
    a1: u8, b1: u8, a2: u8, b2: u8,
) -> bool {
    w.joint_weight(a1, b1) * score_den(w, m, a2, b2)
        > w.joint_weight(a2, b2) * score_den(w, m, a1, b1)
}

/// The two pairs score exactly the same.
pub open spec fn scores_equal(
    w: WinView, m: Metric,
    a1: u8, b1: u8, a2: u8, b2: u8,
) -> bool {
    w.joint_weight(a1, b1) * score_den(w, m, a2, b2)
        == w.joint_weight(a2, b2) * score_den(w, m, a1, b1)
}

/// The pair wins: no candidate scores higher, and no candidate with an
/// equal score has a larger value difference.
pub open spec fn winning_pair(w: WinView, m: Metric, a: u8, b: u8) -> bool {
    &&& candidate(w, a, b)
    &&& forall|c: u8, d: u8| #[trigger] candidate(w, c, d)
            ==> !scores_higher(w, m, c, d, a, b)
    &&& forall|c: u8, d: u8| #[trigger] candidate(w, c, d) && scores_equal(w, m, c, d, a, b)
            ==> a - b >= c - d
}

/// `r` is the affinity output of the window: the value difference of a
/// winning pair, or 0 when no two distinct values co-occur.
pub open spec fn is_affinity_output(w: WinView, m: Metric, r: u8) -> bool {
    if exists|a: u8, b: u8| #[trigger] candidate(w, a, b) {
        exists|a: u8, b: u8| #[trigger] winning_pair(w, m, a, b) && r as int == a - b
    } else {
        r == 0
    }
}

/// The pair is eligible according to the joint table.
pub open spec fn t_candidate(joint: JointTable, a: u8, b: u8) -> bool {
    a > b && joint.count_of(a, b) > 0
}

/// The denominator the metric reads from the single table.
pub open spec fn t_score_den(single: SingleTable, m: Metric, a: u8, b: u8) -> int {
    match m {
        Metric::MinNorm => min_int(single.count_of(a), single.count_of(b)),
        Metric::MaxNorm => max_int(single.count_of(a), single.count_of(b)),
        Metric::RawCount => 1,
    }
}

/// Pair 1 scores strictly higher than pair 2 by the tables' counts.
pub open spec fn t_scores_higher(
    single: SingleTable, joint: JointTable, m: Metric,
    a1: u8, b1: u8, a2: u8, b2: u8,
) -> bool {
    joint.count_of(a1, b1) * t_score_den(single, m, a2, b2)
        > joint.count_of(a2, b2) * t_score_den(single, m, a1, b1)
}

/// The two pairs score exactly the same by the tables' counts.
pub open spec fn t_scores_equal(
    single: SingleTable, joint: JointTable, m: Metric,
    a1: u8, b1: u8, a2: u8, b2: u8,
) -> bool {
    joint.count_of(a1, b1) * t_score_den(single, m, a2, b2)
        == joint.count_of(a2, b2) * t_score_den(single, m, a1, b1)
}

/// The pair wins by the tables' counts.
pub open spec fn t_winning_pair(
    single: SingleTable, joint: JointTable, m: Metric, a: u8, b: u8,
) -> bool {
    &&& t_candidate(joint, a, b)
    &&& forall|c: u8, d: u8| #[trigger] t_candidate(joint, c, d)
            ==> !t_scores_higher(single, joint, m, c, d, a, b)
    &&& forall|c: u8, d: u8| #[trigger] t_candidate(joint, c, d)
                && t_scores_equal(single, joint, m, c, d, a, b)
            ==> a - b >= c - d
}

/// `r` is the affinity output read off the tables.
pub open spec fn t_is_output(
    single: SingleTable, joint: JointTable, m: Metric, r: u8,
) -> bool {
    if exists|a: u8, b: u8| #[trigger] t_candidate(joint, a, b) {
        exists|a: u8, b: u8| #[trigger] t_winning_pair(single, joint, m, a, b)
            && r as int == a - b
    } else {
        r == 0
    }
}

/// Every value of a co-occurring pair also has a positive single count.
pub open spec fn tables_consistent(single: SingleTable, joint: JointTable) -> bool {
    forall|a: u8, b: u8| #[trigger] t_candidate(joint, a, b)
        ==> single.count_of(a) > 0 && single.count_of(b) > 0
}

/// A fraction strictly above another stays strictly above anything the
/// other dominates (cross-multiplied form).
proof fn lemma_score_trans_strict(
    jp: int, dp: int, jo: int, dd: int, jn: int, dn: int,
)
    by (nonlinear_arith)
    requires
        dp > 0,
        dd > 0,
        dn > 0,
        jp * dd <= jo * dp,
        jn * dd > jo * dn,
    ensures
        jp * dn < jn * dp,
{
}

/// A fraction equal to another dominates everything the other dominates
/// (cross-multiplied form).
proof fn lemma_score_trans_eq(
    jp: int, dp: int, jo: int, dd: int, jn: int, dn: int,
)
    by (nonlinear_arith)
    requires
        dp > 0,
        dd > 0,
        dn > 0,
        jp * dd <= jo * dp,
        jn * dd == jo * dn,
    ensures
        jp * dn <= jn * dp,
        jp * dn == jn * dp ==> jp * dd == jo * dp,
{
}

/// Two u64 values multiply without leaving u128.
proof fn lemma_mul_u64_fits(x: int, y: int)
    by (nonlinear_arith)
    requires
        0 <= x <= u64::MAX,
        0 <= y <= u64::MAX,
    ensures
        0 <= x * y <= u128::MAX,
{
}

/// Read the metric's denominator for the pair from the single table.
fn metric_den(single: &SingleTable, m: Metric, a: u8, b: u8) -> (d: u64)
    requires
        single.wf(),
    ensures
        d as int == t_score_den(*single, m, a, b),
{
    match m {
        Metric::MinNorm => {
            let sa: u64 = single.get(a);
            let sb: u64 = single.get(b);
            if sa < sb { sa } else { sb }
        },
        Metric::MaxNorm => {
            let sa: u64 = single.get(a);
            let sb: u64 = single.get(b);
            if sa < sb { sb } else { sa }
        },
        Metric::RawCount => 1,
    }
}

/// Select the output value for one pixel from its frequency tables: the
/// value difference of the pair with the strongest affinity under the
/// metric, ties resolved toward the larger difference, and 0 when the
/// joint table is empty.
pub fn select_pair(single: &SingleTable, joint: &JointTable, metric: Metric) -> (r: u8)
    requires
        single.wf(),
        joint.wf(),
        tables_consistent(*single, *joint),
    ensures
        t_is_output(*single, *joint, metric, r),
{
    let mut found: bool = false;
    let mut best_a: u8 = 0;
    let mut best_b: u8 = 0;
    let mut idx: usize = 0;
    while idx < 65536
        invariant
            single.wf(),
            joint.wf(),
            tables_consistent(*single, *joint),
            idx <= 65536,
            !found ==> forall|a: u8, b: u8|
                (a as int) * 256 + (b as int) < idx ==> !(#[trigger] t_candidate(*joint, a, b)),
            found ==> t_candidate(*joint, best_a, best_b),
            found ==> (best_a as int) * 256 + (best_b as int) < idx,
            found ==> forall|a: u8, b: u8|
                #[trigger] t_candidate(*joint, a, b) && (a as int) * 256 + (b as int) < idx
                    ==> !t_scores_higher(*single, *joint, metric, a, b, best_a, best_b)
                        && (t_scores_equal(*single, *joint, metric, a, b, best_a, best_b)
                            ==> best_a - best_b >= a - b),
        decreases 65536 - idx,
    {
        let a: u8 = (idx / 256) as u8;
        let b: u8 = (idx % 256) as u8;
        if a > b {
            let j: u64 = joint.get(a, b);
            if j > 0 {
                if !found {
                    found = true;
                    best_a = a;
                    best_b = b;
                } else {
                    let j_best: u64 = joint.get(best_a, best_b);
                    let den_new: u64 = metric_den(single, metric, a, b);
                    let den_best: u64 = metric_den(single, metric, best_a, best_b);
                    proof {
                        lemma_mul_u64_fits(j as int, den_best as int);
                        lemma_mul_u64_fits(j_best as int, den_new as int);
                    }
                    let lhs: u128 = (j as u128) * (den_best as u128);
                    let rhs: u128 = (j_best as u128) * (den_new as u128);
                    let take: bool = if lhs > rhs {
                        true
                    } else if lhs == rhs && a - b > best_a - best_b {
                        true
                    } else {
                        false
                    };
                    if take {
                        proof {
                            let s = *single;
                            let jt = *joint;
                            assert forall|p: u8, q: u8|
                                #[trigger] t_candidate(jt, p, q)
                                    && (p as int) * 256 + (q as int) < idx + 1
                                implies !t_scores_higher(s, jt, metric, p, q, a, b)
                                    && (t_scores_equal(s, jt, metric, p, q, a, b)
                                        ==> a - b >= p - q) by {
                                if p == a && q == b {
                                } else {
                                    let jp = jt.count_of(p, q);
                                    let dp = t_score_den(s, metric, p, q);
                                    let jo = jt.count_of(best_a, best_b);
                                    let dd = t_score_den(s, metric, best_a, best_b);
                                    let jn = jt.count_of(a, b);
                                    let dn = t_score_den(s, metric, a, b);
                                    assert(t_candidate(jt, p, q));
                                    assert(t_candidate(jt, best_a, best_b));
                                    assert(t_candidate(jt, a, b));
                                    assert(dp > 0 && dd > 0 && dn > 0);
                                    if lhs > rhs {
                                        lemma_score_trans_strict(jp, dp, jo, dd, jn, dn);
                                    } else {
                                        lemma_score_trans_eq(jp, dp, jo, dd, jn, dn);
                                    }
                                }
                            }
                        }
                        best_a = a;
                        best_b = b;
                    }
                }
            }
        }
        idx = idx + 1;
    }
    if found {
        proof {
            assert forall|c: u8, d: u8| #[trigger] t_candidate(*joint, c, d)
                implies !t_scores_higher(*single, *joint, metric, c, d, best_a, best_b)
                    && (t_scores_equal(*single, *joint, metric, c, d, best_a, best_b)
                        ==> best_a - best_b >= c - d) by {
                assert((c as int) * 256 + (d as int) < 65536);
            }
            assert(t_winning_pair(*single, *joint, metric, best_a, best_b));
        }
        best_a - best_b
    } else {
        proof {
            assert forall|a: u8, b: u8| !(#[trigger] t_candidate(*joint, a, b)) by {
                assert((a as int) * 256 + (b as int) < 65536);
            }
        }
        0
    }
}

/// Tables that record a window's weights exactly yield the window's
/// affinity output: what the scorer reads off the tables is what the
/// model says about the window.
pub proof fn lemma_output_transfers(
    w: WinView, s: SingleTable, j: JointTable, m: Metric, r: u8,
)
    requires
        single_matches(s, w),
        joint_matches(j, w),
        t_is_output(s, j, m, r),
    ensures
        is_affinity_output(w, m, r),
{
    assert forall|a: u8, b: u8| #[trigger] candidate(w, a, b) == t_candidate(j, a, b) by {
        if a > b {
            assert(j.count_of(a, b) == w.joint_weight(a, b));
        } else {
            assert(!candidate(w, a, b) && !t_candidate(j, a, b));
        }
    }
    assert forall|a: u8, b: u8|
        #[trigger] t_score_den(s, m, a, b) == score_den(w, m, a, b) by {
        assert(s.count_of(a) == w.single_weight(a));
        assert(s.count_of(b) == w.single_weight(b));
    }
    if exists|a: u8, b: u8| #[trigger] t_candidate(j, a, b) {
        let (a, b) = choose|a: u8, b: u8|
            #[trigger] t_winning_pair(s, j, m, a, b) && r as int == a - b;
        assert(candidate(w, a, b));
        assert forall|c: u8, d: u8| #[trigger] candidate(w, c, d)
            implies !scores_higher(w, m, c, d, a, b)
                && (scores_equal(w, m, c, d, a, b) ==> a - b >= c - d) by {
            assert(t_candidate(j, c, d));
            assert(j.count_of(c, d) == w.joint_weight(c, d));
            assert(j.count_of(a, b) == w.joint_weight(a, b));
            assert(!t_scores_higher(s, j, m, c, d, a, b));
        }
        assert(winning_pair(w, m, a, b));
        assert(candidate(w, a, b));
    } else {
        assert(forall|a: u8, b: u8| !(#[trigger] candidate(w, a, b)));
    }
}

/// The affinity output of a window is unique: any two values that
/// satisfy the output relation are equal, so the tie-break rule pins the
/// result completely.
pub proof fn lemma_output_unique(w: WinView, m: Metric, r1: u8, r2: u8)
    requires
        is_affinity_output(w, m, r1),
        is_affinity_output(w, m, r2),
    ensures
        r1 == r2,
{
    if exists|a: u8, b: u8| #[trigger] candidate(w, a, b) {
        let (a1, b1) = choose|a: u8, b: u8|
            #[trigger] winning_pair(w, m, a, b) && r1 as int == a - b;
        let (a2, b2) = choose|a: u8, b: u8|
            #[trigger] winning_pair(w, m, a, b) && r2 as int == a - b;
        assert(candidate(w, a1, b1));
        assert(candidate(w, a2, b2));
        assert(!scores_higher(w, m, a1, b1, a2, b2));
        assert(!scores_higher(w, m, a2, b2, a1, b1));
        assert(scores_equal(w, m, a1, b1, a2, b2));
        assert(a1 - b1 >= a2 - b2);
        assert(a2 - b2 >= a1 - b1);
    }
}

/// The largest of a 2x2 window's four samples.
pub open spec fn corner_max(w: WinView) -> u8 {
    let m1 = if w.cells[0] < w.cells[1] { w.cells[1] } else { w.cells[0] };
    let m2 = if m1 < w.cells[2] { w.cells[2] } else { m1 };
    if m2 < w.cells[3] { w.cells[3] } else { m2 }
}

/// The smallest of a 2x2 window's four samples.
pub open spec fn corner_min(w: WinView) -> u8 {
    let m1 = if w.cells[0] < w.cells[1] { w.cells[0] } else { w.cells[1] };
    let m2 = if m1 < w.cells[2] { m1 } else { w.cells[2] };
    if m2 < w.cells[3] { m2 } else { w.cells[3] }
}

/// Degenerate 2x2 window: under the canonical metric, and under the raw
/// metric, the affinity output is the spread of the four samples — the
/// widest pair always ties for the top score, so the tie-break hands it
/// the win.  (Dividing by the larger single weight does not have this
/// property: a doubled extreme value halves its pairs' scores.)
pub proof fn lemma_corner_window_spread(w: WinView, m: Metric, r: u8)
    requires
        w.wf(),
        w.rows == 2,
        w.cols == 2,
        m == Metric::MinNorm || m == Metric::RawCount,
        is_affinity_output(w, m, r),
    ensures
        r as int == corner_max(w) - corner_min(w),
{
    reveal_with_fuel(WinView::single_weight_upto, 2);
    reveal_with_fuel(WinView::joint_weight_upto, 2);
    crate::freq::lemma_sub_count_value(w);
    let top = corner_max(w);
    let bot = corner_min(w);
    assert(w.cell(0, 0) == w.cells[0]);
    assert(w.cell(0, 1) == w.cells[1]);
    assert(w.cell(1, 0) == w.cells[2]);
    assert(w.cell(1, 1) == w.cells[3]);
    if top == bot {
        assert forall|a: u8, b: u8| !(#[trigger] candidate(w, a, b)) by {
            if a > b && w.joint_weight(a, b) > 0 {
                assert(w.sub_has(0, a) && w.sub_has(0, b));
            }
        }
    } else {
        assert(candidate(w, top, bot));
        let (a, b) = choose|a: u8, b: u8|
            #[trigger] winning_pair(w, m, a, b) && r as int == a - b;
        assert(w.sub_has(0, a) && w.sub_has(0, b));
        assert(bot <= b && a <= top);
        assert(!scores_higher(w, m, top, bot, a, b));
        assert(w.joint_weight(top, bot) == 1);
        assert(w.joint_weight(a, b) == 1);
        if m == Metric::RawCount {
            assert(scores_equal(w, m, top, bot, a, b));
        } else {
            let dw = score_den(w, m, top, bot);
            let dab = score_den(w, m, a, b);
            assert(1 * dab <= 1 * dw && 1 * dab == dab && 1 * dw == dw);
            if dab == dw {
                assert(scores_equal(w, m, top, bot, a, b));
            } else {
                // The widest pair's denominator can only exceed another
                // pair's when both extremes fill the window, which leaves
                // no third value to form that other pair.
                assert(w.single_weight(top) >= 2 && w.single_weight(bot) >= 2);
                assert(a == top && b == bot);
            }
        }
        assert(a - b >= top - bot);
    }
}

/// A window filled with one repeated value has affinity output 0.
pub proof fn lemma_uniform_output_zero(w: WinView, x: u8, m: Metric)
    requires
        w.wf(),
        w.uniform(x),
    ensures
        is_affinity_output(w, m, 0),
{
    assert forall|a: u8, b: u8| !(#[trigger] candidate(w, a, b)) by {
        if a > b {
            lemma_uniform_no_joint(w, x, a, b);
        }
    }
}

} // verus!
