//! The simulation core: rolling `dice` dice of `sides` sides `rolls` times
//! and tabulating per-face and per-sum frequency counts.
//!
//! The mathematical model is a flattened sequence of face values: draw
//! `j` of roll `r` sits at position `r * dice + j`. Every count in a
//! [`SimResult`] is pinned to that sequence by [`tabulates`].

use vstd::prelude::*;
use crate::sum_total;
use crate::rng::{fresh_rng, draw_face};

verus! {

/// Result of a dice simulation.
pub struct SimResult {
    /// Face counts aggregated across all dice (index 0 = face 1).
    pub face_counts: Vec<u64>,
    /// Sum counts over `min_sum..=max_sum` (index 0 = `min_sum`).
    pub sum_counts: Vec<u64>,
    /// Smallest possible sum of one roll: the number of dice.
    pub min_sum: u32,
    /// Largest possible sum of one roll: `dice * sides`.
    pub max_sum: u32,
}

/// Number of entries of `s` equal to `v`.
pub open spec fn count_eq(s: Seq<u32>, v: u32) -> nat
    decreases s.len(),
{
    if s.len() == 0 {
        0
    } else {
        count_eq(s.drop_last(), v) + (if s.last() == v { 1nat } else { 0nat })
    }
}

/// Sum of a sequence of face values.
pub open spec fn seq_sum(s: Seq<u32>) -> int
    decreases s.len(),
{
    if s.len() == 0 {
        0
    } else {
        seq_sum(s.drop_last()) + s.last()
    }
}

/// Every entry of `s` is a legal face value: in `[1, sides]`.
pub open spec fn all_in_range(s: Seq<u32>, sides: u32) -> bool {
    forall|i: int| 0 <= i < s.len() ==> 1 <= #[trigger] s[i] <= sides
}

/// The faces of roll `r` (0-based) within the flattened sequence.
pub open spec fn roll_faces(faces: Seq<u32>, dice: nat, r: nat) -> Seq<u32> {
    faces.subrange(r as int * dice as int, r as int * dice as int + dice as int)
}

/// The total shown by roll `r`.
pub open spec fn roll_sum(faces: Seq<u32>, dice: nat, r: nat) -> int {
    seq_sum(roll_faces(faces, dice, r))
}

/// Number of rolls among the first `n` whose total is `v`.
pub open spec fn count_sum_eq(faces: Seq<u32>, dice: nat, n: nat, v: int) -> nat
    decreases n,
{
    if n == 0 {
        0
    } else {
        count_sum_eq(faces, dice, (n - 1) as nat, v)
            + (if roll_sum(faces, dice, (n - 1) as nat) == v { 1nat } else { 0nat })
    }
}

/// Exact relation between a [`SimResult`] and the flattened sequence of
/// face values that produced it: every field is a function of `faces`.
pub open spec fn tabulates(
    res: SimResult,
    sides: u32,
    dice: u32,
    rolls: u64,
    faces: Seq<u32>,
) -> bool {
    &&& faces.len() == rolls as int * dice as int
    &&& res.min_sum == dice
    &&& res.max_sum == dice as int * sides as int
    &&& res.face_counts@.len() == sides
    &&& (forall|f: int|
        0 <= f < sides ==> #[trigger] res.face_counts@[f] == count_eq(faces, (f + 1) as u32))
    &&& res.sum_counts@.len() == dice as int * (sides - 1) as int + 1
    &&& (forall|k: int|
        0 <= k < res.sum_counts@.len() ==> #[trigger] res.sum_counts@[k] == count_sum_eq(
            faces,
            dice as nat,
            rolls as nat,
            dice + k,
        ))
}

proof fn lemma_count_eq_le_len(s: Seq<u32>, v: u32)
    ensures
        count_eq(s, v) <= s.len(),
    decreases s.len(),
{
    if s.len() > 0 {
        lemma_count_eq_le_len(s.drop_last(), v);
    }
}

proof fn lemma_count_sum_eq_le(faces: Seq<u32>, dice: nat, n: nat, v: int)
    ensures
        count_sum_eq(faces, dice, n, v) <= n,
    decreases n,
{
    if n > 0 {
        lemma_count_sum_eq_le(faces, dice, (n - 1) as nat, v);
    }
}

/// A sequence of `len` legal face values sums to something in
/// `[len, len * sides]`.
proof fn lemma_seq_sum_bounds(s: Seq<u32>, sides: u32)
    requires
        all_in_range(s, sides),
    ensures
        s.len() <= seq_sum(s) <= s.len() * sides as int,
    decreases s.len(),
{
    if s.len() > 0 {
        assert(all_in_range(s.drop_last(), sides));
        lemma_seq_sum_bounds(s.drop_last(), sides);
        assert((s.len() - 1) * sides as int + sides as int == s.len() * sides as int)
            by (nonlinear_arith);
    }
}

/// A vector of `n` zeroed counters.
fn zero_vec(n: usize) -> (v: Vec<u64>)
    ensures
        v@.len() == n,
        forall|i: int| 0 <= i < n ==> v@[i] == 0,
{
    let mut v: Vec<u64> = Vec::new();
    let mut i: usize = 0;
    while i < n
        invariant
            i <= n,
            v@.len() == i,
            forall|j: int| 0 <= j < i ==> v@[j] == 0,
        decreases n - i,
    {
        v.push(0);
        i = i + 1;
    }
    v
}

/// Tabulate a flattened sequence of face values into a [`SimResult`]:
/// the deterministic core of the simulation. `faces` holds `rolls`
/// consecutive groups of `dice` values, each in `[1, sides]`.
#[verifier::loop_isolation(false)]
pub fn tabulate(sides: u32, dice: u32, rolls: u64, faces: &Vec<u32>) -> (res: SimResult)
    requires
        2 <= sides,
        1 <= dice,
        1 <= rolls,
        dice as int * sides as int <= u32::MAX,
        faces@.len() == rolls as int * dice as int,
        all_in_range(faces@, sides),
    ensures
        tabulates(res, sides, dice, rolls, faces@),
{
    let n_draws: usize = faces.len();
    let min_sum: u32 = dice;
    let max_sum: u32 = dice * sides;
    assert(dice as int * (sides - 1) as int + 1 == dice as int * sides as int - dice as int + 1)
        by (nonlinear_arith);
    let width: u32 = max_sum - min_sum + 1;
    let mut face_counts = zero_vec(sides as usize);
    let mut sum_counts = zero_vec(width as usize);

    let mut r: u64 = 0;
    let mut pos: usize = 0;
    while r < rolls
        invariant
            r <= rolls,
            pos as int == r as int * dice as int,
            face_counts@.len() == sides,
            sum_counts@.len() == width,
            forall|f: int|
                0 <= f < sides ==> #[trigger] face_counts@[f] == count_eq(
                    faces@.take(pos as int),
                    (f + 1) as u32,
                ),
            forall|k: int|
                0 <= k < width ==> #[trigger] sum_counts@[k] == count_sum_eq(
                    faces@,
                    dice as nat,
                    r as nat,
                    dice + k,
                ),
        decreases rolls - r,
    {
        assert((r + 1) as int * dice as int <= rolls as int * dice as int) by (nonlinear_arith)
            requires r + 1 <= rolls, dice >= 1;
        assert((r + 1) as int * dice as int == pos as int + dice as int) by (nonlinear_arith)
            requires pos as int == r as int * dice as int;

        let ghost base: int = pos as int;
        let mut sum: u32 = 0;
        let mut d: u32 = 0;
        while d < dice
            invariant
                d <= dice,
                pos as int == base + d as int,
                sum as int == seq_sum(faces@.subrange(base, base + d as int)),
                d as int <= sum as int <= d as int * sides as int,
                face_counts@.len() == sides,
                forall|f: int|
                    0 <= f < sides ==> #[trigger] face_counts@[f] == count_eq(
                        faces@.take(pos as int),
                        (f + 1) as u32,
                    ),
            decreases dice - d,
        {
            let face = faces[pos];
            assert(1 <= face <= sides);
            assert((d + 1) as int * sides as int == d as int * sides as int + sides as int)
                by (nonlinear_arith);
            assert(d as int * sides as int + sides as int <= dice as int * sides as int)
                by (nonlinear_arith)
                requires d as int + 1 <= dice as int, sides >= 1;
            let idx = (face - 1) as usize;
            let c = face_counts[idx];
            proof {
                lemma_count_eq_le_len(faces@.take(pos as int), face);
                assert(c <= pos);
                assert(pos < n_draws);
                assert(c < u64::MAX);
            }
            face_counts[idx] = c + 1;
            proof {
                let prev = faces@.take(pos as int);
                let next = faces@.take(pos as int + 1);
                assert(next.drop_last() =~= prev);
                assert(next.last() == faces@[pos as int]);
                assert(forall|f: int| 0 <= f < sides ==> #[trigger] count_eq(next, (f + 1) as u32)
                    == count_eq(prev, (f + 1) as u32)
                        + (if faces@[pos as int] == f + 1 { 1nat } else { 0nat }));
                let ext = faces@.subrange(base, base + d as int + 1);
                assert(ext.drop_last() =~= faces@.subrange(base, base + d as int));
                assert(ext.last() == faces@[base + d as int]);
            }
            sum = sum + face;
            pos = pos + 1;
            d = d + 1;
        }
        assert(faces@.subrange(base, base + dice as int) == roll_faces(
            faces@,
            dice as nat,
            r as nat,
        ));
        assert(dice as int <= sum as int <= dice as int * sides as int);
        let k = sum - min_sum;
        assert(k < width) by (nonlinear_arith)
            requires
                sum as int <= dice as int * sides as int,
                k as int == sum as int - dice as int,
                width as int == dice as int * sides as int - dice as int + 1;
        let c = sum_counts[k as usize];
        proof {
            lemma_count_sum_eq_le(faces@, dice as nat, r as nat, dice + k as int);
        }
        sum_counts[k as usize] = c + 1;
        r = r + 1;
        proof {
            assert(roll_sum(faces@, dice as nat, (r - 1) as nat) == sum);
            assert(forall|j: int|
                0 <= j < width ==> #[trigger] count_sum_eq(faces@, dice as nat, r as nat, dice + j)
                    == count_sum_eq(faces@, dice as nat, (r - 1) as nat, dice + j)
                        + (if sum == dice + j { 1nat } else { 0nat }));
        }
    }
    assert(faces@.take(pos as int) =~= faces@);
    SimResult { face_counts, sum_counts, min_sum, max_sum }
}

/// The structural invariants of a simulation result, as the caller of a
/// run sees them: shapes of the two histograms, the sum range, and the
/// grand totals (`rolls * dice` face draws, `rolls` recorded sums).
pub open spec fn valid_sim_result(res: SimResult, sides: u32, dice: u32, rolls: u64) -> bool {
    &&& res.min_sum == dice
    &&& res.max_sum == dice as int * sides as int
    &&& res.face_counts@.len() == sides
    &&& res.sum_counts@.len() == dice as int * (sides - 1) as int + 1
    &&& sum_total(res.face_counts@) == rolls as int * dice as int
    &&& sum_total(res.sum_counts@) == rolls
}

/// Sum of `count_eq(faces, u)` over face values `u` in `1..=v`.
spec fn count_faces_up_to(faces: Seq<u32>, v: int) -> nat
    decreases v,
{
    if v <= 0 {
        0
    } else {
        count_faces_up_to(faces, v - 1) + count_eq(faces, v as u32)
    }
}

proof fn lemma_count_faces_up_to_drop(s: Seq<u32>, v: int)
    requires
        s.len() > 0,
        0 <= v <= u32::MAX,
    ensures
        count_faces_up_to(s, v) == count_faces_up_to(s.drop_last(), v)
            + (if 1 <= s.last() <= v { 1nat } else { 0nat }),
    decreases v,
{
    if v > 0 {
        lemma_count_faces_up_to_drop(s, v - 1);
    }
}

proof fn lemma_count_faces_up_to_empty(s: Seq<u32>, v: int)
    requires
        s.len() == 0,
    ensures
        count_faces_up_to(s, v) == 0,
    decreases v,
{
    if v > 0 {
        lemma_count_faces_up_to_empty(s, v - 1);
    }
}

/// Each legal face value lands in exactly one face bucket, so the
/// buckets for `1..=sides` together count every draw.
proof fn lemma_count_faces_total(s: Seq<u32>, sides: u32)
    requires
        all_in_range(s, sides),
    ensures
        count_faces_up_to(s, sides as int) == s.len(),
    decreases s.len(),
{
    if s.len() == 0 {
        lemma_count_faces_up_to_empty(s, sides as int);
    } else {
        assert(all_in_range(s.drop_last(), sides));
        lemma_count_faces_total(s.drop_last(), sides);
        lemma_count_faces_up_to_drop(s, sides as int);
        assert(1 <= s[s.len() - 1] <= sides);
    }
}

proof fn lemma_count_sums_window_zero(faces: Seq<u32>, dice: nat, lo: int, w: int)
    ensures
        count_sums_window(faces, dice, 0, lo, w) == 0,
    decreases w,
{
    if w > 0 {
        lemma_count_sums_window_zero(faces, dice, lo, w - 1);
    }
}

proof fn lemma_sum_total_face_counts(counts: Seq<u64>, faces: Seq<u32>, v: int)
    requires
        0 <= v <= counts.len(),
        counts.len() <= u32::MAX,
        forall|f: int| 0 <= f < counts.len() ==> #[trigger] counts[f] == count_eq(
            faces,
            (f + 1) as u32,
        ),
    ensures
        sum_total(counts.take(v)) == count_faces_up_to(faces, v),
    decreases v,
{
    if v > 0 {
        lemma_sum_total_face_counts(counts, faces, v - 1);
        assert(counts.take(v).drop_last() =~= counts.take(v - 1));
        assert(counts.take(v).last() == counts[v - 1]);
    }
}

/// Sum of `count_sum_eq(faces, dice, n, v)` over values `v` in
/// `lo..lo + w`.
spec fn count_sums_window(faces: Seq<u32>, dice: nat, n: nat, lo: int, w: int) -> nat
    decreases w,
{
    if w <= 0 {
        0
    } else {
        count_sums_window(faces, dice, n, lo, w - 1) + count_sum_eq(faces, dice, n, lo + w - 1)
    }
}

proof fn lemma_count_sums_window_step(faces: Seq<u32>, dice: nat, n: nat, lo: int, w: int)
    requires
        n > 0,
    ensures
        count_sums_window(faces, dice, n, lo, w) == count_sums_window(
            faces,
            dice,
            (n - 1) as nat,
            lo,
            w,
        ) + (if lo <= roll_sum(faces, dice, (n - 1) as nat) < lo + w { 1nat } else { 0nat }),
    decreases w,
{
    if w > 0 {
        lemma_count_sums_window_step(faces, dice, n, lo, w - 1);
    }
}

/// Each roll whose sum lies in the window lands in exactly one sum
/// bucket, so the buckets together count every roll.
proof fn lemma_count_sums_window_total(faces: Seq<u32>, dice: nat, n: nat, lo: int, w: int)
    requires
        forall|r: nat| r < n ==> lo <= #[trigger] roll_sum(faces, dice, r) < lo + w,
    ensures
        count_sums_window(faces, dice, n, lo, w) == n,
    decreases n,
{
    if n == 0 {
        lemma_count_sums_window_zero(faces, dice, lo, w);
    } else {
        lemma_count_sums_window_total(faces, dice, (n - 1) as nat, lo, w);
        lemma_count_sums_window_step(faces, dice, n, lo, w);
    }
}

proof fn lemma_sum_total_sum_counts(
    counts: Seq<u64>,
    faces: Seq<u32>,
    dice: nat,
    n: nat,
    lo: int,
    w: int,
)
    requires
        0 <= w <= counts.len(),
        forall|k: int| 0 <= k < counts.len() ==> #[trigger] counts[k] == count_sum_eq(
            faces,
            dice,
            n,
            lo + k,
        ),
    ensures
        sum_total(counts.take(w)) == count_sums_window(faces, dice, n, lo, w),
    decreases w,
{
    if w > 0 {
        lemma_sum_total_sum_counts(counts, faces, dice, n, lo, w - 1);
        assert(counts.take(w).drop_last() =~= counts.take(w - 1));
        assert(counts.take(w).last() == counts[w - 1]);
    }
}

/// The face buckets of a tabulated result add up to the number of
/// individual face draws, `rolls * dice`.
pub proof fn lemma_face_counts_total(
    res: SimResult,
    sides: u32,
    dice: u32,
    rolls: u64,
    faces: Seq<u32>,
)
    requires
        tabulates(res, sides, dice, rolls, faces),
        all_in_range(faces, sides),
    ensures
        sum_total(res.face_counts@) == rolls as int * dice as int,
{
    lemma_count_faces_total(faces, sides);
    lemma_sum_total_face_counts(res.face_counts@, faces, sides as int);
    assert(res.face_counts@.take(sides as int) =~= res.face_counts@);
}

/// The sum buckets of a tabulated result add up to the number of rolls.
pub proof fn lemma_sum_counts_total(
    res: SimResult,
    sides: u32,
    dice: u32,
    rolls: u64,
    faces: Seq<u32>,
)
    requires
        2 <= sides,
        1 <= dice,
        tabulates(res, sides, dice, rolls, faces),
        all_in_range(faces, sides),
    ensures
        sum_total(res.sum_counts@) == rolls,
{
    let w = dice as int * (sides - 1) as int + 1;
    assert(dice as int * (sides - 1) as int == dice as int * sides as int - dice as int)
        by (nonlinear_arith);
    assert forall|r: nat| r < rolls as nat implies dice as int <= #[trigger] roll_sum(
        faces,
        dice as nat,
        r,
    ) < dice as int + w by {
        assert(r as int * dice as int + dice as int <= rolls as int * dice as int)
            by (nonlinear_arith)
            requires r as int + 1 <= rolls as int, dice >= 1;
        assert(0 <= r as int * dice as int) by (nonlinear_arith)
            requires r as int >= 0, dice >= 1;
        let rf = roll_faces(faces, dice as nat, r);
        assert(rf.len() == dice);
        assert(all_in_range(rf, sides));
        lemma_seq_sum_bounds(rf, sides);
    }
    lemma_count_sums_window_total(faces, dice as nat, rolls as nat, dice as int, w);
    lemma_sum_total_sum_counts(res.sum_counts@, faces, dice as nat, rolls as nat, dice as int, w);
    assert(res.sum_counts@.take(w) =~= res.sum_counts@);
}

/// A tabulated result satisfies every structural invariant of a
/// simulation run over legal face values.
pub proof fn lemma_tabulates_valid(
    res: SimResult,
    sides: u32,
    dice: u32,
    rolls: u64,
    faces: Seq<u32>,
)
    requires
        2 <= sides,
        1 <= dice,
        tabulates(res, sides, dice, rolls, faces),
        all_in_range(faces, sides),
    ensures
        valid_sim_result(res, sides, dice, rolls),
{
    lemma_face_counts_total(res, sides, dice, rolls, faces);
    lemma_sum_counts_total(res, sides, dice, rolls, faces);
}

/// Every total in `[len, len * sides]` can be shown by some sequence
/// of `len` legal face values.
proof fn lemma_sum_achievable(len: nat, sides: u32, s: int)
    requires
        1 <= sides,
        len <= s <= len * sides as int,
    ensures
        exists|f: Seq<u32>|
            f.len() == len && all_in_range(f, sides) && #[trigger] seq_sum(f) == s,
    decreases len,
{
    if len == 0 {
        assert(len * sides as int == 0) by (nonlinear_arith)
            requires len == 0;
        let f = Seq::<u32>::empty();
        assert(f.len() == len && all_in_range(f, sides) && seq_sum(f) == s);
    } else {
        let v: int = if s - (len - 1) <= sides as int {
            s - (len - 1)
        } else {
            sides as int
        };
        assert(1 <= v <= sides as int);
        assert((len - 1) * sides as int == len * sides as int - sides as int)
            by (nonlinear_arith);
        assert((len - 1) * sides as int >= len - 1) by (nonlinear_arith)
            requires len >= 1, sides >= 1;
        assert(len - 1 <= s - v <= (len - 1) * sides as int);
        lemma_sum_achievable((len - 1) as nat, sides, s - v);
        let rest = choose|f: Seq<u32>|
            f.len() == (len - 1) as nat && all_in_range(f, sides) && #[trigger] seq_sum(f) == s
                - v;
        let f = rest.push(v as u32);
        assert(f.drop_last() =~= rest);
        assert(f.last() == v as u32);
        assert(f.len() == len && all_in_range(f, sides) && seq_sum(f) == s);
    }
}

/// A sum bucket index is legal exactly when the sum it stands for,
/// `dice + k`, is achievable: between `dice` and `dice * sides`, and
/// actually shown by some roll of `dice` legal face values.
pub proof fn lemma_sum_index_achievable(sides: u32, dice: u32, k: int)
    requires
        2 <= sides,
        1 <= dice,
    ensures
        (0 <= k < dice as int * (sides - 1) as int + 1) <==> (dice as int <= dice as int + k
            <= dice as int * sides as int),
        (0 <= k < dice as int * (sides - 1) as int + 1) ==> exists|f: Seq<u32>|
            f.len() == dice && all_in_range(f, sides) && #[trigger] seq_sum(f) == dice as int + k,
{
    assert(dice as int * (sides - 1) as int == dice as int * sides as int - dice as int)
        by (nonlinear_arith);
    if 0 <= k < dice as int * (sides - 1) as int + 1 {
        lemma_sum_achievable(dice as nat, sides, dice as int + k);
    }
}

/// Tabulation is a function of the face sequence alone: two results
/// related to the same sequence agree in every field.
pub proof fn lemma_tabulates_deterministic(
    a: SimResult,
    b: SimResult,
    sides: u32,
    dice: u32,
    rolls: u64,
    faces: Seq<u32>,
)
    requires
        tabulates(a, sides, dice, rolls, faces),
        tabulates(b, sides, dice, rolls, faces),
    ensures
        a.face_counts@ == b.face_counts@,
        a.sum_counts@ == b.sum_counts@,
        a.min_sum == b.min_sum,
        a.max_sum == b.max_sum,
{
    assert(a.face_counts@ =~= b.face_counts@);
    assert(a.sum_counts@ =~= b.sum_counts@);
}

/// Run a dice simulation: roll `dice` dice of `sides` sides, `rolls`
/// times, drawing each face uniformly from the thread-local generator.
/// The result is the tabulation of some sequence of legal face values,
/// with all the structural invariants that implies.
#[verifier::loop_isolation(false)]
pub fn run_sim(sides: u32, dice: u32, rolls: u64) -> (res: SimResult)
    requires
        2 <= sides,
        1 <= dice,
        1 <= rolls,
        dice as int * sides as int <= u32::MAX,
        rolls as int * dice as int <= usize::MAX,
    ensures
        valid_sim_result(res, sides, dice, rolls),
        exists|faces: Seq<u32>| all_in_range(faces, sides) && #[trigger] tabulates(
            res,
            sides,
            dice,
            rolls,
            faces,
        ),
{
    assert(rolls as int <= rolls as int * dice as int) by (nonlinear_arith)
        requires dice >= 1, rolls >= 0;
    let total: usize = (rolls as usize) * (dice as usize);
    let mut faces: Vec<u32> = Vec::new();
    let mut rng = fresh_rng();
    let mut i: usize = 0;
    while i < total
        invariant
            i <= total,
            faces@.len() == i,
            all_in_range(faces@, sides),
        decreases total - i,
    {
        let f = draw_face(&mut rng, sides);
        faces.push(f);
        i = i + 1;
    }
    let res = tabulate(sides, dice, rolls, &faces);
    proof {
        lemma_tabulates_valid(res, sides, dice, rolls, faces@);
        assert(all_in_range(faces@, sides) && tabulates(res, sides, dice, rolls, faces@));
    }
    res
}

} // verus!
