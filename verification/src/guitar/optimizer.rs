use vstd::prelude::*;
use crate::error::GuitarError;
use crate::guitar::fretboard::{lemma_positions_sound, positions_for, FretPosition, Fretboard};
use crate::guitar::tuning::midis;
use crate::pitch::{pitch_text, Pitch};

verus! {

/// Weights of the fingering cost, in tenths of a cost unit.
#[derive(Debug, Clone, Copy, PartialEq, Eq, Structural)]
pub struct CostWeights {
    /// Per fret moved between successive notes.
    pub fret_distance_weight: i32,
    /// Per string crossed between successive notes.
    pub string_change_weight: i32,
    /// Reserved for hand-position shifts (not part of the cost).
    pub hand_position_shift_weight: i32,
    /// Added when the next note is an open string (negative: a bonus).
    pub open_string_bonus: i32,
}

impl Default for CostWeights {
    /// 1.0 per fret, 0.5 per string, 1.5 per shift, -0.2 for an open string.
    fn default() -> (r: CostWeights)
        ensures
            r == (CostWeights {
                fret_distance_weight: 10,
                string_change_weight: 5,
                hand_position_shift_weight: 15,
                open_string_bonus: -2i32,
            }),
    {
        CostWeights {
            fret_distance_weight: 10,
            string_change_weight: 5,
            hand_position_shift_weight: 15,
            open_string_bonus: -2,
        }
    }
}

pub open spec fn abs_diff(a: int, b: int) -> int {
    if a >= b { a - b } else { b - a }
}

/// Cost of moving from `prev` to `curr`: frets moved and strings crossed,
/// weighted, plus the open-string term when `curr` is an open string.
pub open spec fn transition(w: CostWeights, prev: FretPosition, curr: FretPosition) -> int {
    abs_diff(prev.fret as int, curr.fret as int) * w.fret_distance_weight + abs_diff(
        prev.string as int,
        curr.string as int,
    ) * w.string_change_weight + if curr.fret == 0 { w.open_string_bonus as int } else { 0 }
}

/// Cost of starting on `p`: its fret number in tenths (a pull towards the nut).
pub open spec fn start_cost(p: FretPosition) -> int {
    p.fret as int
}

/// Total cost of playing the positions `q` in order.
pub open spec fn fingering_cost(w: CostWeights, q: Seq<FretPosition>) -> int
    decreases q.len(),
{
    if q.len() == 0 {
        0
    } else if q.len() == 1 {
        start_cost(q[0])
    } else {
        fingering_cost(w, q.drop_last()) + transition(w, q[q.len() - 2], q.last())
    }
}

/// The candidate positions of each pitch on a fretboard.
pub open spec fn candidates(fb: Fretboard, pitches: Seq<Pitch>) -> Seq<Seq<FretPosition>> {
    Seq::new(
        pitches.len(),
        |t: int| positions_for(midis(fb.tuning.strings@), pitches[t]@, fb.fret_count as int),
    )
}

/// `q` plays, at each step, one of that step's candidate positions.
pub open spec fn follows(q: Seq<FretPosition>, c: Seq<Seq<FretPosition>>) -> bool {
    &&& q.len() == c.len()
    &&& forall|t: int| 0 <= t < q.len() ==> #[trigger] c[t].contains(q[t])
}

/// `q` plays candidates of the first `q.len()` steps and ends on `c[t][j]`.
pub open spec fn prefix_ending(q: Seq<FretPosition>, c: Seq<Seq<FretPosition>>, t: int, j: int) -> bool {
    &&& q.len() == t + 1
    &&& forall|s: int| 0 <= s <= t ==> #[trigger] c[s].contains(q[s])
    &&& q[t] == c[t][j]
}

/// The index path that back-pointers `back` give from candidate `j` of step `t`.
pub open spec fn index_path(back: Seq<Seq<usize>>, t: int, j: int) -> Seq<int>
    decreases t,
{
    if t <= 0 {
        seq![j]
    } else {
        index_path(back, t - 1, back[t][j] as int).push(j)
    }
}

/// The positions an index path selects.
pub open spec fn select(c: Seq<Seq<FretPosition>>, ip: Seq<int>) -> Seq<FretPosition> {
    Seq::new(ip.len(), |s: int| c[s][ip[s]])
}

/// Back-pointers of the first `n` steps point at candidates of the step before.
pub open spec fn back_ok(c: Seq<Seq<FretPosition>>, back: Seq<Seq<usize>>, n: int) -> bool {
    &&& back.len() >= n
    &&& forall|t: int|
        #![trigger back[t]]
        0 < t < n ==> back[t].len() == c[t].len() && forall|j: int|
            0 <= j < c[t].len() ==> #[trigger] back[t][j] < c[t - 1].len()
}

proof fn lemma_index_path(c: Seq<Seq<FretPosition>>, back: Seq<Seq<usize>>, n: int, t: int, j: int)
    requires
        0 <= t < n <= c.len(),
        back_ok(c, back, n),
        0 <= j < c[t].len(),
    ensures
        index_path(back, t, j).len() == t + 1,
        index_path(back, t, j)[t] == j,
        forall|s: int|
            0 <= s <= t ==> 0 <= #[trigger] index_path(back, t, j)[s] < c[s].len(),
        forall|s: int|
            0 < s <= t ==> index_path(back, t, j)[s - 1] == back[s][#[trigger] index_path(
                back,
                t,
                j,
            )[s] as int] as int,
    decreases t,
{
    if t > 0 {
        let b = back[t][j] as int;
        assert(b < c[t - 1].len());
        lemma_index_path(c, back, n, t - 1, b);
        let prev = index_path(back, t - 1, b);
        let ip = index_path(back, t, j);
        assert(ip == prev.push(j));
        assert forall|s: int| 0 < s <= t implies ip[s - 1] == back[s][#[trigger] ip[s] as int] as int by {
            if s < t {
                assert(ip[s] == prev[s]);
                assert(ip[s - 1] == prev[s - 1]);
            }
        }
    }
}

/// Bound on the size of one transition.
pub open spec fn step_bound() -> int {
    0x100_0000_0000
}

proof fn lemma_transition_bound(w: CostWeights, p: FretPosition, q: FretPosition)
    ensures
        -step_bound() <= transition(w, p, q) <= step_bound(),
{
    let a = abs_diff(p.fret as int, q.fret as int);
    let b = abs_diff(p.string as int, q.string as int);
    let x = w.fret_distance_weight as int;
    let y = w.string_change_weight as int;
    assert(-255 * 0x8000_0000 <= a * x <= 255 * 0x8000_0000) by (nonlinear_arith)
        requires
            0 <= a <= 255,
            -0x8000_0000 <= x <= 0x8000_0000,
    ;
    assert(-255 * 0x8000_0000 <= b * y <= 255 * 0x8000_0000) by (nonlinear_arith)
        requires
            0 <= b <= 255,
            -0x8000_0000 <= y <= 0x8000_0000,
    ;
}

proof fn lemma_select_step(c: Seq<Seq<FretPosition>>, back: Seq<Seq<usize>>, n: int, t: int, j: int, w: CostWeights)
    requires
        0 < t < n <= c.len(),
        back_ok(c, back, n),
        0 <= j < c[t].len(),
    ensures
        select(c, index_path(back, t, j)) == select(c, index_path(back, t - 1, back[t][j] as int)).push(c[t][j]),
        fingering_cost(w, select(c, index_path(back, t, j))) == fingering_cost(
            w,
            select(c, index_path(back, t - 1, back[t][j] as int)),
        ) + transition(w, c[t - 1][back[t][j] as int], c[t][j]),
{
    let b = back[t][j] as int;
    lemma_index_path(c, back, n, t - 1, b);
    lemma_index_path(c, back, n, t, j);
    let big = select(c, index_path(back, t, j));
    let small = select(c, index_path(back, t - 1, b));
    assert(big =~= small.push(c[t][j]));
    assert(big.drop_last() =~= small);
    assert(big[big.len() - 2] == c[t - 1][b]);
}

/// The positions an index path of the first `t + 1` steps selects end on
/// its last candidate and follow the candidates.
proof fn lemma_select_prefix(c: Seq<Seq<FretPosition>>, back: Seq<Seq<usize>>, n: int, t: int, j: int)
    requires
        0 <= t < n <= c.len(),
        back_ok(c, back, n),
        0 <= j < c[t].len(),
    ensures
        prefix_ending(select(c, index_path(back, t, j)), c, t, j),
{
    lemma_index_path(c, back, n, t, j);
    let q = select(c, index_path(back, t, j));
    assert forall|s: int| 0 <= s <= t implies #[trigger] c[s].contains(q[s]) by {
        let k = index_path(back, t, j)[s];
        assert(0 <= k < c[s].len());
        assert(q[s] == c[s][k]);
    }
}

/// `index_path` reads only the back-pointers of steps `1..=t`.
proof fn lemma_index_path_prefix(b1: Seq<Seq<usize>>, b2: Seq<Seq<usize>>, t: int, j: int)
    requires
        0 <= t,
        t < b1.len(),
        t < b2.len(),
        forall|s: int| 0 < s <= t ==> b1[s] == b2[s],
    ensures
        index_path(b1, t, j) == index_path(b2, t, j),
    decreases t,
{
    if t > 0 {
        lemma_index_path_prefix(b1, b2, t - 1, b1[t][j] as int);
    }
}

/// State of the forward pass after the first `t` steps: each cost is that of
/// the positions its back-pointers select, and no way of playing the first
/// steps that ends on the same candidate costs less.
pub open spec fn dp_ok(
    w: CostWeights,
    c: Seq<Seq<FretPosition>>,
    back: Seq<Seq<usize>>,
    cost: Seq<Seq<i128>>,
    t: int,
) -> bool {
    &&& 0 < t <= c.len()
    &&& back.len() == t
    &&& cost.len() == t
    &&& back_ok(c, back, t)
    &&& forall|s: int| #![trigger cost[s]] 0 <= s < t ==> cost[s].len() == c[s].len()
    &&& forall|s: int, j: int|
        #![trigger cost[s][j]]
        0 <= s < t && 0 <= j < c[s].len() ==> {
            &&& cost[s][j] == fingering_cost(w, select(c, index_path(back, s, j)))
            &&& -s * step_bound() <= cost[s][j] <= 255 + s * step_bound()
        }
    &&& forall|s: int, j: int, q: Seq<FretPosition>|
        #![trigger prefix_ending(q, c, s, j)]
        0 <= s < t && 0 <= j < c[s].len() && prefix_ending(q, c, s, j) ==> fingering_cost(w, q)
            >= cost[s][j]
}

/// Index of the first smallest value among `v[0..k]`.
pub open spec fn first_min(v: Seq<int>, k: int) -> int
    decreases k,
{
    if k <= 1 {
        0
    } else {
        let i = first_min(v, k - 1);
        if v[k - 1] < v[i] { k - 1 } else { i }
    }
}

/// Cost of reaching candidate `j` of step `t` through each candidate of the
/// step before, given the best costs `prev` of that step.
pub open spec fn via(w: CostWeights, c: Seq<Seq<FretPosition>>, prev: Seq<int>, t: int, j: int) -> Seq<int> {
    Seq::new(c[t - 1].len(), |p: int| prev[p] + transition(w, c[t - 1][p], c[t][j]))
}

/// Best cost of ending step `t` on each of its candidates.
pub open spec fn dp_costs(w: CostWeights, c: Seq<Seq<FretPosition>>, t: int) -> Seq<int>
    decreases t,
{
    if t <= 0 {
        Seq::new(c[0].len(), |j: int| start_cost(c[0][j]))
    } else {
        let prev = dp_costs(w, c, t - 1);
        Seq::new(
            c[t].len(),
            |j: int|
                {
                    let v = via(w, c, prev, t, j);
                    v[first_min(v, v.len() as int)]
                },
        )
    }
}

/// The predecessor chosen for each candidate of step `t`: the first of the
/// cheapest ways in (0 at the first step).
pub open spec fn dp_back(w: CostWeights, c: Seq<Seq<FretPosition>>, t: int) -> Seq<usize> {
    if t <= 0 {
        Seq::new(c[0].len(), |j: int| 0usize)
    } else {
        let prev = dp_costs(w, c, t - 1);
        Seq::new(
            c[t].len(),
            |j: int| first_min(via(w, c, prev, t, j), c[t - 1].len() as int) as usize,
        )
    }
}

pub open spec fn back_table(w: CostWeights, c: Seq<Seq<FretPosition>>) -> Seq<Seq<usize>> {
    Seq::new(c.len(), |t: int| dp_back(w, c, t))
}

/// The fingering that the forward pass and the back-tracking choose: the
/// first cheapest final candidate, reached through first cheapest predecessors.
pub open spec fn viterbi(w: CostWeights, c: Seq<Seq<FretPosition>>) -> Seq<FretPosition> {
    if c.len() == 0 {
        Seq::<FretPosition>::empty()
    } else {
        let last = c.len() - 1;
        let fin = dp_costs(w, c, last);
        select(c, index_path(back_table(w, c), last, first_min(fin, fin.len() as int)))
    }
}

/// `a` holds the integers `b`.
pub open spec fn same_ints(a: Seq<i128>, b: Seq<int>) -> bool {
    &&& a.len() == b.len()
    &&& forall|j: int| 0 <= j < a.len() ==> #[trigger] a[j] as int == b[j]
}

proof fn lemma_first_min_range(v: Seq<int>, k: int)
    requires
        k >= 1,
    ensures
        0 <= first_min(v, k) < k,
    decreases k,
{
    if k > 1 {
        lemma_first_min_range(v, k - 1);
    }
}

/// The candidate lists held match `c`, and none is empty.
pub open spec fn cands_match(cands: Seq<Vec<FretPosition>>, c: Seq<Seq<FretPosition>>) -> bool {
    &&& cands.len() == c.len()
    &&& forall|s: int| 0 <= s < c.len() ==> #[trigger] cands[s]@ == c[s] && c[s].len() > 0
}

/// Dynamic-programming fingering optimizer.
pub struct FingeringOptimizer {
    pub fretboard: Fretboard,
    pub weights: CostWeights,
}

impl FingeringOptimizer {
    /// An optimizer with the default weights.
    pub fn new(fretboard: Fretboard) -> (r: FingeringOptimizer)
        ensures
            r.fretboard == fretboard,
            r.weights == (CostWeights {
                fret_distance_weight: 10,
                string_change_weight: 5,
                hand_position_shift_weight: 15,
                open_string_bonus: -2i32,
            }),
    {
        FingeringOptimizer { fretboard, weights: CostWeights::default() }
    }

    pub fn with_weights(self, weights: CostWeights) -> (r: FingeringOptimizer)
        ensures
            r.fretboard == self.fretboard,
            r.weights == weights,
    {
        FingeringOptimizer { fretboard: self.fretboard, weights }
    }

    /// Cost, in tenths, of moving from `prev` to `curr`.
    pub fn transition_cost(&self, prev: &FretPosition, curr: &FretPosition) -> (r: i64)
        ensures
            r == transition(self.weights, *prev, *curr),
    {
        proof {
            lemma_transition_bound(self.weights, *prev, *curr);
        }
        let fret_dist: i64 = if prev.fret >= curr.fret {
            (prev.fret - curr.fret) as i64
        } else {
            (curr.fret - prev.fret) as i64
        };
        let string_dist: i64 = if prev.string >= curr.string {
            (prev.string - curr.string) as i64
        } else {
            (curr.string - prev.string) as i64
        };
        let fw = self.weights.fret_distance_weight as i64;
        let sw = self.weights.string_change_weight as i64;
        assert(-255 * 0x8000_0000 <= fret_dist * fw <= 255 * 0x8000_0000) by (nonlinear_arith)
            requires
                0 <= fret_dist <= 255,
                -0x8000_0000 <= fw <= 0x8000_0000,
        ;
        assert(-255 * 0x8000_0000 <= string_dist * sw <= 255 * 0x8000_0000) by (nonlinear_arith)
            requires
                0 <= string_dist <= 255,
                -0x8000_0000 <= sw <= 0x8000_0000,
        ;
        let mut cost = fret_dist * fw + string_dist * sw;
        if curr.fret == 0 {
            cost = cost + self.weights.open_string_bonus as i64;
        }
        cost
    }

    /// Chooses a position for each pitch of a melody so that the total
    /// fingering cost is as small as possible (a Viterbi pass over the
    /// candidate positions). A pitch with no position on the fretboard is
    /// refused, naming the first such pitch.
    pub fn optimize_melody(&self, pitches: &[Pitch]) -> (r: Result<Vec<FretPosition>, GuitarError>)
        ensures
            ({
                let c = candidates(self.fretboard, pitches@);
                &&& r is Err <==> exists|t: int| 0 <= t < c.len() && #[trigger] c[t].len() == 0
                &&& r matches Err(e) ==> exists|t: int|
                    0 <= t < c.len() && #[trigger] c[t].len() == 0 && (forall|s: int|
                        0 <= s < t ==> c[s].len() > 0) && (e matches GuitarError::OutOfRange(m) && m@
                        == pitch_text(pitches@[t]@))
                &&& r matches Ok(q) ==> {
                    &&& q@ == viterbi(self.weights, c)
                    &&& follows(q@, c)
                    &&& forall|o: Seq<FretPosition>|
                        follows(o, c) ==> fingering_cost(self.weights, q@) <= fingering_cost(
                            self.weights,
                            o,
                        )
                }
            }),
    {
        let n = pitches.len();
        let ghost c = candidates(self.fretboard, pitches@);
        let ghost w = self.weights;
        if n == 0 {
            let r: Vec<FretPosition> = Vec::new();
            assert(follows(r@, c));
            return Ok(r);
        }
        // Candidate positions of every step.
        let mut cands: Vec<Vec<FretPosition>> = Vec::new();
        let mut i: usize = 0;
        while i < n
            invariant
                n == pitches@.len(),
                c == candidates(self.fretboard, pitches@),
                i <= n,
                cands@.len() == i,
                forall|t: int| 0 <= t < i ==> #[trigger] cands@[t]@ == c[t] && c[t].len() > 0,
            decreases n - i,
        {
            let positions = self.fretboard.find_positions(&pitches[i]);
            assert(c[i as int] == positions@);
            if positions.len() == 0 {
                let m = pitches[i].to_string();
                assert(c[i as int].len() == 0);
                assert(forall|s: int| 0 <= s < i ==> c[s].len() > 0) by {
                    assert forall|s: int| 0 <= s < i implies c[s].len() > 0 by {
                        assert(cands@[s]@ == c[s]);
                    }
                }
                return Err(GuitarError::OutOfRange(m));
            }
            cands.push(positions);
            i = i + 1;
        }
        assert forall|t: int| 0 <= t < c.len() implies #[trigger] c[t].len() > 0 by {
            assert(cands@[t]@ == c[t]);
        }
        assert(cands_match(cands@, c));
        assert(cands@[0]@ == c[0]);
        // Step 0: the start costs.
        let mut cost: Vec<Vec<i128>> = Vec::new();
        let mut back: Vec<Vec<usize>> = Vec::new();
        let mut row_cost: Vec<i128> = Vec::new();
        let mut row_back: Vec<usize> = Vec::new();
        let m0 = cands[0].len();
        let mut j: usize = 0;
        while j < m0
            invariant
                n == c.len(),
                n > 0,
                cands@.len() == n,
                m0 == c[0].len(),
                cands@[0]@ == c[0],
                j <= m0,
                row_cost@.len() == j,
                row_back@.len() == j,
                forall|k: int| 0 <= k < j ==> #[trigger] row_cost@[k] == start_cost(c[0][k]),
                forall|k: int| 0 <= k < j ==> #[trigger] row_back@[k] == 0,
            decreases m0 - j,
        {
            row_cost.push(cands[0][j].fret as i128);
            row_back.push(0);
            j = j + 1;
        }
        cost.push(row_cost);
        back.push(row_back);
        let ghost gb: Seq<Seq<usize>> = seq![back@[0]@];
        let ghost gc: Seq<Seq<i128>> = seq![cost@[0]@];
        proof {
            assert forall|s: int, k: int| 0 <= s < 1 && 0 <= k < c[s].len() implies {
                &&& #[trigger] gc[s][k] == fingering_cost(w, select(c, index_path(gb, s, k)))
                &&& -s * step_bound() <= gc[s][k] <= 255 + s * step_bound()
            } by {
                assert(select(c, index_path(gb, 0, k)) =~= seq![c[0][k]]);
            }
            assert forall|s: int, k: int, q: Seq<FretPosition>|
                0 <= s < 1 && 0 <= k < c[s].len() && #[trigger] prefix_ending(q, c, s, k) implies
                fingering_cost(w, q) >= gc[s][k] by {}
            assert(dp_ok(w, c, gb, gc, 1));
            assert(same_ints(gc[0], dp_costs(w, c, 0)));
            assert(gb[0] =~= dp_back(w, c, 0));
        }
        // Forward pass.
        let mut t: usize = 1;
        while t < n
            invariant
                n == pitches@.len(),
                n == c.len(),
                w == self.weights,
                cands@.len() == n,
                cands_match(cands@, c),
                1 <= t <= n,
                back@.len() == t,
                cost@.len() == t,
                forall|s: int| 0 <= s < t ==> #[trigger] back@[s]@ == gb[s],
                forall|s: int| 0 <= s < t ==> #[trigger] cost@[s]@ == gc[s],
                dp_ok(w, c, gb, gc, t as int),
                forall|s: int| #![trigger gc[s]] 0 <= s < t ==> same_ints(gc[s], dp_costs(w, c, s)),
                forall|s: int| #![trigger gb[s]] 0 <= s < t ==> gb[s] == dp_back(w, c, s),
            decreases n - t,
        {
            let prev_len = cands[t - 1].len();
            let cur_len = cands[t].len();
            assert(cands@[t - 1]@ == c[t - 1]);
            assert(cands@[t as int]@ == c[t as int]);
            assert(prev_len > 0);
            let mut row_cost: Vec<i128> = Vec::new();
            let mut row_back: Vec<usize> = Vec::new();
            let mut j: usize = 0;
            while j < cur_len
                invariant
                    n == c.len(),
                    1 <= t < n,
                    w == self.weights,
                    cands@.len() == n,
                    cands_match(cands@, c),
                    cost@.len() == t,
                    forall|s: int| 0 <= s < t ==> #[trigger] cost@[s]@ == gc[s],
                    dp_ok(w, c, gb, gc, t as int),
                    prev_len == c[t - 1].len(),
                    prev_len > 0,
                    cur_len == c[t as int].len(),
                    j <= cur_len,
                    row_cost@.len() == j,
                    row_back@.len() == j,
                    forall|k: int|
                        0 <= k < j ==> #[trigger] row_back@[k] < prev_len && row_cost@[k] == gc[t
                            - 1][row_back@[k] as int] + transition(
                            w,
                            c[t - 1][row_back@[k] as int],
                            c[t as int][k],
                        ),
                    forall|k: int, p: int|
                        0 <= k < j && 0 <= p < prev_len ==> #[trigger] row_cost@[k] <= gc[t - 1][p]
                            + #[trigger] transition(w, c[t - 1][p], c[t as int][k]),
                    same_ints(gc[t - 1], dp_costs(w, c, t - 1)),
                    forall|k: int|
                        0 <= k < j ==> #[trigger] row_cost@[k] as int == dp_costs(w, c, t as int)[k]
                            && row_back@[k] == dp_back(w, c, t as int)[k],
                decreases cur_len - j,
            {
                let mut best: i128 = 0;
                let mut best_idx: usize = 0;
                let mut p: usize = 0;
                let ghost v = via(w, c, dp_costs(w, c, t - 1), t as int, j as int);
                while p < prev_len
                    invariant
                        n == c.len(),
                        1 <= t < n,
                        w == self.weights,
                        cands@.len() == n,
                        cands_match(cands@, c),
                        cost@.len() == t,
                        forall|s: int| 0 <= s < t ==> #[trigger] cost@[s]@ == gc[s],
                        dp_ok(w, c, gb, gc, t as int),
                        prev_len == c[t - 1].len(),
                        prev_len > 0,
                        cur_len == c[t as int].len(),
                        j < cur_len,
                        p <= prev_len,
                        p > 0 ==> best_idx < p && best == gc[t - 1][best_idx as int] + transition(
                            w,
                            c[t - 1][best_idx as int],
                            c[t as int][j as int],
                        ),
                        forall|q: int|
                            0 <= q < p ==> best <= gc[t - 1][q] + #[trigger] transition(
                                w,
                                c[t - 1][q],
                                c[t as int][j as int],
                            ),
                        same_ints(gc[t - 1], dp_costs(w, c, t - 1)),
                        v == via(w, c, dp_costs(w, c, t - 1), t as int, j as int),
                        p > 0 ==> best_idx == first_min(v, p as int) && best as int == v[best_idx as int],
                    decreases prev_len - p,
                {
                    let prev_pos = cands[t - 1][p];
                    let cur_pos = cands[t][j];
                    let step = self.transition_cost(&prev_pos, &cur_pos) as i128;
                    let before = cost[t - 1][p];
                    proof {
                        assert(before == gc[t - 1][p as int]);
                        assert(-(t - 1) * step_bound() <= before <= 255 + (t - 1) * step_bound());
                        lemma_transition_bound(w, prev_pos, cur_pos);
                    }
                    let val = before + step;
                    proof {
                        assert(val as int == v[p as int]);
                        if p > 0 {
                            lemma_first_min_range(v, p as int);
                        }
                    }
                    if p == 0 || val < best {
                        best = val;
                        best_idx = p;
                    }
                    p = p + 1;
                }
                proof {
                    assert(v.len() == prev_len);
                    assert(dp_costs(w, c, t as int)[j as int] == v[first_min(v, v.len() as int)]);
                    assert(dp_back(w, c, t as int)[j as int] == first_min(v, prev_len as int) as usize);
                }
                row_cost.push(best);
                row_back.push(best_idx);
                j = j + 1;
            }
            proof {
                let ngb = gb.push(row_back@);
                let ngc = gc.push(row_cost@);
                let ti = t as int;
                assert(back_ok(c, ngb, ti + 1)) by {
                    assert forall|s: int| #![trigger ngb[s]] 0 < s < ti + 1 implies ngb[s].len()
                        == c[s].len() && forall|k: int|
                        0 <= k < c[s].len() ==> #[trigger] ngb[s][k] < c[s - 1].len() by {
                        if s < ti {
                            assert(ngb[s] == gb[s]);
                        }
                    }
                }
                assert forall|s: int, k: int| 0 <= s < ti + 1 && 0 <= k < c[s].len() implies {
                    &&& #[trigger] ngc[s][k] == fingering_cost(w, select(c, index_path(ngb, s, k)))
                    &&& -s * step_bound() <= ngc[s][k] <= 255 + s * step_bound()
                } by {
                    if s < ti {
                        assert(ngc[s] == gc[s]);
                        lemma_index_path_prefix(gb, ngb, s, k);
                    } else {
                        let b = row_back@[k] as int;
                        lemma_select_step(c, ngb, ti + 1, ti, k, w);
                        lemma_index_path_prefix(gb, ngb, ti - 1, b);
                        assert(ngb[ti][k] == row_back@[k]);
                        assert(gc[ti - 1][b] == fingering_cost(w, select(c, index_path(gb, ti - 1, b))));
                        lemma_transition_bound(w, c[ti - 1][b], c[ti][k]);
                        assert(-(ti - 1) * step_bound() <= gc[ti - 1][b] <= 255 + (ti - 1) * step_bound());
                    }
                }
                assert forall|s: int, k: int, q: Seq<FretPosition>|
                    0 <= s < ti + 1 && 0 <= k < c[s].len() && #[trigger] prefix_ending(q, c, s, k)
                    implies fingering_cost(w, q) >= ngc[s][k] by {
                    if s < ti {
                        assert(ngc[s] == gc[s]);
                        assert(fingering_cost(w, q) >= gc[s][k]);
                    } else {
                        let qp = q.drop_last();
                        assert(c[ti - 1].contains(q[ti - 1]));
                        let p = choose|p: int| 0 <= p < c[ti - 1].len() && #[trigger] c[ti - 1][p] == q[ti - 1];
                        assert(prefix_ending(qp, c, ti - 1, p)) by {
                            assert forall|x: int| 0 <= x <= ti - 1 implies #[trigger] c[x].contains(qp[x]) by {
                                assert(qp[x] == q[x]);
                                assert(c[x].contains(q[x]));
                            }
                        }
                        assert(fingering_cost(w, qp) >= gc[ti - 1][p]);
                        assert(fingering_cost(w, q) == fingering_cost(w, qp) + transition(w, q[ti - 1], q[ti]));
                        assert(row_cost@[k] <= gc[ti - 1][p] + transition(w, c[ti - 1][p], c[ti][k]));
                    }
                }
                assert(dp_ok(w, c, ngb, ngc, ti + 1));
                assert forall|s: int| #![trigger ngc[s]] 0 <= s < ti + 1 implies same_ints(ngc[s], dp_costs(w, c, s)) by {
                    if s < ti {
                        assert(ngc[s] == gc[s]);
                    }
                }
                assert forall|s: int| #![trigger ngb[s]] 0 <= s < ti + 1 implies ngb[s] == dp_back(w, c, s) by {
                    if s < ti {
                        assert(ngb[s] == gb[s]);
                    } else {
                        assert(ngb[s] =~= dp_back(w, c, s));
                    }
                }
                gb = ngb;
                gc = ngc;
            }
            cost.push(row_cost);
            back.push(row_back);
            t = t + 1;
        }
        // The cheapest final candidate.
        let last = n - 1;
        let m_last = cands[last].len();
        let mut best: i128 = cost[last][0];
        let mut bi: usize = 0;
        let mut k: usize = 1;
        while k < m_last
            invariant
                n == c.len(),
                last == n - 1,
                cost@.len() == n,
                forall|s: int| 0 <= s < n ==> #[trigger] cost@[s]@ == gc[s],
                dp_ok(w, c, gb, gc, n as int),
                m_last == c[last as int].len(),
                1 <= k <= m_last,
                bi < k,
                best == gc[last as int][bi as int],
                forall|p: int| 0 <= p < k ==> best <= #[trigger] gc[last as int][p],
                same_ints(gc[last as int], dp_costs(w, c, last as int)),
                bi == first_min(dp_costs(w, c, last as int), k as int),
            decreases m_last - k,
        {
            let val = cost[last][k];
            proof {
                assert(val as int == dp_costs(w, c, last as int)[k as int]);
                assert(best as int == dp_costs(w, c, last as int)[bi as int]);
            }
            if val < best {
                best = val;
                bi = k;
            }
            k = k + 1;
        }
        // Follow the back-pointers from the end.
        let mut ip: Vec<usize> = Vec::new();
        let mut z: usize = 0;
        while z < n
            invariant
                z <= n,
                ip@.len() == z,
            decreases n - z,
        {
            ip.push(0);
            z = z + 1;
        }
        let ghost full = index_path(gb, last as int, bi as int);
        proof {
            lemma_index_path(c, gb, n as int, last as int, bi as int);
        }
        let mut cur: usize = bi;
        let mut u: usize = n;
        while u > 0
            invariant
                n == c.len(),
                last == n - 1,
                back@.len() == n,
                forall|s: int| 0 <= s < n ==> #[trigger] back@[s]@ == gb[s],
                dp_ok(w, c, gb, gc, n as int),
                full == index_path(gb, last as int, bi as int),
                full.len() == n,
                forall|s: int| 0 <= s < n ==> 0 <= #[trigger] full[s] < c[s].len(),
                forall|s: int| 0 < s < n ==> full[s - 1] == gb[s][#[trigger] full[s] as int] as int,
                u <= n,
                ip@.len() == n,
                u > 0 ==> cur == full[u - 1],
                forall|s: int| u <= s < n ==> #[trigger] ip@[s] == full[s],
            decreases u,
        {
            ip.set(u - 1, cur);
            if u - 1 > 0 {
                assert(full[u - 2] == gb[u - 1][full[u - 1] as int] as int);
                cur = back[u - 1][cur];
            }
            u = u - 1;
        }
        let mut res: Vec<FretPosition> = Vec::new();
        let mut s: usize = 0;
        while s < n
            invariant
                n == c.len(),
                cands@.len() == n,
                cands_match(cands@, c),
                full.len() == n,
                forall|x: int| 0 <= x < n ==> 0 <= #[trigger] full[x] < c[x].len(),
                ip@.len() == n,
                forall|x: int| 0 <= x < n ==> #[trigger] ip@[x] == full[x],
                s <= n,
                res@.len() == s,
                forall|x: int| 0 <= x < s ==> #[trigger] res@[x] == c[x][full[x]],
            decreases n - s,
        {
            res.push(cands[s][ip[s]]);
            s = s + 1;
        }
        proof {
            let q = res@;
            assert(q =~= select(c, full));
            let bt = back_table(w, c);
            assert forall|x: int| 0 < x <= last implies gb[x] == bt[x] by {
                assert(gb[x] == dp_back(w, c, x));
            }
            lemma_index_path_prefix(gb, bt, last as int, bi as int);
            assert(dp_costs(w, c, last as int).len() == m_last);
            assert(q == viterbi(w, c));
            lemma_select_prefix(c, gb, n as int, last as int, bi as int);
            assert(follows(q, c));
            assert forall|o: Seq<FretPosition>| follows(o, c) implies fingering_cost(w, q)
                <= fingering_cost(w, o) by {
                let li = last as int;
                assert(c[li].contains(o[li]));
                let jj = choose|jj: int| 0 <= jj < c[li].len() && #[trigger] c[li][jj] == o[li];
                assert(prefix_ending(o, c, li, jj));
                assert(fingering_cost(w, o) >= gc[li][jj]);
                assert(gc[li][bi as int] <= gc[li][jj]);
            }
        }
        Ok(res)
    }
}

/// A fingering that takes each step's position among that step's candidates
/// plays the melody: each position is on a string of the tuning, within the
/// frets, and its open string plus its fret is the step's pitch.
pub proof fn lemma_fingering_plays_melody(fb: Fretboard, pitches: Seq<Pitch>, q: Seq<FretPosition>)
    requires
        fb.tuning.strings@.len() <= 255,
        forall|i: int| 0 <= i < fb.tuning.strings@.len() ==> 0 <= #[trigger] fb.tuning.strings@[i]@ <= 127,
        forall|t: int| 0 <= t < pitches.len() ==> 0 <= #[trigger] pitches[t]@ <= 127,
        follows(q, candidates(fb, pitches)),
    ensures
        forall|t: int|
            0 <= t < q.len() ==> {
                let strings = midis(fb.tuning.strings@);
                let p = #[trigger] q[t];
                &&& 0 < p.string <= strings.len()
                &&& p.fret <= fb.fret_count
                &&& strings[strings.len() - p.string] + p.fret == pitches[t]@
            },
{
    let strings = midis(fb.tuning.strings@);
    let c = candidates(fb, pitches);
    assert forall|t: int| 0 <= t < q.len() implies {
        let p = #[trigger] q[t];
        &&& 0 < p.string <= strings.len()
        &&& p.fret <= fb.fret_count
        &&& strings[strings.len() - p.string] + p.fret == pitches[t]@
    } by {
        assert(c[t].contains(q[t]));
        let j = choose|j: int| 0 <= j < c[t].len() && c[t][j] == q[t];
        assert forall|i: int| 0 <= i < strings.len() implies 0 <= #[trigger] strings[i] <= 127 by {
            assert(strings[i] == fb.tuning.strings@[i]@);
        }
        lemma_positions_sound(strings, pitches[t]@, fb.fret_count as int, strings.len() as int);
        assert(c[t] == positions_for(strings, pitches[t]@, fb.fret_count as int));
    }
}

/// The cost of a move counts the frets moved and the strings crossed,
/// whichever way: it is the fret distance times the fret weight plus the
/// string distance times the string weight, plus the open-string term when
/// the move lands on an open string; so, apart from that term, moving from
/// `p` to `q` costs what moving from `q` to `p` costs.
pub proof fn lemma_transition_counts_distances(w: CostWeights, p: FretPosition, q: FretPosition)
    ensures
        transition(w, p, q) == (if p.fret >= q.fret { p.fret - q.fret } else { q.fret - p.fret })
            * w.fret_distance_weight + (if p.string >= q.string {
            p.string - q.string
        } else {
            q.string - p.string
        }) * w.string_change_weight + (if q.fret == 0 { w.open_string_bonus as int } else { 0 }),
        transition(w, p, q) - (if q.fret == 0 { w.open_string_bonus as int } else { 0 }) == transition(
            w,
            q,
            p,
        ) - (if p.fret == 0 { w.open_string_bonus as int } else { 0 }),
{
}

} // verus!
