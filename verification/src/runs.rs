//! Runs of equal pitches in a stream of pitch detections, the notes a
//! pitch-only segmentation makes of them.
use vstd::prelude::*;
use crate::pitch::Pitch;

verus! {

/// `r` cuts `s` into its maximal runs of equal pitches: each run is given
/// by its first and last index, the runs follow each other without gap
/// from the first element to the last, every element of a run has the
/// run's pitch, and neighbouring runs differ in pitch.
pub open spec fn is_run_partition(s: Seq<Pitch>, r: Seq<(usize, usize)>) -> bool {
    &&& (r.len() == 0 <==> s.len() == 0)
    &&& r.len() > 0 ==> r[0].0 == 0 && r[r.len() - 1].1 == s.len() - 1
    &&& forall|k: int| 0 <= k < r.len() ==> #[trigger] r[k].0 <= r[k].1
    &&& forall|k: int| 0 <= k < r.len() - 1 ==> #[trigger] r[k + 1].0 == r[k].1 + 1
    &&& forall|k: int, i: int|
        0 <= k < r.len() && r[k].0 <= i <= r[k].1 ==> #[trigger] s[i] == #[trigger] s[r[k].0 as int]
    &&& forall|k: int| 0 <= k < r.len() - 1 ==> s[#[trigger] r[k].1 as int] != s[r[k + 1].0 as int]
}

/// The maximal runs of equal consecutive pitches, as (first, last) indices.
pub fn pitch_runs(s: &[Pitch]) -> (r: Vec<(usize, usize)>)
    ensures
        is_run_partition(s@, r@),
{
    let n = s.len();
    let mut r: Vec<(usize, usize)> = Vec::new();
    if n == 0 {
        return r;
    }
    let mut start: usize = 0;
    let mut i: usize = 1;
    while i < n
        invariant
            n == s@.len(),
            0 <= start < i <= n,
            forall|j: int| start <= j < i ==> #[trigger] s@[j] == s@[start as int],
            r@.len() == 0 ==> start == 0,
            r@.len() > 0 ==> r@[0].0 == 0 && r@[r@.len() - 1].1 + 1 == start,
            r@.len() > 0 ==> s@[r@[r@.len() - 1].1 as int] != s@[start as int],
            forall|k: int| 0 <= k < r@.len() ==> #[trigger] r@[k].0 <= r@[k].1,
            forall|k: int| 0 <= k < r@.len() - 1 ==> #[trigger] r@[k + 1].0 == r@[k].1 + 1,
            forall|k: int, j: int|
                0 <= k < r@.len() && r@[k].0 <= j <= r@[k].1 ==> #[trigger] s@[j] == #[trigger] s@[r@[k].0 as int],
            forall|k: int| 0 <= k < r@.len() - 1 ==> s@[#[trigger] r@[k].1 as int] != s@[r@[k + 1].0 as int],
        decreases n - i,
    {
        if s[i] != s[start] {
            let ghost old_r = r@;
            r.push((start, i - 1));
            assert(s@[(i - 1) as int] == s@[start as int]);
            assert forall|k: int, j: int|
                0 <= k < r@.len() && r@[k].0 <= j <= r@[k].1 implies #[trigger] s@[j] == #[trigger] s@[r@[k].0 as int] by {
                if k < old_r.len() {
                    assert(r@[k] == old_r[k]);
                }
            }
            assert forall|k: int| 0 <= k < r@.len() - 1 implies s@[#[trigger] r@[k].1 as int] != s@[r@[k + 1].0 as int] by {
                if k < old_r.len() - 1 {
                    assert(r@[k] == old_r[k]);
                    assert(r@[k + 1] == old_r[k + 1]);
                }
            }
            start = i;
        }
        i = i + 1;
    }
    let ghost old_r = r@;
    r.push((start, n - 1));
    assert forall|k: int, j: int|
        0 <= k < r@.len() && r@[k].0 <= j <= r@[k].1 implies #[trigger] s@[j] == #[trigger] s@[r@[k].0 as int] by {
        if k < old_r.len() {
            assert(r@[k] == old_r[k]);
        }
    }
    assert forall|k: int| 0 <= k < r@.len() - 1 implies s@[#[trigger] r@[k].1 as int] != s@[r@[k + 1].0 as int] by {
        if k < old_r.len() - 1 {
            assert(r@[k] == old_r[k]);
            assert(r@[k + 1] == old_r[k + 1]);
        }
    }
    r
}

} // verus!
