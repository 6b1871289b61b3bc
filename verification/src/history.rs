//! Loss-history thinning for the `X-Morphit-Loss` header and `loss_history`
//! fields.

use vstd::prelude::*;

verus! {

/// Default cap on the number of points.
pub const MAX_POINTS: usize = 150;

/// Whether a history of `n` points is thinned, so that at most `max_points` stay.
pub fn needs_thinning(n: usize, max_points: usize) -> (yes: bool)
    ensures
        yes == (n > max_points),
{
    n > max_points
}

/// The positions without those that repeat the one before them.
pub open spec fn deduped(positions: Seq<usize>) -> Seq<usize>
    decreases positions.len(),
{
    if positions.len() == 0 {
        Seq::empty()
    } else {
        let front = deduped(positions.drop_last());
        if positions.len() > 1 && positions[positions.len() - 2] == positions.last() {
            front
        } else {
            front.push(positions.last())
        }
    }
}

/// The points of a history at the given positions, repeated positions taken
/// once.
pub fn pick_points<T: Copy>(history: &[T], positions: &[usize]) -> (out: Vec<T>)
    requires
        forall|i: int| 0 <= i < positions@.len() ==> #[trigger] positions@[i] < history@.len(),
    ensures
        out@ == deduped(positions@).map_values(|p: usize| history@[p as int]),
{
    let ghost f = |p: usize| history@[p as int];
    let mut out: Vec<T> = Vec::new();
    let mut i: usize = 0;
    assert(out@ =~= deduped(positions@.take(0)).map_values(f));
    while i < positions.len()
        invariant
            i <= positions@.len(),
            f == (|p: usize| history@[p as int]),
            forall|i: int| 0 <= i < positions@.len() ==> #[trigger] positions@[i] < history@.len(),
            out@ == deduped(positions@.take(i as int)).map_values(f),
        decreases positions@.len() - i,
    {
        let p: usize = positions[i];
        let ghost front = deduped(positions@.take(i as int));
        proof {
            assert(positions@.take(i + 1).drop_last() =~= positions@.take(i as int));
            assert(front.push(p).map_values(f) =~= front.map_values(f).push(f(p)));
        }
        if !(i > 0 && positions[i - 1] == p) {
            out.push(history[p]);
        }
        i = i + 1;
    }
    assert(positions@.take(i as int) =~= positions@);
    out
}

/// Leaving out repeated positions never adds one.
proof fn lemma_deduped_len(positions: Seq<usize>)
    ensures
        deduped(positions).len() <= positions.len(),
    decreases positions.len(),
{
    if positions.len() > 0 {
        lemma_deduped_len(positions.drop_last());
    }
}

/// At most `max_points` points of a history: the whole of it where it has no more,
/// otherwise the points at the given positions, repeated positions taken once.
pub fn subsample_history<T: Copy>(history: &[T], max_points: usize, positions: &[usize]) -> (out:
    Vec<T>)
    requires
        history@.len() > max_points ==> positions@.len() == max_points && forall|i: int|
            0 <= i < positions@.len() ==> #[trigger] positions@[i] < history@.len(),
    ensures
        history@.len() <= max_points ==> out@ == history@,
        history@.len() > max_points ==> out@ == deduped(positions@).map_values(
            |p: usize| history@[p as int],
        ),
        out@.len() <= max_points,
{
    if needs_thinning(history.len(), max_points) {
        proof {
            lemma_deduped_len(positions@);
        }
        return pick_points(history, positions);
    }
    let mut out: Vec<T> = Vec::new();
    let mut i: usize = 0;
    while i < history.len()
        invariant
            i <= history@.len(),
            out@ == history@.take(i as int),
        decreases history@.len() - i,
    {
        out.push(history[i]);
        i = i + 1;
    }
    assert(history@.take(i as int) =~= history@);
    out
}

/// Thinning at ascending positions keeps each point at most once and in order,
/// keeps the first and the last of them, and never yields more points than
/// positions.
pub proof fn thinning_keeps_order_and_ends(positions: Seq<usize>)
    requires
        forall|i: int, j: int| 0 <= i < j < positions.len() ==> positions[i] <= positions[j],
    ensures
        deduped(positions).len() <= positions.len(),
        forall|i: int, j: int|
            0 <= i < j < deduped(positions).len() ==> (#[trigger] deduped(positions)[i])
                < #[trigger] deduped(positions)[j],
        positions.len() > 0 ==> deduped(positions).len() > 0 && deduped(positions)[0] == positions[0]
            && deduped(positions).last() == positions.last(),
    decreases positions.len(),
{
    if positions.len() > 0 {
        let f = positions.drop_last();
        assert forall|i: int, j: int| 0 <= i < j < f.len() implies f[i] <= f[j] by {
            assert(positions[i] <= positions[j]);
        }
        thinning_keeps_order_and_ends(f);
        if f.len() > 0 {
            assert(f.last() == positions[positions.len() - 2]);
            assert(positions[positions.len() - 2] <= positions[positions.len() - 1]);
        }
    }
}

} // verus!
