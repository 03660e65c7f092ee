use vstd::prelude::*;

use crate::color::MAX_ITERATIONS;

verus! {

/// `orbit` is a run of the escape loop that stopped after `n` steps: each of
/// its first `n` points was inside the bound and was stepped to the next, and
/// the last point either left the bound or was reached at the cap.
pub open spec fn is_escape_run<T, S: Fn(T) -> T, B: Fn(T) -> bool>(
    step: S,
    bounded: B,
    orbit: Seq<T>,
    n: int,
) -> bool {
    &&& 0 <= n <= MAX_ITERATIONS
    &&& orbit.len() == n + 1
    &&& forall|i: int|
        0 <= i < n ==> #[trigger] step.ensures((orbit[i],), orbit[i + 1]) && bounded.ensures(
            (orbit[i],),
            true,
        )
    &&& n < MAX_ITERATIONS ==> bounded.ensures((orbit[n],), false)
}

/// `n` is an escape count of `start`: some run of the escape loop from
/// `start` stops after `n` steps.
pub open spec fn escapes_in<T, S: Fn(T) -> T, B: Fn(T) -> bool>(
    step: S,
    bounded: B,
    start: T,
    n: int,
) -> bool {
    exists|orbit: Seq<T>| #[trigger] is_escape_run(step, bounded, orbit, n) && orbit[0] == start
}

/// Iterates `step` from `start` while the point is inside the bound, at most
/// `MAX_ITERATIONS` times, and returns the number of steps taken.
pub fn escape_count<T: Copy, S: Fn(T) -> T, B: Fn(T) -> bool>(
    start: T,
    step: &S,
    bounded: &B,
) -> (n: usize)
    requires
        forall|z: T| step.requires((z,)),
        forall|z: T| bounded.requires((z,)),
    ensures
        n <= MAX_ITERATIONS,
        escapes_in(*step, *bounded, start, n as int),
{
    let mut z: T = start;
    let mut count: usize = 0;
    let mut escaped: bool = false;
    let ghost mut orbit: Seq<T> = seq![start];
    while !escaped && count < MAX_ITERATIONS
        invariant
            count <= MAX_ITERATIONS,
            orbit.len() == count + 1,
            orbit[0] == start,
            orbit[count as int] == z,
            forall|z: T| step.requires((z,)),
            forall|z: T| bounded.requires((z,)),
            forall|i: int|
                0 <= i < count ==> #[trigger] step.ensures((orbit[i],), orbit[i + 1])
                    && bounded.ensures((orbit[i],), true),
            escaped ==> bounded.ensures((z,), false),
        decreases MAX_ITERATIONS - count + (if escaped { 0int } else { 1int }),
    {
        let inside: bool = bounded(z);
        if inside {
            let next: T = step(z);
            proof {
                orbit = orbit.push(next);
            }
            z = next;
            count = count + 1;
        } else {
            escaped = true;
        }
    }
    assert(is_escape_run(*step, *bounded, orbit, count as int));
    count
}

/// Two runs from one start point agree on their first `k + 1` points when
/// `step` gives one successor per point.
proof fn lemma_runs_agree<T, S: Fn(T) -> T, B: Fn(T) -> bool>(
    step: S,
    bounded: B,
    o1: Seq<T>,
    n1: int,
    o2: Seq<T>,
    n2: int,
    k: int,
)
    requires
        forall|z: T, a: T, b: T|
            #[trigger] step.ensures((z,), a) && #[trigger] step.ensures((z,), b) ==> a == b,
        is_escape_run(step, bounded, o1, n1),
        is_escape_run(step, bounded, o2, n2),
        o1[0] == o2[0],
        0 <= k <= n1,
        k <= n2,
    ensures
        o1[k] == o2[k],
    decreases k,
{
    if k > 0 {
        lemma_runs_agree(step, bounded, o1, n1, o2, n2, k - 1);
        assert(step.ensures((o1[k - 1],), o1[(k - 1) + 1]));
        assert(step.ensures((o2[k - 1],), o2[(k - 1) + 1]));
    }
}

/// The escape loop is deterministic: when `step` and `bounded` each give one
/// result per point, a start point has exactly one escape count.
pub proof fn lemma_escape_count_unique<T, S: Fn(T) -> T, B: Fn(T) -> bool>(
    step: S,
    bounded: B,
    start: T,
    n1: int,
    n2: int,
)
    requires
        forall|z: T, a: T, b: T|
            #[trigger] step.ensures((z,), a) && #[trigger] step.ensures((z,), b) ==> a == b,
        forall|z: T, a: bool, b: bool|
            #[trigger] bounded.ensures((z,), a) && #[trigger] bounded.ensures((z,), b) ==> a == b,
        escapes_in(step, bounded, start, n1),
        escapes_in(step, bounded, start, n2),
    ensures
        n1 == n2,
{
    let o1 = choose|o: Seq<T>| #[trigger] is_escape_run(step, bounded, o, n1) && o[0] == start;
    let o2 = choose|o: Seq<T>| #[trigger] is_escape_run(step, bounded, o, n2) && o[0] == start;
    if n1 < n2 {
        lemma_runs_agree(step, bounded, o1, n1, o2, n2, n1);
        assert(step.ensures((o2[n1],), o2[n1 + 1]));
        assert(bounded.ensures((o1[n1],), false));
    } else if n2 < n1 {
        lemma_runs_agree(step, bounded, o1, n1, o2, n2, n2);
        assert(step.ensures((o1[n2],), o1[n2 + 1]));
        assert(bounded.ensures((o2[n2],), false));
    }
}

} // verus!
