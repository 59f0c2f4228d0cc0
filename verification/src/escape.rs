use vstd::prelude::*;

verus! {

/// Whether the orbit lay outside the disc of radius two after update `n`.
/// An orbit is handed over as the outcomes of that test, update by update;
/// an update that the trace does not record counts as not having left.
pub open spec fn escaped_at(trace: Seq<bool>, n: int) -> bool {
    0 <= n < trace.len() && trace[n]
}

/// Whether the iteration ends at count `n`: the orbit has left, or the
/// budget of `max_iterations` is exceeded.
pub open spec fn stops_at(trace: Seq<bool>, max_iterations: nat, n: int) -> bool {
    escaped_at(trace, n) || n > max_iterations
}

/// The first count from `n` on at which the iteration ends.
pub open spec fn escape_count_from(trace: Seq<bool>, max_iterations: nat, n: nat) -> nat
    decreases max_iterations + 1 - n,
{
    if stops_at(trace, max_iterations, n as int) {
        n
    } else {
        escape_count_from(trace, max_iterations, n + 1)
    }
}

/// The escape count of an orbit: the first count at which the iteration
/// ends. The test comes before the increment, so an orbit that never leaves
/// is counted one past the budget.
pub open spec fn escape_count(trace: Seq<bool>, max_iterations: nat) -> nat {
    escape_count_from(trace, max_iterations, 0)
}

/// The recorded trace of pixel `(i, j)`; a pixel that the table does not
/// reach has an empty trace.
pub open spec fn orbit_at(orbits: Seq<Seq<Seq<bool>>>, i: int, j: int) -> Seq<bool> {
    if 0 <= i < orbits.len() && 0 <= j < orbits[i].len() {
        orbits[i][j]
    } else {
        Seq::empty()
    }
}

/// The grid of escape counts of a table of traces: `width` columns of
/// `height` counts, the count of pixel `(i, j)` at `[i][j]`.
pub open spec fn escape_grid(
    orbits: Seq<Seq<Seq<bool>>>,
    width: nat,
    height: nat,
    max_iterations: nat,
) -> Seq<Seq<u32>> {
    Seq::new(
        width,
        |i: int|
            Seq::new(
                height,
                |j: int| escape_count(orbit_at(orbits, i, j), max_iterations) as u32,
            ),
    )
}

/// The count reached from `n` is the least count from `n` on at which the
/// iteration ends.
pub proof fn lemma_escape_count_from(trace: Seq<bool>, max_iterations: nat, n: nat)
    requires
        n <= max_iterations + 1,
    ensures
        n <= escape_count_from(trace, max_iterations, n) <= max_iterations + 1,
        stops_at(trace, max_iterations, escape_count_from(trace, max_iterations, n) as int),
        forall|k: int|
            n <= k < escape_count_from(trace, max_iterations, n) ==> !stops_at(
                trace,
                max_iterations,
                k,
            ),
    decreases max_iterations + 1 - n,
{
    if !stops_at(trace, max_iterations, n as int) {
        lemma_escape_count_from(trace, max_iterations, n + 1);
    }
}

/// The escape count is the least count at which the iteration ends: it is at
/// most one past the budget, no earlier update had left the disc, and below
/// that cap the update at the count itself had.
pub proof fn lemma_escape_count_is_first_stop(trace: Seq<bool>, max_iterations: nat)
    ensures
        escape_count(trace, max_iterations) <= max_iterations + 1,
        escape_count(trace, max_iterations) <= max_iterations ==> escaped_at(
            trace,
            escape_count(trace, max_iterations) as int,
        ),
        forall|k: int|
            0 <= k < escape_count(trace, max_iterations) ==> !escaped_at(trace, k),
{
    lemma_escape_count_from(trace, max_iterations, 0);
    assert forall|k: int| 0 <= k < escape_count(trace, max_iterations) implies !escaped_at(
        trace,
        k,
    ) by {
        assert(!stops_at(trace, max_iterations, k));
    }
}

/// A count that meets the three conditions of the first stop is the escape
/// count: they determine it.
pub proof fn lemma_first_stop_is_escape_count(trace: Seq<bool>, max_iterations: nat, r: nat)
    requires
        r <= max_iterations + 1,
        r <= max_iterations ==> escaped_at(trace, r as int),
        forall|k: int| 0 <= k < r ==> !escaped_at(trace, k),
    ensures
        r == escape_count(trace, max_iterations),
{
    lemma_escape_count_from(trace, max_iterations, 0);
    let c = escape_count(trace, max_iterations);
    if c < r {
        assert(stops_at(trace, max_iterations, c as int));
        assert(!escaped_at(trace, c as int));
    } else if r < c {
        assert(!stops_at(trace, max_iterations, r as int));
    }
}

/// An orbit that never leaves the disc is counted one past the budget.
pub proof fn lemma_bounded_orbit_exhausts_budget(trace: Seq<bool>, max_iterations: nat)
    requires
        forall|k: int| 0 <= k < trace.len() ==> !trace[k],
    ensures
        escape_count(trace, max_iterations) == max_iterations + 1,
{
    lemma_first_stop_is_escape_count(trace, max_iterations, max_iterations + 1);
}

/// An orbit that has left the disc after its first update has count zero.
pub proof fn lemma_immediate_escape_counts_zero(trace: Seq<bool>, max_iterations: nat)
    requires
        trace.len() > 0,
        trace[0],
    ensures
        escape_count(trace, max_iterations) == 0,
{
}

} // verus!
