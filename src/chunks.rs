//! The chunk plan: a requested range of points cut into consecutive
//! windows that each fit one transfer.

use vstd::prelude::*;
use vstd::arithmetic::div_mod::lemma_fundamental_div_mod_converse;
use crate::waveform::WAVeformCommands;

verus! {

/// A window of points, 1-based and inclusive at both ends.
#[derive(Debug, Clone, Copy, PartialEq, Eq, Hash, Structural)]
pub struct Window {
    pub start: u32,
    pub stop: u32,
}

/// How many windows cover `range` points, `chunk_size` at a time.
pub open spec fn chunk_count(range: nat, chunk_size: nat) -> nat
    recommends
        chunk_size > 0,
{
    ((range + chunk_size - 1) as nat) / chunk_size
}

/// First point of the `i`-th window.
pub open spec fn window_start(chunk_size: nat, i: nat) -> nat {
    i * chunk_size + 1
}

/// Last point of the `i`-th window.
pub open spec fn window_stop(range: nat, chunk_size: nat, i: nat) -> nat {
    if i * chunk_size + chunk_size <= range {
        i * chunk_size + chunk_size
    } else {
        range
    }
}

/// Cuts `[1, range]` into windows of `chunk_size` points, the last one
/// shorter where the size does not divide the range.
pub fn chunk_windows(range: u32, chunk_size: u32) -> (r: Vec<Window>)
    requires
        chunk_size > 0,
    ensures
        r@.len() == chunk_count(range as nat, chunk_size as nat),
        forall|i: int| 0 <= i < r@.len() ==> (#[trigger] r@[i]).start == window_start(chunk_size as nat, i as nat)
            && r@[i].stop == window_stop(range as nat, chunk_size as nat, i as nat),
{
    let mut windows: Vec<Window> = Vec::new();
    let mut next: u64 = 1;
    proof {
        let n = windows@.len();
        assert(n * chunk_size == 0) by (nonlinear_arith)
            requires n == 0;
    }
    while next <= range as u64
        invariant
            chunk_size > 0,
            next - 1 == if windows@.len() * chunk_size <= range {
                windows@.len() * chunk_size
            } else {
                range as int
            },
            next <= range as nat + 1,
            windows@.len() == 0 || (windows@.len() - 1) * chunk_size < range,
            forall|i: int| 0 <= i < windows@.len() ==> (#[trigger] windows@[i]).start == window_start(chunk_size as nat, i as nat)
                && windows@[i].stop == window_stop(range as nat, chunk_size as nat, i as nat),
        decreases range as u64 + 1 - next,
    {
        let full: u64 = next + chunk_size as u64 - 1;
        let stop: u64 = if full <= range as u64 { full } else { range as u64 };
        let ghost i = windows@.len();
        proof {
            assert(i * chunk_size + chunk_size == (i + 1) * chunk_size) by (nonlinear_arith);
            assert(i * chunk_size <= range);
            assert((i + 1 - 1) * chunk_size == i * chunk_size);
        }
        windows.push(Window { start: next as u32, stop: stop as u32 });
        next = stop + 1;
    }
    proof {
        lemma_count_from_bounds(range as nat, chunk_size as nat, windows@.len());
    }
    windows
}

/// The window count is the least `i` with `i * chunk_size >= range`.
proof fn lemma_count_from_bounds(range: nat, chunk_size: nat, i: nat)
    requires
        chunk_size > 0,
        i * chunk_size >= range,
        i == 0 || (i - 1) * chunk_size < range,
    ensures
        i == chunk_count(range, chunk_size),
{
    let x = range + chunk_size - 1;
    if i == 0 {
        lemma_fundamental_div_mod_converse(x, chunk_size as int, 0, x);
    } else {
        assert((i - 1) * chunk_size == i * chunk_size - chunk_size) by (nonlinear_arith);
        let rem = x - i * chunk_size;
        lemma_fundamental_div_mod_converse(x, chunk_size as int, i as int, rem);
    }
}

/// The last window ends at or past the range and the one before it does not.
proof fn lemma_count_bounds(range: nat, chunk_size: nat)
    requires
        chunk_size > 0,
    ensures
        chunk_count(range, chunk_size) * chunk_size >= range,
        chunk_count(range, chunk_size) > 0 ==> (chunk_count(range, chunk_size) - 1) * chunk_size < range,
        range > 0 ==> chunk_count(range, chunk_size) > 0,
{
    let x = (range + chunk_size - 1) as int;
    let q = chunk_count(range, chunk_size) as int;
    vstd::arithmetic::div_mod::lemma_fundamental_div_mod(x, chunk_size as int);
    let rem = x % chunk_size as int;
    assert(x == chunk_size * q + rem);
    assert(0 <= rem < chunk_size);
    assert(q * chunk_size == chunk_size * q) by (nonlinear_arith);
    assert((q - 1) * chunk_size == q * chunk_size - chunk_size) by (nonlinear_arith);
    if range > 0 {
        assert(q != 0) by {
            if q == 0 {
                assert(q * chunk_size == 0) by (nonlinear_arith)
                    requires q == 0;
            }
        }
    }
}

/// The windows of a range cover it from 1 to its end, each one starting
/// right after the one before, none empty and none longer than the chunk
/// size; there are ceil(range / chunk_size) of them.
pub proof fn lemma_chunk_plan(range: nat, chunk_size: nat)
    requires
        chunk_size > 0,
    ensures
        chunk_count(range, chunk_size) * chunk_size >= range,
        range > 0 ==> chunk_count(range, chunk_size) > 0 && window_start(chunk_size, 0) == 1
            && window_stop(range, chunk_size, (chunk_count(range, chunk_size) - 1) as nat) == range,
        forall|i: nat| #![trigger window_start(chunk_size, i)] i < chunk_count(range, chunk_size)
            ==> window_start(chunk_size, i) <= window_stop(range, chunk_size, i)
                && window_stop(range, chunk_size, i) - window_start(chunk_size, i) + 1 <= chunk_size,
        forall|i: nat| #![trigger window_stop(range, chunk_size, i)] i + 1 < chunk_count(range, chunk_size)
            ==> window_start(chunk_size, i + 1) == window_stop(range, chunk_size, i) + 1,
{
    lemma_count_bounds(range, chunk_size);
    let c = chunk_count(range, chunk_size);
    assert forall|i: nat| #![trigger window_start(chunk_size, i)] i < c implies window_start(chunk_size, i)
        <= window_stop(range, chunk_size, i) && window_stop(range, chunk_size, i) - window_start(chunk_size, i)
        + 1 <= chunk_size by {
        assert(i * chunk_size <= (c - 1) * chunk_size) by (nonlinear_arith)
            requires i <= c - 1, chunk_size > 0;
    }
    assert forall|i: nat| #![trigger window_stop(range, chunk_size, i)] i + 1 < c implies window_start(
        chunk_size,
        i + 1,
    ) == window_stop(range, chunk_size, i) + 1 by {
        assert((i + 1) * chunk_size <= (c - 1) * chunk_size) by (nonlinear_arith)
            requires i + 1 <= c - 1, chunk_size > 0;
        assert((i + 1) * chunk_size == i * chunk_size + chunk_size) by (nonlinear_arith);
    }
    if range > 0 {
        let last = (c - 1) as nat;
        assert(last * chunk_size + chunk_size == c * chunk_size) by (nonlinear_arith)
            requires last == c - 1;
        assert(0 * chunk_size == 0);
    }
}

/// An empty range needs no window, so nothing is ever recorded for it.
pub proof fn lemma_empty_range(chunk_size: nat)
    requires
        chunk_size > 0,
    ensures
        chunk_count(0, chunk_size) == 0,
{
    lemma_count_bounds(0, chunk_size);
}

/// How many points the first `k` windows hold together.
pub open spec fn planned_points(range: nat, chunk_size: nat, k: nat) -> int
    decreases k,
{
    if k == 0 {
        0
    } else {
        planned_points(range, chunk_size, (k - 1) as nat) + window_stop(range, chunk_size, (k - 1) as nat)
            - window_start(chunk_size, (k - 1) as nat) + 1
    }
}

proof fn lemma_planned_prefix(range: nat, chunk_size: nat, k: nat)
    requires
        chunk_size > 0,
        1 <= k <= chunk_count(range, chunk_size),
    ensures
        planned_points(range, chunk_size, k) == window_stop(range, chunk_size, (k - 1) as nat),
    decreases k,
{
    lemma_chunk_plan(range, chunk_size);
    if k == 1 {
        assert(0 * chunk_size == 0);
        assert(planned_points(range, chunk_size, 0) == 0);
    } else {
        lemma_planned_prefix(range, chunk_size, (k - 1) as nat);
        let i = (k - 2) as nat;
        assert(window_start(chunk_size, i + 1) == window_stop(range, chunk_size, i) + 1);
        assert(i + 1 == (k - 1) as nat);
    }
}

/// Recording every window of a plan records exactly `range` points.
pub proof fn lemma_plan_total(range: nat, chunk_size: nat)
    requires
        chunk_size > 0,
    ensures
        planned_points(range, chunk_size, chunk_count(range, chunk_size)) == range,
{
    lemma_chunk_plan(range, chunk_size);
    if range == 0 {
        lemma_empty_range(chunk_size);
    } else {
        lemma_planned_prefix(range, chunk_size, chunk_count(range, chunk_size));
    }
}

/// The windows a retrieval of `range` points walks through, in order, one
/// transfer each under the state's format: the caller sets each window,
/// fetches its data and records it before it moves to the next, and stops
/// at the first failure. The windows run from 1 to `range` without gap or
/// overlap, and together they hold exactly `range` points.
pub fn get_data(range: u32, waveform: &WAVeformCommands) -> (r: Vec<Window>)
    ensures
        ({
            let d = waveform.max_transfer_size.spec_to_u32() as nat;
            &&& r@.len() == chunk_count(range as nat, d)
            &&& forall|i: int| 0 <= i < r@.len() ==> (#[trigger] r@[i]).start == window_start(d, i as nat)
                && r@[i].stop == window_stop(range as nat, d, i as nat)
                && r@[i].start <= r@[i].stop && r@[i].stop - r@[i].start + 1 <= d
            &&& forall|i: int| 0 <= i < r@.len() - 1 ==> (#[trigger] r@[i + 1]).start == r@[i].stop + 1
            &&& range > 0 ==> r@.len() > 0 && r@[0].start == 1 && r@[r@.len() - 1].stop == range
            &&& range == 0 ==> r@.len() == 0
            &&& planned_points(range as nat, d, r@.len()) == range
        }),
{
    let d = waveform.max_transfer_size.to_u32();
    let windows = chunk_windows(range, d);
    proof {
        let dn = d as nat;
        lemma_chunk_plan(range as nat, dn);
        lemma_plan_total(range as nat, dn);
        lemma_empty_range(dn);
        assert forall|i: int| 0 <= i < windows@.len() implies (#[trigger] windows@[i]).start
            <= windows@[i].stop && windows@[i].stop - windows@[i].start + 1 <= dn by {
            assert(window_start(dn, i as nat) <= window_stop(range as nat, dn, i as nat));
        }
        assert forall|i: int| 0 <= i < windows@.len() - 1 implies (#[trigger] windows@[i + 1]).start
            == windows@[i].stop + 1 by {
            assert(window_start(dn, (i as nat) + 1) == window_stop(range as nat, dn, i as nat) + 1);
            assert((i + 1) as nat == (i as nat) + 1);
        }
        if range > 0 {
            assert(window_start(dn, 0) == 1);
            assert(windows@[0].start == window_start(dn, 0));
        }
    }
    windows
}

} // verus!
