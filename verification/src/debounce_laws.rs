//! What debouncing guarantees over whole sequences of observations.

use vstd::prelude::*;
use crate::debounce::{
    fires, grid_after, grid_events, next_key, row_events, transition, KeyState,
};
use crate::event::KeyEvent;

verus! {

/// The switch after it has observed `obs` from first to last.
pub open spec fn key_after(k: KeyState, obs: Seq<bool>, threshold: nat) -> KeyState
    decreases obs.len(),
{
    if obs.len() == 0 {
        k
    } else {
        next_key(key_after(k, obs.drop_last(), threshold), obs.last(), threshold)
    }
}

/// Whether observation number `i` of `obs` makes the switch report a transition.
pub open spec fn fires_at(k: KeyState, obs: Seq<bool>, threshold: nat, i: int) -> bool {
    fires(key_after(k, obs.take(i), threshold), obs[i], threshold)
}

/// The count of a switch is the length of the run of contradicting
/// observations that it has just seen: all of them differ from the accepted
/// state, none of them fired, and the run began from a cleared count.
proof fn lemma_run_window(k: KeyState, obs: Seq<bool>, threshold: nat, n: int)
    requires
        threshold >= 1,
        k.run == 0,
        0 <= n <= obs.len(),
    ensures
        ({
            let s = key_after(k, obs.take(n), threshold);
            let start = key_after(k, obs.take(n - s.run), threshold);
            &&& s.run < threshold
            &&& s.run <= n
            &&& start.run == 0
            &&& start.accepted == s.accepted
            &&& forall|j: int| n - s.run <= j < n ==> obs[j] != s.accepted
            &&& forall|j: int| n - s.run <= j < n ==> !fires_at(k, obs, threshold, j)
        }),
    decreases n,
{
    if n == 0 {
        assert(obs.take(0).len() == 0);
    } else {
        lemma_run_window(k, obs, threshold, n - 1);
        let p = key_after(k, obs.take(n - 1), threshold);
        assert(obs.take(n).drop_last() =~= obs.take(n - 1));
        assert(obs.take(n).last() == obs[n - 1]);
        let s = key_after(k, obs.take(n), threshold);
        assert(s == next_key(p, obs[n - 1], threshold));
        if s.run > 0 {
            assert(s.run == p.run + 1);
            assert(!fires(p, obs[n - 1], threshold));
            assert(!fires_at(k, obs, threshold, n - 1));
        }
    }
}

/// A transition is reported only at the end of a full window: the last
/// `threshold` observations all show the new state, the window opened on a
/// cleared count with the old state accepted, and nothing was reported while
/// the window was filling.
pub proof fn lemma_event_needs_full_window(k: KeyState, obs: Seq<bool>, threshold: nat, i: int)
    requires
        threshold >= 1,
        k.run == 0,
        0 <= i < obs.len(),
        fires_at(k, obs, threshold, i),
    ensures
        i + 1 >= threshold,
        forall|j: int| i + 1 - threshold <= j <= i ==> obs[j] == obs[i],
        forall|j: int| i + 1 - threshold <= j < i ==> !fires_at(k, obs, threshold, j),
        key_after(k, obs.take(i + 1 - threshold), threshold) == (KeyState {
            accepted: !obs[i],
            run: 0,
        }),
        key_after(k, obs.take(i + 1), threshold) == (KeyState { accepted: obs[i], run: 0 }),
{
    lemma_run_window(k, obs, threshold, i);
    let s = key_after(k, obs.take(i), threshold);
    assert(s.run + 1 == threshold);
    assert(obs.take(i + 1).drop_last() =~= obs.take(i));
    assert(obs.take(i + 1).last() == obs[i]);
}

/// Fewer than `threshold` observations cannot validate anything.
pub proof fn lemma_short_flicker_is_silent(k: KeyState, obs: Seq<bool>, threshold: nat, i: int)
    requires
        threshold >= 1,
        k.run == 0,
        0 <= i < obs.len(),
        i + 1 < threshold,
    ensures
        !fires_at(k, obs, threshold, i),
{
    if fires_at(k, obs, threshold, i) {
        lemma_event_needs_full_window(k, obs, threshold, i);
    }
}

/// Once a switch has reported a transition to `raw`, any number of further
/// observations of `raw` report nothing and leave it settled on `raw`.
pub proof fn lemma_repeated_observation_is_silent(
    k: KeyState,
    raw: bool,
    threshold: nat,
    obs: Seq<bool>,
    i: int,
)
    requires
        fires(k, raw, threshold),
        forall|j: int| 0 <= j < obs.len() ==> obs[j] == raw,
        0 <= i < obs.len(),
    ensures
        !fires_at(next_key(k, raw, threshold), obs, threshold, i),
        key_after(next_key(k, raw, threshold), obs.take(i + 1), threshold) == (KeyState {
            accepted: raw,
            run: 0,
        }),
    decreases i,
{
    let k1 = next_key(k, raw, threshold);
    assert(obs.take(i + 1).drop_last() =~= obs.take(i));
    assert(obs.take(i + 1).last() == obs[i]);
    if i == 0 {
        assert(obs.take(0).len() == 0);
        assert(key_after(k1, obs.take(0), threshold) == k1);
    } else {
        lemma_repeated_observation_is_silent(k, raw, threshold, obs, i - 1);
        assert(obs.take(i).take(i) =~= obs.take(i));
    }
    let before = key_after(k1, obs.take(i), threshold);
    assert(before == (KeyState { accepted: raw, run: 0 }));
    assert(key_after(k1, obs.take(i + 1), threshold) == next_key(before, obs[i], threshold));
}

/// No switch of a row fires when the row already accepts what it observes.
proof fn lemma_settled_row_is_silent(
    keys: Seq<KeyState>,
    raws: Seq<bool>,
    threshold: nat,
    row: int,
    n: nat,
)
    requires
        n <= keys.len(),
        forall|c: int| 0 <= c < n ==> (#[trigger] keys[c]).accepted == raws[c],
    ensures
        row_events(keys, raws, threshold, row, n) == Seq::<crate::event::KeyEvent>::empty(),
    decreases n,
{
    if n > 0 {
        lemma_settled_row_is_silent(keys, raws, threshold, row, (n - 1) as nat);
    }
}

proof fn lemma_settled_rows_are_silent(
    grid: Seq<Seq<KeyState>>,
    snapshot: Seq<Seq<bool>>,
    threshold: nat,
    n: nat,
)
    requires
        n <= grid.len(),
        forall|r: int, c: int|
            0 <= r < n && 0 <= c < grid[r].len() ==> (#[trigger] grid[r][c]).accepted
                == snapshot[r][c],
    ensures
        grid_events(grid, snapshot, threshold, n) == Seq::<crate::event::KeyEvent>::empty(),
    decreases n,
{
    if n > 0 {
        lemma_settled_rows_are_silent(grid, snapshot, threshold, (n - 1) as nat);
        lemma_settled_row_is_silent(
            grid[n - 1],
            snapshot[n - 1],
            threshold,
            n - 1,
            grid[n - 1].len(),
        );
    }
}

/// Feeding a snapshot again, once every switch has accepted it, yields no
/// event and changes nothing.
pub proof fn lemma_stable_snapshot_is_silent(
    grid: Seq<Seq<KeyState>>,
    snapshot: Seq<Seq<bool>>,
    threshold: nat,
)
    requires
        forall|r: int, c: int|
            0 <= r < grid.len() && 0 <= c < grid[r].len() ==> {
                &&& (#[trigger] grid[r][c]).accepted == snapshot[r][c]
                &&& grid[r][c].run == 0
            },
    ensures
        grid_events(grid, snapshot, threshold, grid.len()) == Seq::<crate::event::KeyEvent>::empty(),
        grid_after(grid, snapshot, threshold) == grid,
{
    lemma_settled_rows_are_silent(grid, snapshot, threshold, grid.len());
    let after = grid_after(grid, snapshot, threshold);
    assert forall|r: int| 0 <= r < grid.len() implies after[r] =~= grid[r] by {
        assert forall|c: int| 0 <= c < grid[r].len() implies after[r][c] == grid[r][c] by {
            assert(grid[r][c].accepted == snapshot[r][c]);
        }
    }
    assert(after =~= grid);
}

/// A switch that has just reported a transition is settled on what it
/// observed, so the same snapshot cannot make it report again.
pub proof fn lemma_event_settles_switch(k: KeyState, raw: bool, threshold: nat)
    requires
        fires(k, raw, threshold),
    ensures
        next_key(k, raw, threshold) == (KeyState { accepted: raw, run: 0 }),
        !fires(next_key(k, raw, threshold), raw, threshold),
{
}


/// The event `e` reports the firing of the switch at its own coordinate,
/// which lies in the first `rows` rows of `grid`.
pub open spec fn reports_firing(
    grid: Seq<Seq<KeyState>>,
    snapshot: Seq<Seq<bool>>,
    threshold: nat,
    rows: nat,
    e: KeyEvent,
) -> bool {
    let r = e.spec_coord().0 as int;
    let c = e.spec_coord().1 as int;
    &&& r < rows
    &&& c < grid[r].len()
    &&& fires(grid[r][c], snapshot[r][c], threshold)
    &&& e == transition(snapshot[r][c], r, c)
}

/// Row-major order of two events: by row, then by column.
pub open spec fn scans_before(a: KeyEvent, b: KeyEvent) -> bool {
    a.spec_coord().0 < b.spec_coord().0 || (a.spec_coord().0 == b.spec_coord().0
        && a.spec_coord().1 < b.spec_coord().1)
}

proof fn lemma_row_events(keys: Seq<KeyState>, raws: Seq<bool>, threshold: nat, row: int, n: nat)
    requires
        n <= keys.len(),
        n <= 256,
        0 <= row < 256,
    ensures
        row_events(keys, raws, threshold, row, n).len() <= n,
        forall|c: int|
            0 <= c < n && fires(keys[c], raws[c], threshold) ==> row_events(
                keys,
                raws,
                threshold,
                row,
                n,
            ).contains(#[trigger] transition(raws[c], row, c)),
        forall|i: int|
            0 <= i < row_events(keys, raws, threshold, row, n).len() ==> {
                let e = #[trigger] row_events(keys, raws, threshold, row, n)[i];
                &&& e.spec_coord().0 == row
                &&& e.spec_coord().1 < n
                &&& fires(keys[e.spec_coord().1 as int], raws[e.spec_coord().1 as int], threshold)
                &&& e == transition(raws[e.spec_coord().1 as int], row, e.spec_coord().1 as int)
            },
        forall|i: int, j: int|
            0 <= i < j < row_events(keys, raws, threshold, row, n).len() ==> (#[trigger] row_events(
                keys,
                raws,
                threshold,
                row,
                n,
            )[i]).spec_coord().1 < (#[trigger] row_events(
                keys,
                raws,
                threshold,
                row,
                n,
            )[j]).spec_coord().1,
    decreases n,
{
    if n > 0 {
        let m = (n - 1) as nat;
        lemma_row_events(keys, raws, threshold, row, m);
        let before = row_events(keys, raws, threshold, row, m);
        let ev = row_events(keys, raws, threshold, row, n);
        if fires(keys[n - 1], raws[n - 1], threshold) {
            let last = transition(raws[n - 1], row, n - 1);
            assert(ev == before.push(last));
            assert(ev[before.len() as int] == last);
            assert forall|c: int| 0 <= c < n && fires(keys[c], raws[c], threshold) implies ev.contains(
                #[trigger] transition(raws[c], row, c),
            ) by {
                if c < n - 1 {
                    let e = transition(raws[c], row, c);
                    assert(before.contains(e));
                    let i = choose|i: int| 0 <= i < before.len() && before[i] == e;
                    assert(ev[i] == e);
                }
            }
            assert forall|i: int| 0 <= i < ev.len() implies {
                let e = #[trigger] ev[i];
                &&& e.spec_coord().0 == row
                &&& e.spec_coord().1 < n
                &&& fires(keys[e.spec_coord().1 as int], raws[e.spec_coord().1 as int], threshold)
                &&& e == transition(raws[e.spec_coord().1 as int], row, e.spec_coord().1 as int)
            } by {
                if i < before.len() {
                    assert(ev[i] == before[i]);
                }
            }
            assert forall|i: int, j: int| 0 <= i < j < ev.len() implies (#[trigger] ev[i]).spec_coord().1
                < (#[trigger] ev[j]).spec_coord().1 by {
                assert(ev[i] == before[i]);
                if j < before.len() {
                    assert(ev[j] == before[j]);
                }
            }
        } else {
            assert(ev == before);
        }
    }
}

/// The events of a cycle are exactly the firing switches, each reported once
/// with its own transition, in row-major order; so there are never more
/// events than switches.
pub proof fn lemma_events_are_the_firing_switches(
    grid: Seq<Seq<KeyState>>,
    snapshot: Seq<Seq<bool>>,
    threshold: nat,
    rows: nat,
)
    requires
        rows <= grid.len(),
        rows <= 256,
        forall|r: int| 0 <= r < rows ==> (#[trigger] grid[r]).len() <= 256,
    ensures
        forall|r: int, c: int|
            0 <= r < rows && 0 <= c < grid[r].len() && fires(grid[r][c], snapshot[r][c], threshold)
                ==> grid_events(grid, snapshot, threshold, rows).contains(
                #[trigger] transition(snapshot[r][c], r, c),
            ),
        forall|i: int|
            0 <= i < grid_events(grid, snapshot, threshold, rows).len() ==> reports_firing(
                grid,
                snapshot,
                threshold,
                rows,
                #[trigger] grid_events(grid, snapshot, threshold, rows)[i],
            ),
        forall|i: int, j: int|
            0 <= i < j < grid_events(grid, snapshot, threshold, rows).len() ==> scans_before(
                #[trigger] grid_events(grid, snapshot, threshold, rows)[i],
                #[trigger] grid_events(grid, snapshot, threshold, rows)[j],
            ),
    decreases rows,
{
    if rows > 0 {
        let m = (rows - 1) as nat;
        lemma_events_are_the_firing_switches(grid, snapshot, threshold, m);
        lemma_row_events(grid[m as int], snapshot[m as int], threshold, m as int, grid[m as int].len());
        let before = grid_events(grid, snapshot, threshold, m);
        let row = row_events(grid[m as int], snapshot[m as int], threshold, m as int, grid[m as int].len());
        let ev = grid_events(grid, snapshot, threshold, rows);
        assert(ev == before + row);
        assert forall|i: int| 0 <= i < ev.len() implies reports_firing(
            grid,
            snapshot,
            threshold,
            rows,
            #[trigger] ev[i],
        ) by {
            if i < before.len() {
                assert(ev[i] == before[i]);
                assert(reports_firing(grid, snapshot, threshold, m, before[i]));
            } else {
                assert(ev[i] == row[i - before.len()]);
            }
        }
        assert forall|r: int, c: int|
            0 <= r < rows && 0 <= c < grid[r].len() && fires(
                grid[r][c],
                snapshot[r][c],
                threshold,
            ) implies ev.contains(#[trigger] transition(snapshot[r][c], r, c)) by {
            let e = transition(snapshot[r][c], r, c);
            if r < m {
                assert(before.contains(e));
                let i = choose|i: int| 0 <= i < before.len() && before[i] == e;
                assert(ev[i] == e);
            } else {
                assert(row.contains(e));
                let i = choose|i: int| 0 <= i < row.len() && row[i] == e;
                assert(ev[before.len() + i] == e);
            }
        }
        assert forall|i: int, j: int| 0 <= i < j < ev.len() implies scans_before(
            #[trigger] ev[i],
            #[trigger] ev[j],
        ) by {
            if j < before.len() {
                assert(ev[i] == before[i] && ev[j] == before[j]);
            } else if i < before.len() {
                assert(ev[i] == before[i]);
                assert(ev[j] == row[j - before.len()]);
                assert(reports_firing(grid, snapshot, threshold, m, before[i]));
            } else {
                assert(ev[i] == row[i - before.len()]);
                assert(ev[j] == row[j - before.len()]);
            }
        }
    }
}


/// The grid after it has been fed `snapshots` from first to last.
pub open spec fn grid_after_all(
    grid: Seq<Seq<KeyState>>,
    snapshots: Seq<Seq<Seq<bool>>>,
    threshold: nat,
) -> Seq<Seq<KeyState>>
    decreases snapshots.len(),
{
    if snapshots.len() == 0 {
        grid
    } else {
        grid_after(grid_after_all(grid, snapshots.drop_last(), threshold), snapshots.last(), threshold)
    }
}

/// Every snapshot has the shape of the grid.
pub open spec fn fit(grid: Seq<Seq<KeyState>>, snapshots: Seq<Seq<Seq<bool>>>) -> bool {
    forall|t: int, r: int|
        0 <= t < snapshots.len() && 0 <= r < grid.len() ==> {
            &&& snapshots[t].len() == grid.len()
            &&& (#[trigger] snapshots[t][r]).len() == grid[r].len()
        }
}

/// What the switch at `(r, c)` shows in each of `snapshots`.
pub open spec fn observations(snapshots: Seq<Seq<Seq<bool>>>, r: int, c: int) -> Seq<bool> {
    Seq::new(snapshots.len(), |t: int| snapshots[t][r][c])
}

/// The events of cycle number `i` when `snapshots` are fed to `grid` in turn.
pub open spec fn events_at(
    grid: Seq<Seq<KeyState>>,
    snapshots: Seq<Seq<Seq<bool>>>,
    threshold: nat,
    i: int,
) -> Seq<KeyEvent> {
    grid_events(
        grid_after_all(grid, snapshots.take(i), threshold),
        snapshots[i],
        threshold,
        grid.len(),
    )
}

/// Switches are debounced independently: after any snapshots, the switch at
/// `(r, c)` is where its own observations alone have taken it.
pub proof fn lemma_switches_are_independent(
    grid: Seq<Seq<KeyState>>,
    snapshots: Seq<Seq<Seq<bool>>>,
    threshold: nat,
    r: int,
    c: int,
)
    requires
        0 <= r < grid.len(),
        0 <= c < grid[r].len(),
    ensures
        grid_after_all(grid, snapshots, threshold).len() == grid.len(),
        grid_after_all(grid, snapshots, threshold)[r].len() == grid[r].len(),
        grid_after_all(grid, snapshots, threshold)[r][c] == key_after(
            grid[r][c],
            observations(snapshots, r, c),
            threshold,
        ),
    decreases snapshots.len(),
{
    let obs = observations(snapshots, r, c);
    if snapshots.len() > 0 {
        lemma_switches_are_independent(grid, snapshots.drop_last(), threshold, r, c);
        assert(obs.drop_last() =~= observations(snapshots.drop_last(), r, c));
        assert(obs.last() == snapshots.last()[r][c]);
    }
}

/// For all sequences of snapshots: when cycle `i` reports a transition of
/// the switch at `(r, c)`, the last `threshold` snapshots all show that
/// switch in its new state, the window opened with the old state accepted
/// and nothing counted, and no cycle inside the window reported that switch.
pub proof fn lemma_event_follows_stable_window(
    grid: Seq<Seq<KeyState>>,
    snapshots: Seq<Seq<Seq<bool>>>,
    threshold: nat,
    r: int,
    c: int,
    i: int,
)
    requires
        threshold >= 1,
        grid.len() <= 256,
        forall|k: int| 0 <= k < grid.len() ==> (#[trigger] grid[k]).len() <= 256,
        0 <= r < grid.len(),
        0 <= c < grid[r].len(),
        grid[r][c].run == 0,
        fit(grid, snapshots),
        0 <= i < snapshots.len(),
        events_at(grid, snapshots, threshold, i).contains(transition(snapshots[i][r][c], r, c)),
    ensures
        i + 1 >= threshold,
        forall|j: int| i + 1 - threshold <= j <= i ==> snapshots[j][r][c] == snapshots[i][r][c],
        forall|j: int|
            i + 1 - threshold <= j < i ==> !events_at(grid, snapshots, threshold, j).contains(
                transition(snapshots[j][r][c], r, c),
            ),
        grid_after_all(grid, snapshots.take(i + 1 - threshold), threshold)[r][c] == (KeyState {
            accepted: !snapshots[i][r][c],
            run: 0,
        }),
{
    let obs = observations(snapshots, r, c);
    lemma_fires_at_matches_events(grid, snapshots, threshold, r, c, i);
    lemma_event_needs_full_window(grid[r][c], obs, threshold, i);
    assert forall|j: int| i + 1 - threshold <= j < i implies !events_at(
        grid,
        snapshots,
        threshold,
        j,
    ).contains(transition(snapshots[j][r][c], r, c)) by {
        lemma_fires_at_matches_events(grid, snapshots, threshold, r, c, j);
        assert(!fires_at(grid[r][c], obs, threshold, j));
    }
    assert forall|j: int| i + 1 - threshold <= j <= i implies snapshots[j][r][c]
        == snapshots[i][r][c] by {
        assert(obs[j] == obs[i]);
    }
    let start = i + 1 - threshold;
    lemma_switches_are_independent(grid, snapshots.take(start), threshold, r, c);
    assert(observations(snapshots.take(start), r, c) =~= obs.take(start));
}

/// Cycle `i` reports the switch at `(r, c)` exactly when the switch, fed its
/// own observations, fires on observation `i`.
proof fn lemma_fires_at_matches_events(
    grid: Seq<Seq<KeyState>>,
    snapshots: Seq<Seq<Seq<bool>>>,
    threshold: nat,
    r: int,
    c: int,
    i: int,
)
    requires
        grid.len() <= 256,
        forall|k: int| 0 <= k < grid.len() ==> (#[trigger] grid[k]).len() <= 256,
        0 <= r < grid.len(),
        0 <= c < grid[r].len(),
        0 <= i < snapshots.len(),
    ensures
        events_at(grid, snapshots, threshold, i).contains(transition(snapshots[i][r][c], r, c))
            <==> fires_at(grid[r][c], observations(snapshots, r, c), threshold, i),
{
    let obs = observations(snapshots, r, c);
    let now = grid_after_all(grid, snapshots.take(i), threshold);
    let ev = events_at(grid, snapshots, threshold, i);
    let e = transition(snapshots[i][r][c], r, c);
    lemma_switches_are_independent(grid, snapshots.take(i), threshold, r, c);
    assert(observations(snapshots.take(i), r, c) =~= obs.take(i));
    assert(now[r][c] == key_after(grid[r][c], obs.take(i), threshold));
    assert(now.len() == grid.len());
    assert forall|k: int| 0 <= k < now.len() implies (#[trigger] now[k]).len() <= 256 by {
        if grid[k].len() > 0 {
            lemma_switches_are_independent(grid, snapshots.take(i), threshold, k, 0);
        } else {
            lemma_shape_is_kept(grid, snapshots.take(i), threshold, k);
        }
    }
    lemma_events_are_the_firing_switches(now, snapshots[i], threshold, now.len());
    if ev.contains(e) {
        let k = choose|k: int| 0 <= k < ev.len() && ev[k] == e;
        assert(reports_firing(now, snapshots[i], threshold, now.len(), ev[k]));
        assert(e.spec_coord().0 as int == r);
        assert(e.spec_coord().1 as int == c);
    }
}

/// Feeding snapshots never changes the shape of the grid.
proof fn lemma_shape_is_kept(
    grid: Seq<Seq<KeyState>>,
    snapshots: Seq<Seq<Seq<bool>>>,
    threshold: nat,
    r: int,
)
    requires
        0 <= r < grid.len(),
    ensures
        grid_after_all(grid, snapshots, threshold).len() == grid.len(),
        grid_after_all(grid, snapshots, threshold)[r].len() == grid[r].len(),
    decreases snapshots.len(),
{
    if snapshots.len() > 0 {
        lemma_shape_is_kept(grid, snapshots.drop_last(), threshold, r);
    }
}


/// A cycle reports at most one event per switch.
pub proof fn lemma_event_count_is_bounded(
    grid: Seq<Seq<KeyState>>,
    snapshot: Seq<Seq<bool>>,
    threshold: nat,
    rows: nat,
    cols: nat,
)
    requires
        rows <= grid.len(),
        rows <= 256,
        cols <= 256,
        forall|r: int| 0 <= r < rows ==> (#[trigger] grid[r]).len() == cols,
    ensures
        grid_events(grid, snapshot, threshold, rows).len() <= rows * cols,
    decreases rows,
{
    if rows > 0 {
        let m = (rows - 1) as nat;
        lemma_event_count_is_bounded(grid, snapshot, threshold, m, cols);
        lemma_row_events(grid[m as int], snapshot[m as int], threshold, m as int, cols);
        assert(m * cols + cols == rows * cols) by (nonlinear_arith)
            requires
                m + 1 == rows,
        ;
    }
}

} // verus!
