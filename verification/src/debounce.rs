//! Per-switch debouncing of a raw matrix snapshot.
//!
//! Every coordinate owns one `keyberon::debounce::Debouncer<bool>`; the grid
//! is walked in row-major order so that the events of one tick come out in a
//! reproducible order.

use vstd::prelude::*;
use crate::event::KeyEvent;

verus! {

/// `keyberon::debounce::Debouncer`, whose fields are private: the four
/// functions below name what it holds when it debounces one switch.
#[verifier::external_type_specification]
#[verifier::external_body]
#[verifier::reject_recursive_types(T)]
pub struct ExCell<T>(keyberon::debounce::Debouncer<T>);

/// The state that a one-switch debouncer currently reports as valid.
pub uninterp spec fn cell_accepted(c: keyberon::debounce::Debouncer<bool>) -> bool;

/// The state that a one-switch debouncer last saw disagreeing with the accepted one.
pub uninterp spec fn cell_candidate(c: keyberon::debounce::Debouncer<bool>) -> bool;

/// How many updates in a row a one-switch debouncer has counted for its candidate.
pub uninterp spec fn cell_run(c: keyberon::debounce::Debouncer<bool>) -> nat;

/// The count that a one-switch debouncer must exceed before it accepts a change.
pub uninterp spec fn cell_limit(c: keyberon::debounce::Debouncer<bool>) -> nat;

/// `keyberon::debounce::Debouncer::new` with both states equal: the new
/// debouncer accepts `state`, has counted nothing, and keeps `limit`.
#[verifier::external_body]
fn cell_new(state: bool, limit: u16) -> (c: keyberon::debounce::Debouncer<bool>)
    ensures
        cell_accepted(c) == state,
        cell_candidate(c) == state,
        cell_run(c) == 0,
        cell_limit(c) == limit,
{
    keyberon::debounce::Debouncer::new(state, state, limit)
}

/// `keyberon::debounce::Debouncer::update` on one switch. An observation equal
/// to the accepted state clears the count. Any other observation restarts the
/// count at one when it differs from the candidate and adds one otherwise;
/// once the count exceeds the limit the accepted and candidate states trade
/// places, the count is cleared and `true` is returned.
#[verifier::external_body]
fn cell_update(c: &mut keyberon::debounce::Debouncer<bool>, raw: bool) -> (changed: bool)
    requires
        cell_run(*old(c)) < u16::MAX,
    ensures
        cell_limit(*final(c)) == cell_limit(*old(c)),
        raw == cell_accepted(*old(c)) ==> {
            &&& !changed
            &&& cell_accepted(*final(c)) == cell_accepted(*old(c))
            &&& cell_candidate(*final(c)) == cell_candidate(*old(c))
            &&& cell_run(*final(c)) == 0
        },
        raw != cell_accepted(*old(c)) ==> {
            let run: nat = if cell_candidate(*old(c)) != raw {
                1
            } else {
                cell_run(*old(c)) + 1
            };
            if run > cell_limit(*old(c)) {
                &&& changed
                &&& cell_accepted(*final(c)) == raw
                &&& cell_candidate(*final(c)) == cell_accepted(*old(c))
                &&& cell_run(*final(c)) == 0
            } else {
                &&& !changed
                &&& cell_accepted(*final(c)) == cell_accepted(*old(c))
                &&& cell_candidate(*final(c)) == raw
                &&& cell_run(*final(c)) == run
            }
        },
{
    c.update(raw)
}

/// What debouncing remembers of one switch: the state it vouches for and how
/// many consecutive observations have contradicted it.
pub struct KeyState {
    pub accepted: bool,
    pub run: nat,
}

/// Whether observing `raw` makes the switch change its accepted state.
pub open spec fn fires(k: KeyState, raw: bool, threshold: nat) -> bool {
    raw != k.accepted && k.run + 1 >= threshold
}

/// The switch after observing `raw`.
pub open spec fn next_key(k: KeyState, raw: bool, threshold: nat) -> KeyState {
    if raw == k.accepted {
        KeyState { accepted: k.accepted, run: 0 }
    } else if k.run + 1 >= threshold {
        KeyState { accepted: raw, run: 0 }
    } else {
        KeyState { accepted: k.accepted, run: k.run + 1 }
    }
}

/// The transition that a firing switch reports: a press when it goes down.
pub open spec fn transition(raw: bool, row: int, col: int) -> KeyEvent {
    if raw {
        KeyEvent::Press(row as u8, col as u8)
    } else {
        KeyEvent::Release(row as u8, col as u8)
    }
}

/// Events of the first `n` switches of row `row`, in column order.
pub open spec fn row_events(
    keys: Seq<KeyState>,
    raws: Seq<bool>,
    threshold: nat,
    row: int,
    n: nat,
) -> Seq<KeyEvent>
    decreases n,
{
    if n == 0 {
        Seq::empty()
    } else {
        let before = row_events(keys, raws, threshold, row, (n - 1) as nat);
        if fires(keys[n - 1], raws[n - 1], threshold) {
            before.push(transition(raws[n - 1], row, n - 1))
        } else {
            before
        }
    }
}

/// Events of the first `n` rows, row by row.
pub open spec fn grid_events(
    grid: Seq<Seq<KeyState>>,
    snapshot: Seq<Seq<bool>>,
    threshold: nat,
    n: nat,
) -> Seq<KeyEvent>
    decreases n,
{
    if n == 0 {
        Seq::empty()
    } else {
        grid_events(grid, snapshot, threshold, (n - 1) as nat) + row_events(
            grid[n - 1],
            snapshot[n - 1],
            threshold,
            n - 1,
            grid[n - 1].len(),
        )
    }
}

/// The grid after every switch has observed its entry of `snapshot`.
pub open spec fn grid_after(
    grid: Seq<Seq<KeyState>>,
    snapshot: Seq<Seq<bool>>,
    threshold: nat,
) -> Seq<Seq<KeyState>> {
    Seq::new(
        grid.len(),
        |r: int| Seq::new(grid[r].len(), |c: int| next_key(grid[r][c], snapshot[r][c], threshold)),
    )
}

/// A snapshot as a grid of booleans, row by row.
pub open spec fn snapshot_view<const R: usize, const C: usize>(snapshot: [[bool; C]; R]) -> Seq<
    Seq<bool>,
> {
    Seq::new(R as nat, |r: int| snapshot@[r]@)
}


/// The count that a switch must reach before a change is accepted: a
/// configured threshold of zero acts as one.
pub open spec fn effective_threshold(threshold: u16) -> nat {
    if threshold == 0 {
        1
    } else {
        threshold as nat
    }
}

/// Debouncer of an `R` by `C` switch matrix.
pub struct MatrixDebouncer<const R: usize, const C: usize> {
    cells: Vec<Vec<keyberon::debounce::Debouncer<bool>>>,
    threshold: u16,
}

/// What the library remembers of the switch behind a one-switch debouncer.
pub closed spec fn cell_view(c: keyberon::debounce::Debouncer<bool>) -> KeyState {
    KeyState { accepted: cell_accepted(c), run: cell_run(c) }
}

/// A one-switch debouncer that was made for `threshold` and has only been
/// driven through this module.
pub closed spec fn cell_wf(c: keyberon::debounce::Debouncer<bool>, threshold: nat) -> bool {
    &&& cell_limit(c) + 1 == threshold
    &&& cell_run(c) <= cell_limit(c)
    &&& cell_limit(c) < u16::MAX
    &&& cell_candidate(c) == cell_accepted(c) ==> cell_run(c) == 0
}

/// What the library remembers of the switches of one row.
pub closed spec fn row_view(row: Seq<keyberon::debounce::Debouncer<bool>>) -> Seq<KeyState> {
    Seq::new(row.len(), |c: int| cell_view(row[c]))
}

impl<const R: usize, const C: usize> View for MatrixDebouncer<R, C> {
    type V = Seq<Seq<KeyState>>;

    closed spec fn view(&self) -> Seq<Seq<KeyState>> {
        Seq::new(self.cells@.len(), |r: int| row_view(self.cells@[r]@))
    }
}

impl<const R: usize, const C: usize> MatrixDebouncer<R, C> {
    /// The threshold in force (see [`effective_threshold`]).
    pub closed spec fn threshold(&self) -> nat {
        effective_threshold(self.threshold)
    }

    /// The grid has `R` rows of `C` switches, every count is below the
    /// threshold, and every coordinate fits the bytes of a key event.
    pub closed spec fn wf(&self) -> bool {
        &&& R <= 256
        &&& C <= 256
        &&& self.cells@.len() == R
        &&& forall|r: int| 0 <= r < R ==> (#[trigger] self.cells@[r])@.len() == C
        &&& forall|r: int, c: int|
            0 <= r < R && 0 <= c < C ==> cell_wf(
                #[trigger] self.cells@[r]@[c],
                effective_threshold(self.threshold),
            )
    }

    /// What validity means for the model: its shape and the bound on counts.
    pub proof fn lemma_wf_view(&self)
        requires
            self.wf(),
        ensures
            R <= 256,
            C <= 256,
            self.threshold() >= 1,
            self@.len() == R,
            forall|r: int| 0 <= r < R ==> (#[trigger] self@[r]).len() == C,
            forall|r: int, c: int|
                0 <= r < R && 0 <= c < C ==> (#[trigger] self@[r][c]).run < self.threshold(),
    {
        assert forall|r: int, c: int| 0 <= r < R && 0 <= c < C implies (#[trigger] self@[r][c]).run
            < self.threshold() by {
            assert(cell_wf(self.cells@[r]@[c], effective_threshold(self.threshold)));
        }
    }

    /// A debouncer whose every switch is accepted as released. A change of
    /// a switch is validated by the scan that sees it for the `threshold`-th
    /// time in a row; the coordinates of an event are bytes, so neither
    /// dimension may exceed 256.
    pub fn new(threshold: u16) -> (d: Self)
        requires
            R <= 256,
            C <= 256,
        ensures
            d.wf(),
            d.threshold() == effective_threshold(threshold),
            d@ == Seq::new(
                R as nat,
                |r: int| Seq::new(C as nat, |c: int| KeyState { accepted: false, run: 0 }),
            ),
    {
        let limit: u16 = if threshold == 0 {
            0
        } else {
            threshold - 1
        };
        let mut cells: Vec<Vec<keyberon::debounce::Debouncer<bool>>> = Vec::new();
        let mut r: usize = 0;
        while r < R
            invariant
                r <= R,
                cells@.len() == r,
                limit + 1 == effective_threshold(threshold),
                forall|i: int| 0 <= i < r ==> (#[trigger] cells@[i])@.len() == C,
                forall|i: int, j: int|
                    0 <= i < r && 0 <= j < C ==> {
                        &&& cell_wf(#[trigger] cells@[i]@[j], effective_threshold(threshold))
                        &&& cell_view(cells@[i]@[j]) == KeyState { accepted: false, run: 0 }
                    },
            decreases R - r,
        {
            let mut row: Vec<keyberon::debounce::Debouncer<bool>> = Vec::new();
            let mut c: usize = 0;
            while c < C
                invariant
                    c <= C,
                    row@.len() == c,
                    limit + 1 == effective_threshold(threshold),
                    forall|j: int|
                        0 <= j < c ==> {
                            &&& cell_wf(#[trigger] row@[j], effective_threshold(threshold))
                            &&& cell_view(row@[j]) == KeyState { accepted: false, run: 0 }
                        },
                decreases C - c,
            {
                row.push(cell_new(false, limit));
                c += 1;
            }
            cells.push(row);
            r += 1;
        }
        let d = MatrixDebouncer { cells, threshold };
        proof {
            let want = Seq::new(
                R as nat,
                |r: int| Seq::new(C as nat, |c: int| KeyState { accepted: false, run: 0 }),
            );
            assert forall|i: int| 0 <= i < R implies d@[i] =~= want[i] by {
                assert(d.cells@[i]@.len() == C);
                assert forall|j: int| 0 <= j < C implies d@[i][j] == want[i][j] by {
                    assert(cell_view(d.cells@[i]@[j]) == KeyState { accepted: false, run: 0 });
                }
            }
            assert(d@ =~= want);
        }
        d
    }

    /// The configured threshold, with zero read as one.
    pub fn threshold_ticks(&self) -> (t: u16)
        ensures
            t == self.threshold(),
    {
        if self.threshold == 0 {
            1
        } else {
            self.threshold
        }
    }

    /// Feeds one snapshot to every switch and returns the transitions that it
    /// validates, in row-major order.
    pub fn events(&mut self, snapshot: &[[bool; C]; R]) -> (out: Vec<KeyEvent>)
        requires
            old(self).wf(),
        ensures
            final(self).wf(),
            final(self).threshold() == old(self).threshold(),
            final(self)@ == grid_after(old(self)@, snapshot_view(*snapshot), old(self).threshold()),
            out@ == grid_events(
                old(self)@,
                snapshot_view(*snapshot),
                old(self).threshold(),
                R as nat,
            ),
    {
        let ghost pre = *self;
        let ghost grid = pre@;
        let ghost snap = snapshot_view(*snapshot);
        let ghost t = effective_threshold(self.threshold);
        let mut out: Vec<KeyEvent> = Vec::new();
        let mut r: usize = 0;
        while r < R
            invariant
                r <= R,
                pre.wf(),
                grid == pre@,
                snap == snapshot_view(*snapshot),
                t == effective_threshold(pre.threshold),
                self.threshold == pre.threshold,
                self.cells@.len() == R,
                forall|i: int| 0 <= i < R ==> (#[trigger] self.cells@[i])@.len() == C,
                forall|i: int| r <= i < R ==> #[trigger] self.cells@[i] == pre.cells@[i],
                forall|i: int, j: int|
                    0 <= i < r && 0 <= j < C ==> {
                        &&& cell_wf(#[trigger] self.cells@[i]@[j], t)
                        &&& cell_view(self.cells@[i]@[j]) == next_key(grid[i][j], snap[i][j], t)
                    },
                out@ == grid_events(grid, snap, t, r as nat),
            decreases R - r,
        {
            let mut c: usize = 0;
            proof {
                assert(grid[r as int].len() == C);
            }
            while c < C
                invariant
                    r < R,
                    c <= C,
                    pre.wf(),
                    grid == pre@,
                    snap == snapshot_view(*snapshot),
                    t == effective_threshold(pre.threshold),
                    self.threshold == pre.threshold,
                    self.cells@.len() == R,
                    forall|i: int| 0 <= i < R ==> (#[trigger] self.cells@[i])@.len() == C,
                    forall|i: int| r < i < R ==> #[trigger] self.cells@[i] == pre.cells@[i],
                    forall|j: int|
                        c <= j < C ==> #[trigger] self.cells@[r as int]@[j] == pre.cells@[r as int]@[j],
                    forall|i: int, j: int|
                        0 <= i < r && 0 <= j < C ==> {
                            &&& cell_wf(#[trigger] self.cells@[i]@[j], t)
                            &&& cell_view(self.cells@[i]@[j]) == next_key(grid[i][j], snap[i][j], t)
                        },
                    forall|j: int|
                        0 <= j < c ==> {
                            &&& cell_wf(#[trigger] self.cells@[r as int]@[j], t)
                            &&& cell_view(self.cells@[r as int]@[j]) == next_key(
                                grid[r as int][j],
                                snap[r as int][j],
                                t,
                            )
                        },
                    out@ == grid_events(grid, snap, t, r as nat) + row_events(
                        grid[r as int],
                        snap[r as int],
                        t,
                        r as int,
                        c as nat,
                    ),
                decreases C - c,
            {
                let raw: bool = snapshot[r][c];
                proof {
                    assert(cell_wf(pre.cells@[r as int]@[c as int], t));
                    assert(grid[r as int][c as int] == cell_view(pre.cells@[r as int]@[c as int]));
                    assert(snap[r as int][c as int] == raw);
                }
                let changed: bool = cell_update(&mut self.cells[r][c], raw);
                if changed {
                    let event = if raw {
                        KeyEvent::Press(r as u8, c as u8)
                    } else {
                        KeyEvent::Release(r as u8, c as u8)
                    };
                    out.push(event);
                }
                c += 1;
            }
            r += 1;
        }
        proof {
            let want = grid_after(grid, snap, t);
            assert forall|i: int| 0 <= i < R implies self@[i] =~= want[i] by {
                assert(self.cells@[i]@.len() == C);
                assert(pre.cells@[i]@.len() == C);
                assert forall|j: int| 0 <= j < C implies self@[i][j] == want[i][j] by {
                    assert(cell_wf(self.cells@[i]@[j], t));
                }
            }
            assert(self@ =~= want);
        }
        out
    }
}

} // verus!
