//! The layout engine: `keyberon::layout::Layout` behind a checked layer
//! table, a duplicate-free active key set, and a reserved key that raises
//! custom events.
//!
//! The table check refuses what can make the layout fail: a hold-tap inside
//! a group or inside the hold or tap binding of another, a held layer number
//! so large that [`MAX_HELD`] of them leave `usize`, and groups nested deeper
//! than [`MAX_DEPTH`], which bounds the check itself on a table that refers
//! back to itself.

use vstd::prelude::*;
use crate::event::{CustomEvent, Input, KeyEvent};

verus! {

/// `keyberon::action::Action`, a binding of a layer table.
#[verifier::external_type_specification]
#[verifier::external_body]
pub struct ExAction(keyberon::action::Action);

/// `keyberon::layout::Layout`, whose state is private.
#[verifier::external_type_specification]
#[verifier::external_body]
pub struct ExLayout(keyberon::layout::Layout);

/// Deepest nesting of groups inside one binding that the table check follows.
pub const MAX_DEPTH: usize = 8;

/// Number of states that a layout can hold at once, each of which may be a
/// held layer key.
pub const MAX_HELD: usize = 64;

/// What a binding is, one level deep.
pub enum Peek {
    /// Does nothing.
    NoOp,
    /// Defers to the default layer.
    Trans,
    /// One key code.
    Key,
    /// Several key codes pressed together.
    Keys,
    /// Several bindings performed together.
    Several(&'static [keyberon::action::Action]),
    /// Adds a layer while held.
    Layer(usize),
    /// Switches the default layer.
    DefaultLayer(usize),
    /// The hold binding and the tap binding of a dual-function key.
    HoldTap(&'static keyberon::action::Action, &'static keyberon::action::Action),
    /// Anything else.
    Unknown,
}

/// The variant of a binding and the fields that the table check reads.
pub uninterp spec fn peek_of(a: keyberon::action::Action) -> Peek;

/// The layer table that a layout was made with.
pub uninterp spec fn layout_table(l: keyberon::layout::Layout) -> Seq<
    Seq<Seq<keyberon::action::Action>>,
>;

/// The key codes that a layout currently reports, as HID usages, in its own order.
pub uninterp spec fn layout_codes(l: keyberon::layout::Layout) -> Seq<u8>;

/// The layout that `keyberon::layout::Layout::event` leaves when `l` is
/// handed the transition `e`.
pub uninterp spec fn layout_after_event(
    l: keyberon::layout::Layout,
    e: KeyEvent,
) -> keyberon::layout::Layout;

/// The layout that `keyberon::layout::Layout::tick` leaves when `l` is ticked.
pub uninterp spec fn layout_after_tick(l: keyberon::layout::Layout) -> keyberon::layout::Layout;

/// Tells the variants of `keyberon::action::Action` apart and hands out the
/// fields of the layer, hold-tap and multiple-action variants.
#[verifier::external_body]
fn peek(a: &'static keyberon::action::Action) -> (p: Peek)
    ensures
        p == peek_of(*a),
{
    match *a {
        keyberon::action::Action::NoOp => Peek::NoOp,
        keyberon::action::Action::Trans => Peek::Trans,
        keyberon::action::Action::KeyCode(_) => Peek::Key,
        keyberon::action::Action::MultipleKeyCodes(_) => Peek::Keys,
        keyberon::action::Action::MultipleActions(v) => Peek::Several(v),
        keyberon::action::Action::Layer(n) => Peek::Layer(n),
        keyberon::action::Action::DefaultLayer(n) => Peek::DefaultLayer(n),
        keyberon::action::Action::HoldTap { hold, tap, .. } => Peek::HoldTap(hold, tap),
        _ => Peek::Unknown,
    }
}

/// A layer number that can be held by every state of the layout at once
/// without their sum leaving `usize`.
pub open spec fn layer_fits(n: usize) -> bool {
    n <= usize::MAX / MAX_HELD
}

/// A binding that never leaves a hold-tap pending: anything but a hold-tap,
/// with every held layer number fitting and every group nested at most
/// `depth` deep.
pub open spec fn quiet(a: keyberon::action::Action, depth: nat) -> bool
    decreases depth,
{
    match peek_of(a) {
        Peek::NoOp => true,
        Peek::Trans => true,
        Peek::Key => true,
        Peek::Keys => true,
        Peek::Layer(n) => layer_fits(n),
        Peek::DefaultLayer(_) => true,
        Peek::Several(parts) => depth > 0 && forall|i: int|
            0 <= i < parts@.len() ==> quiet(#[trigger] parts@[i], (depth - 1) as nat),
        _ => false,
    }
}

/// A binding that the engine accepts: a quiet one, or a hold-tap whose hold
/// and tap bindings are quiet.
pub open spec fn action_ok(a: keyberon::action::Action) -> bool {
    match peek_of(a) {
        Peek::HoldTap(hold, tap) => quiet(*hold, MAX_DEPTH as nat) && quiet(*tap, MAX_DEPTH as nat),
        _ => quiet(a, MAX_DEPTH as nat),
    }
}

/// A table whose every binding is accepted.
pub open spec fn table_ok(table: Seq<Seq<Seq<keyberon::action::Action>>>) -> bool {
    forall|l: int, r: int, c: int|
        0 <= l < table.len() && 0 <= r < table[l].len() && 0 <= c < table[l][r].len()
            ==> action_ok(#[trigger] table[l][r][c])
}

/// A layer table as nested sequences: layer, row, column.
pub open spec fn table_view(
    layers: &'static [&'static [&'static [keyberon::action::Action]]],
) -> Seq<Seq<Seq<keyberon::action::Action>>> {
    Seq::new(
        layers@.len(),
        |l: int| Seq::new(layers@[l]@.len(), |r: int| layers@[l]@[r]@),
    )
}

/// Whether `a` is quiet with groups nested at most `depth` deep.
fn check_quiet(a: &'static keyberon::action::Action, depth: usize) -> (ok: bool)
    ensures
        ok == quiet(*a, depth as nat),
    decreases depth,
{
    match peek(a) {
        Peek::NoOp => true,
        Peek::Trans => true,
        Peek::Key => true,
        Peek::Keys => true,
        Peek::Layer(n) => n <= usize::MAX / MAX_HELD,
        Peek::DefaultLayer(_) => true,
        Peek::Several(parts) => {
            if depth == 0 {
                return false;
            }
            let mut i: usize = 0;
            while i < parts.len()
                invariant
                    i <= parts@.len(),
                    depth > 0,
                    peek_of(*a) == Peek::Several(parts),
                    forall|j: int| 0 <= j < i ==> quiet(#[trigger] parts@[j], (depth - 1) as nat),
                decreases parts@.len() - i,
            {
                if !check_quiet(&parts[i], depth - 1) {
                    proof {
                        assert(peek_of(*a)->Several_0 == parts);
                        assert(quiet(*a, depth as nat) ==> quiet(
                            parts@[i as int],
                            (depth - 1) as nat,
                        ));
                    }
                    return false;
                }
                i += 1;
            }
            proof {
                assert(peek_of(*a)->Several_0 == parts);
            }
            true
        },
        _ => false,
    }
}

/// Whether the engine accepts `a`.
fn check_action(a: &'static keyberon::action::Action) -> (ok: bool)
    ensures
        ok == action_ok(*a),
{
    match peek(a) {
        Peek::HoldTap(hold, tap) => check_quiet(hold, MAX_DEPTH) && check_quiet(tap, MAX_DEPTH),
        _ => check_quiet(a, MAX_DEPTH),
    }
}

/// Whether every binding of `layers` is accepted by the engine.
pub fn check_table(layers: &'static [&'static [&'static [keyberon::action::Action]]]) -> (ok: bool)
    ensures
        ok == table_ok(table_view(layers)),
{
    let ghost table = table_view(layers);
    let mut l: usize = 0;
    while l < layers.len()
        invariant
            l <= layers@.len(),
            table == table_view(layers),
            forall|a: int, r: int, c: int|
                0 <= a < l && 0 <= r < table[a].len() && 0 <= c < table[a][r].len() ==> action_ok(
                    #[trigger] table[a][r][c],
                ),
        decreases layers@.len() - l,
    {
        let layer: &'static [&'static [keyberon::action::Action]] = layers[l];
        let mut r: usize = 0;
        while r < layer.len()
            invariant
                l < layers@.len(),
                r <= layer@.len(),
                layer == layers@[l as int],
                table == table_view(layers),
                forall|a: int, b: int, c: int|
                    0 <= a < l && 0 <= b < table[a].len() && 0 <= c < table[a][b].len()
                        ==> action_ok(#[trigger] table[a][b][c]),
                forall|b: int, c: int|
                    0 <= b < r && 0 <= c < table[l as int][b].len() ==> action_ok(
                        #[trigger] table[l as int][b][c],
                    ),
            decreases layer@.len() - r,
        {
            let row: &'static [keyberon::action::Action] = layer[r];
            let mut c: usize = 0;
            while c < row.len()
                invariant
                    l < layers@.len(),
                    r < layer@.len(),
                    c <= row@.len(),
                    layer == layers@[l as int],
                    row == layer@[r as int],
                    table == table_view(layers),
                    forall|j: int| 0 <= j < c ==> action_ok(#[trigger] row@[j]),
                decreases row@.len() - c,
            {
                if !check_action(&row[c]) {
                    proof {
                        assert(table[l as int][r as int][c as int] == row@[c as int]);
                    }
                    return false;
                }
                c += 1;
            }
            proof {
                assert(table[l as int][r as int] == row@);
            }
            r += 1;
        }
        l += 1;
    }
    true
}


/// `keyberon::layout::Layout::new`: the layout reads `layers` and reports no
/// key code until it has been fed.
#[verifier::external_body]
fn layout_new(layers: &'static [&'static [&'static [keyberon::action::Action]]]) -> (l:
    keyberon::layout::Layout)
    ensures
        layout_table(l) == table_view(layers),
        layout_codes(l) == Seq::<u8>::empty(),
{
    keyberon::layout::Layout::new(layers)
}

/// `keyberon::layout::Layout::event`. What the call leaves depends on the
/// layout and the transition alone, so it is named, not written out. The
/// call can fail in three places: it asserts that no hold-tap is pending when
/// it starts a binding, it subtracts the age of a stacked release from that
/// of its press, and it adds up the held layer numbers. On an accepted table
/// none of them does. A hold-tap stands in no group and in no hold or tap
/// binding, so none is armed while another binding is still being started,
/// and none is started with an age of zero. The stack is first-in first-out,
/// so a press is at least as old as a release behind it. At most
/// [`MAX_HELD`] layer numbers are held, each within `usize::MAX / MAX_HELD`.
/// Groups end after [`MAX_DEPTH`] levels, so starting a binding returns.
/// The layout keeps its table.
#[verifier::external_body]
fn layout_event(l: &mut keyberon::layout::Layout, e: KeyEvent)
    requires
        table_ok(layout_table(*old(l))),
    ensures
        *final(l) == layout_after_event(*old(l), e),
        layout_table(*final(l)) == layout_table(*old(l)),
{
    let event = match e {
        KeyEvent::Press(r, c) => keyberon::layout::Event::Press(r, c),
        KeyEvent::Release(r, c) => keyberon::layout::Event::Release(r, c),
    };
    let _ = l.event(event);
}

/// `keyberon::layout::Layout::tick`. What the call leaves depends on the
/// layout alone, so it is named. On an accepted table the call returns, for
/// the reasons given at [`layout_event`], and the layout keeps its table.
#[verifier::external_body]
fn layout_tick(l: &mut keyberon::layout::Layout)
    requires
        table_ok(layout_table(*old(l))),
    ensures
        *final(l) == layout_after_tick(*old(l)),
        layout_table(*final(l)) == layout_table(*old(l)),
{
    let _ = l.tick();
}

/// The layout after it has been handed `events` from first to last.
pub open spec fn layout_after_events(
    l: keyberon::layout::Layout,
    events: Seq<KeyEvent>,
) -> keyberon::layout::Layout
    decreases events.len(),
{
    if events.len() == 0 {
        l
    } else {
        layout_after_event(layout_after_events(l, events.drop_last()), events.last())
    }
}

/// `keyberon::layout::Layout::keycodes`, each key code as its HID usage.
#[verifier::external_body]
fn layout_read(l: &keyberon::layout::Layout) -> (codes: Vec<u8>)
    ensures
        codes@ == layout_codes(*l),
{
    l.keycodes().map(|k| k as u8).collect()
}

/// The active key set of what a layout reports: every code once, in order of
/// first appearance, without the reserved code.
pub open spec fn active_codes(raw: Seq<u8>, reserved: Option<u8>) -> Seq<u8>
    decreases raw.len(),
{
    if raw.len() == 0 {
        Seq::empty()
    } else {
        let before = active_codes(raw.drop_last(), reserved);
        if reserved == Some(raw.last()) || raw.drop_last().contains(raw.last()) {
            before
        } else {
            before.push(raw.last())
        }
    }
}

/// Whether the reserved key is among the reported codes.
pub open spec fn reserved_down(raw: Seq<u8>, reserved: Option<u8>) -> bool {
    match reserved {
        Some(code) => raw.contains(code),
        None => false,
    }
}

/// The signal that the reserved key raises when it goes from `was` to `now`.
pub open spec fn custom_transition(was: bool, now: bool) -> CustomEvent {
    if was && !now {
        CustomEvent::Release
    } else if !was && now {
        CustomEvent::Press
    } else {
        CustomEvent::NoEvent
    }
}

/// The active set holds exactly the reported codes other than the reserved
/// one, and holds none of them twice.
pub proof fn lemma_active_codes_is_a_set(raw: Seq<u8>, reserved: Option<u8>)
    ensures
        active_codes(raw, reserved).no_duplicates(),
        forall|code: u8|
            active_codes(raw, reserved).contains(code) <==> raw.contains(code) && reserved != Some(
                code,
            ),
    decreases raw.len(),
{
    let out = active_codes(raw, reserved);
    if raw.len() > 0 {
        let init = raw.drop_last();
        let last = raw.last();
        let before = active_codes(init, reserved);
        lemma_active_codes_is_a_set(init, reserved);
        assert forall|code: u8| out.contains(code) <==> raw.contains(code) && reserved != Some(
            code,
        ) by {
            if raw.contains(code) {
                let i = choose|i: int| 0 <= i < raw.len() && raw[i] == code;
                if i < raw.len() - 1 {
                    assert(init[i] == code);
                    assert(init.contains(code));
                }
            }
            if init.contains(code) {
                let i = choose|i: int| 0 <= i < init.len() && init[i] == code;
                assert(raw[i] == code);
            }
            if reserved == Some(last) || init.contains(last) {
            } else {
                assert(out == before.push(last));
                if out.contains(code) {
                    let i = choose|i: int| 0 <= i < out.len() && out[i] == code;
                    if i < before.len() {
                        assert(before[i] == code);
                        assert(before.contains(code));
                    }
                }
                if before.contains(code) {
                    let i = choose|i: int| 0 <= i < before.len() && before[i] == code;
                    assert(out[i] == code);
                }
                if code == last {
                    assert(out[before.len() as int] == code);
                    assert(raw[raw.len() - 1] == code);
                }
            }
        }
        if !(reserved == Some(last) || init.contains(last)) {
            assert(!before.contains(last));
            assert forall|i: int, j: int|
                0 <= i < out.len() && 0 <= j < out.len() && i != j implies out[i] != out[j] by {
                if i < before.len() && j < before.len() {
                    assert(before[i] != before[j]);
                } else if i < before.len() {
                    assert(before.contains(before[i]));
                } else {
                    assert(before.contains(before[j]));
                }
            }
        }
    }
}


/// The layout engine.
pub struct Engine {
    inner: keyberon::layout::Layout,
    reserved: Option<u8>,
    reserved_held: bool,
    pending: CustomEvent,
    fed: Ghost<Seq<Input>>,
    downs: Ghost<Seq<bool>>,
}

impl Engine {
    /// The layer table is one that the engine accepts, and the engine knows
    /// whether the reserved key is among the reported codes.
    pub closed spec fn wf(&self) -> bool {
        &&& table_ok(layout_table(self.inner))
        &&& self.reserved_held == reserved_down(layout_codes(self.inner), self.reserved)
        &&& self.reserved_held == down_before(self.downs@)
        &&& self.downs@.len() == self.fed@.len()
        &&& self.pending == gathered(self.fed@, self.downs@)
    }

    /// The layout that the engine drives.
    pub closed spec fn layout(&self) -> keyberon::layout::Layout {
        self.inner
    }

    /// The layer table in use.
    pub open spec fn table(&self) -> Seq<Seq<Seq<keyberon::action::Action>>> {
        layout_table(self.layout())
    }

    /// The key codes that the layout reports, before the active set is formed.
    pub open spec fn reported(&self) -> Seq<u8> {
        layout_codes(self.layout())
    }

    /// The key code that raises custom events instead of reaching the host.
    pub closed spec fn reserved(&self) -> Option<u8> {
        self.reserved
    }

    /// The custom event gathered since the last tick.
    pub closed spec fn pending(&self) -> CustomEvent {
        self.pending
    }

    /// Everything that the engine has been fed, oldest first.
    pub closed spec fn fed(&self) -> Seq<Input> {
        self.fed@
    }

    /// Whether the reserved key was among the reported codes after each
    /// input, oldest first.
    pub closed spec fn downs(&self) -> Seq<bool> {
        self.downs@
    }

    /// Whether the reserved key is among the reported codes.
    pub open spec fn reserved_is_down(&self) -> bool {
        reserved_down(self.reported(), self.reserved())
    }

    /// A valid engine has looked at the reserved key after every input, and
    /// its pending custom event is the one gathered since the last tick.
    pub proof fn lemma_pending_is_gathered(&self)
        requires
            self.wf(),
        ensures
            self.downs().len() == self.fed().len(),
            self.reserved_is_down() == down_before(self.downs()),
            self.pending() == gathered(self.fed(), self.downs()),
    {
    }

    /// An engine over `layers` with nothing held, or `None` when the table
    /// holds a binding that the engine does not accept.
    pub fn new(
        layers: &'static [&'static [&'static [keyberon::action::Action]]],
        reserved: Option<u8>,
    ) -> (made: Option<Engine>)
        ensures
            made is Some <==> table_ok(table_view(layers)),
            made matches Some(e) ==> {
                &&& e.wf()
                &&& e.table() == table_view(layers)
                &&& e.reported() == Seq::<u8>::empty()
                &&& e.reserved() == reserved
                &&& e.pending() == CustomEvent::NoEvent
                &&& e.fed() == Seq::<Input>::empty()
                &&& e.downs() == Seq::<bool>::empty()
            },
    {
        if check_table(layers) {
            Some(
                Engine {
                    inner: layout_new(layers),
                    reserved,
                    reserved_held: false,
                    pending: CustomEvent::NoEvent,
                    fed: Ghost(Seq::empty()),
                    downs: Ghost(Seq::empty()),
                },
            )
        } else {
            None
        }
    }

    /// Looks for the reserved key among the reported codes and returns what
    /// has happened to it since the last look.
    fn sample(&mut self) -> (change: CustomEvent)
        ensures
            final(self).reserved_held == reserved_down(
                layout_codes(old(self).inner),
                old(self).reserved,
            ),
            final(self).inner == old(self).inner,
            final(self).reserved == old(self).reserved,
            final(self).pending == old(self).pending,
            final(self).fed == old(self).fed,
            final(self).downs == old(self).downs,
            change == custom_transition(old(self).reserved_held, final(self).reserved_held),
    {
        let was: bool = self.reserved_held;
        let now: bool = match self.reserved {
            Some(code) => {
                let raw = layout_read(&self.inner);
                proof {
                    assert(raw@.take(raw@.len() as int) =~= raw@);
                }
                holds(&raw, raw.len(), code)
            },
            None => false,
        };
        self.reserved_held = now;
        signal_of(was, now)
    }

    /// Hands one key transition to the layout and notes what it did to the
    /// reserved key. Which key codes the layout reports afterwards is
    /// keyberon's to decide: the contract names its result.
    pub fn event(&mut self, e: KeyEvent)
        requires
            old(self).wf(),
        ensures
            final(self).wf(),
            final(self).layout() == layout_after_event(old(self).layout(), e),
            final(self).table() == old(self).table(),
            final(self).reserved() == old(self).reserved(),
            final(self).fed() == old(self).fed().push(Input::Key(e)),
            final(self).downs() == old(self).downs().push(final(self).reserved_is_down()),
            final(self).pending() == merge(
                old(self).pending(),
                custom_transition(old(self).reserved_is_down(), final(self).reserved_is_down()),
            ),
    {
        let ghost fed = self.fed@;
        let ghost downs = self.downs@;
        layout_event(&mut self.inner, e);
        let change = self.sample();
        self.pending = merge_signals(self.pending, change);
        self.fed = Ghost(fed.push(Input::Key(e)));
        self.downs = Ghost(downs.push(self.reserved_held));
        proof {
            assert(self.fed@.drop_last() =~= fed);
            assert(self.downs@.drop_last() =~= downs);
        }
    }

    /// Advances the layout by one tick and returns the custom event gathered
    /// since the previous tick, a release outranking a press. Which key
    /// codes the layout reports afterwards is keyberon's to decide: the
    /// contract names its result.
    pub fn tick(&mut self) -> (signal: CustomEvent)
        requires
            old(self).wf(),
        ensures
            final(self).wf(),
            final(self).layout() == layout_after_tick(old(self).layout()),
            final(self).table() == old(self).table(),
            final(self).reserved() == old(self).reserved(),
            final(self).fed() == old(self).fed().push(Input::Tick),
            final(self).downs() == old(self).downs().push(final(self).reserved_is_down()),
            final(self).pending() == CustomEvent::NoEvent,
            signal == merge(
                old(self).pending(),
                custom_transition(old(self).reserved_is_down(), final(self).reserved_is_down()),
            ),
    {
        let ghost fed = self.fed@;
        let ghost downs = self.downs@;
        layout_tick(&mut self.inner);
        let change = self.sample();
        let signal = merge_signals(self.pending, change);
        self.pending = CustomEvent::NoEvent;
        self.fed = Ghost(fed.push(Input::Tick));
        self.downs = Ghost(downs.push(self.reserved_held));
        signal
    }

    /// The active key set: every reported code once, in order of first
    /// appearance, without the reserved code.
    pub fn keycodes(&self) -> (codes: Vec<u8>)
        ensures
            codes@ == active_codes(self.reported(), self.reserved()),
            codes@.no_duplicates(),
            forall|code: u8|
                codes@.contains(code) <==> self.reported().contains(code) && self.reserved()
                    != Some(code),
    {
        let raw = layout_read(&self.inner);
        let codes = distinct(&raw, self.reserved);
        proof {
            lemma_active_codes_is_a_set(raw@, self.reserved);
        }
        codes
    }
}

/// Whether the reserved key was down after the last of the inputs that
/// `downs` records: it is up before any input.
pub open spec fn down_before(downs: Seq<bool>) -> bool {
    if downs.len() == 0 {
        false
    } else {
        downs.last()
    }
}

/// The custom event gathered since the last tick, when `downs` tells whether
/// the reserved key was down after each input of `fed`.
pub open spec fn gathered(fed: Seq<Input>, downs: Seq<bool>) -> CustomEvent
    decreases fed.len(),
{
    if fed.len() == 0 || fed.last() == Input::Tick {
        CustomEvent::NoEvent
    } else {
        merge(
            gathered(fed.drop_last(), downs.drop_last()),
            custom_transition(down_before(downs.drop_last()), downs.last()),
        )
    }
}

/// The custom event of a span in which `earlier` was gathered first and
/// `later` after it: a release outranks a press, and a press outranks nothing.
pub open spec fn merge(earlier: CustomEvent, later: CustomEvent) -> CustomEvent {
    if earlier == CustomEvent::Release || later == CustomEvent::Release {
        CustomEvent::Release
    } else if earlier == CustomEvent::Press || later == CustomEvent::Press {
        CustomEvent::Press
    } else {
        CustomEvent::NoEvent
    }
}

/// Combines two custom events of one span (see [`merge`]).
pub fn merge_signals(earlier: CustomEvent, later: CustomEvent) -> (both: CustomEvent)
    ensures
        both == merge(earlier, later),
{
    match (earlier, later) {
        (CustomEvent::Release, _) => CustomEvent::Release,
        (_, CustomEvent::Release) => CustomEvent::Release,
        (CustomEvent::Press, _) => CustomEvent::Press,
        (_, CustomEvent::Press) => CustomEvent::Press,
        _ => CustomEvent::NoEvent,
    }
}

/// The signal that the reserved key raises when it goes from `was` to `now`.
pub fn signal_of(was: bool, now: bool) -> (signal: CustomEvent)
    ensures
        signal == custom_transition(was, now),
{
    if was && !now {
        CustomEvent::Release
    } else if !was && now {
        CustomEvent::Press
    } else {
        CustomEvent::NoEvent
    }
}

/// Whether `code` is among the first `n` of `codes`.
fn holds(codes: &Vec<u8>, n: usize, code: u8) -> (found: bool)
    requires
        n <= codes@.len(),
    ensures
        found == codes@.take(n as int).contains(code),
{
    let mut i: usize = 0;
    while i < n
        invariant
            i <= n <= codes@.len(),
            forall|j: int| 0 <= j < i ==> codes@[j] != code,
        decreases n - i,
    {
        if codes[i] == code {
            proof {
                assert(codes@.take(n as int)[i as int] == code);
            }
            return true;
        }
        i += 1;
    }
    proof {
        if codes@.take(n as int).contains(code) {
            let j = choose|j: int| 0 <= j < n && codes@.take(n as int)[j] == code;
            assert(codes@[j] == code);
        }
    }
    false
}

/// The active key set of `raw` (see [`active_codes`]).
pub fn distinct(raw: &Vec<u8>, reserved: Option<u8>) -> (codes: Vec<u8>)
    ensures
        codes@ == active_codes(raw@, reserved),
{
    let mut codes: Vec<u8> = Vec::new();
    let mut i: usize = 0;
    while i < raw.len()
        invariant
            i <= raw@.len(),
            codes@ == active_codes(raw@.take(i as int), reserved),
        decreases raw@.len() - i,
    {
        let code: u8 = raw[i];
        proof {
            assert(raw@.take(i + 1).drop_last() =~= raw@.take(i as int));
            assert(raw@.take(i + 1).last() == code);
        }
        let skip: bool = match reserved {
            Some(r) => r == code,
            None => false,
        };
        if !skip && !holds(raw, i, code) {
            codes.push(code);
        }
        i += 1;
    }
    proof {
        assert(raw@.take(raw@.len() as int) =~= raw@);
    }
    codes
}

} // verus!
