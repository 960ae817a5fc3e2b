//! One scan cycle: debounce the snapshot, feed the layout, decide what the
//! transport and the hardware are asked to do.

use vstd::prelude::*;
use crate::debounce::{
    effective_threshold, grid_after, grid_events, snapshot_view, KeyState, MatrixDebouncer,
};
use crate::engine::{
    active_codes, custom_transition, gathered, layout_after_events, layout_after_tick, merge,
    table_ok, table_view, Engine,
};
use crate::event::{CustomEvent, Input, KeyEvent};
use crate::report::{report_of, HidReport};

verus! {

/// What the caller must do after a cycle.
#[derive(Clone, Copy, Debug, PartialEq, Eq)]
pub enum TickAction {
    /// Leave normal operation and enter the bootloader. No report was built.
    Bootload,
    /// Hand this report to the transport: it differs from the last one sent.
    Send(HidReport),
    /// Nothing to send.
    Idle,
}

/// The action that a cycle ends in. A release of the reserved key outranks
/// everything; otherwise the report is sent exactly when it has changed.
pub open spec fn action_of(signal: CustomEvent, report: HidReport, last: HidReport) -> TickAction {
    if signal == CustomEvent::Release {
        TickAction::Bootload
    } else if report == last {
        TickAction::Idle
    } else {
        TickAction::Send(report)
    }
}

/// Key transitions as engine inputs, in the same order.
pub open spec fn keys_fed(events: Seq<KeyEvent>) -> Seq<Input> {
    events.map_values(|e: KeyEvent| Input::Key(e))
}

/// Chooses the action of a cycle from the custom signal and the report.
pub fn decide(signal: CustomEvent, report: HidReport, last: HidReport) -> (action: TickAction)
    ensures
        action == action_of(signal, report, last),
        action is Bootload <==> signal == CustomEvent::Release,
{
    match signal {
        CustomEvent::Release => TickAction::Bootload,
        _ => match if_changed(report, last) {
            Some(r) => TickAction::Send(r),
            None => TickAction::Idle,
        },
    }
}

/// The report to hand to the transport, if `report` differs from the last one sent.
pub open spec fn changed_report(report: HidReport, last: HidReport) -> Option<HidReport> {
    if report == last {
        None
    } else {
        Some(report)
    }
}

/// Returns `report` when it differs from the last one sent.
pub fn if_changed(report: HidReport, last: HidReport) -> (send: Option<HidReport>)
    ensures
        send == changed_report(report, last),
{
    let same: bool = report == last;
    proof {
        if same {
            assert(report.keys@ =~= last.keys@);
            assert(report.keys == last.keys);
        }
    }
    if same {
        None
    } else {
        Some(report)
    }
}

/// The whole input pipeline of an `R` by `C` keyboard.
pub struct Keyboard<const R: usize, const C: usize> {
    debouncer: MatrixDebouncer<R, C>,
    engine: Engine,
    last: HidReport,
}

impl<const R: usize, const C: usize> Keyboard<R, C> {
    /// Both parts are valid.
    pub closed spec fn wf(&self) -> bool {
        self.debouncer.wf() && self.engine.wf()
    }

    /// The debouncer's view of every switch.
    pub closed spec fn switches(&self) -> Seq<Seq<KeyState>> {
        self.debouncer@
    }

    /// The debounce threshold in force.
    pub closed spec fn threshold(&self) -> nat {
        self.debouncer.threshold()
    }

    /// The layout engine.
    pub closed spec fn engine(&self) -> Engine {
        self.engine
    }

    /// The report that was last handed out for sending.
    pub closed spec fn last_report(&self) -> HidReport {
        self.last
    }

    /// The report that was last handed out, for a host that asks again.
    pub fn report(&self) -> (r: HidReport)
        ensures
            r == self.last_report(),
    {
        self.last
    }

    /// The report of what the engine holds active.
    pub open spec fn current_report(&self) -> HidReport {
        report_of(active_codes(self.engine().reported(), self.engine().reserved()))
    }

    /// A keyboard at rest over `layers`, or `None` when the engine does not
    /// accept the table.
    pub fn new(
        layers: &'static [&'static [&'static [keyberon::action::Action]]],
        reserved: Option<u8>,
        threshold: u16,
    ) -> (made: Option<Self>)
        requires
            R <= 256,
            C <= 256,
        ensures
            made is Some <==> table_ok(table_view(layers)),
            made matches Some(k) ==> {
                &&& k.wf()
                &&& k.threshold() == effective_threshold(threshold)
                &&& k.switches() == Seq::new(
                    R as nat,
                    |r: int| Seq::new(C as nat, |c: int| KeyState { accepted: false, run: 0 }),
                )
                &&& k.engine().table() == table_view(layers)
                &&& k.engine().reported() == Seq::<u8>::empty()
                &&& k.engine().reserved() == reserved
                &&& k.engine().pending() == CustomEvent::NoEvent
                &&& k.engine().fed() == Seq::<Input>::empty()
                &&& k.engine().downs() == Seq::<bool>::empty()
                &&& k.last_report() == report_of(Seq::empty())
            },
    {
        match Engine::new(layers, reserved) {
            Some(engine) => Some(
                Keyboard { debouncer: MatrixDebouncer::new(threshold), engine, last: HidReport::empty() },
            ),
            None => None,
        }
    }

    /// First half of a cycle: debounces a fresh snapshot and feeds the
    /// validated transitions to the engine in row-major order. Returns the
    /// report to send when the events alone have changed it.
    pub fn feed(&mut self, snapshot: &[[bool; C]; R]) -> (send: Option<HidReport>)
        requires
            old(self).wf(),
        ensures
            final(self).wf(),
            final(self).threshold() == old(self).threshold(),
            final(self).switches() == grid_after(
                old(self).switches(),
                snapshot_view(*snapshot),
                old(self).threshold(),
            ),
            final(self).engine().layout() == layout_after_events(
                old(self).engine().layout(),
                grid_events(
                    old(self).switches(),
                    snapshot_view(*snapshot),
                    old(self).threshold(),
                    R as nat,
                ),
            ),
            grid_events(
                old(self).switches(),
                snapshot_view(*snapshot),
                old(self).threshold(),
                R as nat,
            ).len() == 0 ==> final(self).engine().reported() == old(self).engine().reported(),
            final(self).engine().table() == old(self).engine().table(),
            final(self).engine().reserved() == old(self).engine().reserved(),
            final(self).engine().fed() == old(self).engine().fed() + keys_fed(
                grid_events(
                    old(self).switches(),
                    snapshot_view(*snapshot),
                    old(self).threshold(),
                    R as nat,
                ),
            ),
            final(self).engine().downs().len() == final(self).engine().fed().len(),
            final(self).engine().downs().take(old(self).engine().downs().len() as int) == old(
                self,
            ).engine().downs(),
            final(self).engine().pending() == gathered(
                final(self).engine().fed(),
                final(self).engine().downs(),
            ),
            send == changed_report(final(self).current_report(), old(self).last_report()),
            final(self).last_report() == final(self).current_report(),
    {
        let events = self.debouncer.events(snapshot);
        let ghost before = self.engine.fed();
        let ghost downs = self.engine.downs();
        let ghost debounced = self.debouncer;
        proof {
            old(self).engine.lemma_pending_is_gathered();
            assert(self.engine.downs().take(downs.len() as int) =~= downs);
        }
        let mut i: usize = 0;
        while i < events.len()
            invariant
                i <= events@.len(),
                self.engine.wf(),
                self.debouncer == debounced,
                self.last == old(self).last,
                self.engine.table() == old(self).engine.table(),
                self.engine.reserved() == old(self).engine.reserved(),
                self.engine.fed() == before + keys_fed(events@.take(i as int)),
                self.engine.layout() == layout_after_events(
                    old(self).engine.layout(),
                    events@.take(i as int),
                ),
                self.engine.downs().len() == downs.len() + i,
                self.engine.downs().take(downs.len() as int) == downs,
            decreases events@.len() - i,
        {
            let ghost so_far = self.engine.downs();
            self.engine.event(events[i]);
            proof {
                assert(self.engine.downs().take(downs.len() as int) =~= so_far.take(
                    downs.len() as int,
                ));
                assert(events@.take(i + 1).drop_last() =~= events@.take(i as int));
                assert(events@.take(i + 1).last() == events@[i as int]);
                assert(keys_fed(events@.take(i + 1)) =~= keys_fed(events@.take(i as int)).push(
                    Input::Key(events@[i as int]),
                ));
                assert(before + keys_fed(events@.take(i + 1)) =~= (before + keys_fed(
                    events@.take(i as int),
                )).push(Input::Key(events@[i as int])));
            }
            i += 1;
        }
        proof {
            assert(events@.take(events@.len() as int) =~= events@);
            self.engine.lemma_pending_is_gathered();
        }
        let codes = self.engine.keycodes();
        let report = HidReport::build(&codes);
        let send = if_changed(report, self.last);
        self.last = report;
        send
    }

    /// Second half of a cycle: ticks the engine. A release of the reserved
    /// key ends the cycle at once with [`TickAction::Bootload`] and no report
    /// is built; otherwise the report of the active key set is built and
    /// handed out when it differs from the last one.
    pub fn tick(&mut self) -> (action: TickAction)
        requires
            old(self).wf(),
        ensures
            final(self).wf(),
            final(self).threshold() == old(self).threshold(),
            final(self).switches() == old(self).switches(),
            final(self).engine().layout() == layout_after_tick(old(self).engine().layout()),
            final(self).engine().table() == old(self).engine().table(),
            final(self).engine().reserved() == old(self).engine().reserved(),
            final(self).engine().fed() == old(self).engine().fed().push(Input::Tick),
            final(self).engine().downs() == old(self).engine().downs().push(
                final(self).engine().reserved_is_down(),
            ),
            final(self).engine().pending() == CustomEvent::NoEvent,
            action == action_of(
                merge(
                    old(self).engine().pending(),
                    custom_transition(
                        old(self).engine().reserved_is_down(),
                        final(self).engine().reserved_is_down(),
                    ),
                ),
                final(self).current_report(),
                old(self).last_report(),
            ),
            final(self).last_report() == match action {
                TickAction::Send(report) => report,
                _ => old(self).last_report(),
            },
    {
        let signal = self.engine.tick();
        match signal {
            CustomEvent::Release => TickAction::Bootload,
            _ => {
                let codes = self.engine.keycodes();
                let report = HidReport::build(&codes);
                let action = decide(signal, report, self.last);
                if let TickAction::Send(r) = action {
                    self.last = r;
                }
                action
            },
        }
    }
}

} // verus!
