//! The logic system that evaluates sensors, combines their outputs in
//! controllers and decides which actuators fire.

use core::any::TypeId;
use crate::ecs::hybrid::{ClickType, ControllerComponent};
use crate::ecs::physics_components::SelectionState;
use crate::ecs::query::EntityId;
use crate::ecs::world::{lemma_slot_lengths, World};
use vstd::prelude::*;
use vstd::string::StrSliceExecFns;

verus! {

/// Result of evaluating a sensor
#[derive(Clone, Copy, Debug, PartialEq, Eq, Structural)]
pub enum SensorEvaluation {
    /// Sensor is active (triggered)
    Active,
    /// Sensor is inactive
    Inactive,
    /// Sensor is in undefined state
    Undefined,
}

/// What a sensor tests, as far as its evaluation reads: the sensor kinds
/// with their integer configuration. Hover, proximity, property and ray
/// sensors have no data to test against here, so their configuration does
/// not matter.
#[derive(Clone, Copy, Debug, PartialEq, Eq, Structural)]
pub enum SensorKind {
    /// Mouse hover.
    MouseHover,
    /// A click of the given mouse button.
    MouseClick {
        /// Mouse button index (0 = left, 1 = right, 2 = middle).
        button: u8,
        /// Type of click event to detect.
        click_type: ClickType,
    },
    /// Another entity within a radius.
    Proximity,
    /// A pressed key.
    KeyShortcut {
        /// Virtual key code.
        key: u32,
    },
    /// A double tap.
    DoubleTap,
    /// A long press.
    LongPress,
    /// A right click.
    RightClick,
    /// Always active.
    Always,
    /// A property comparison.
    Property,
    /// A ray hit.
    Ray,
    /// A countdown of the given number of ticks.
    Timer {
        /// Ticks until the timer fires.
        duration_ticks: u32,
    },
    /// A message channel.
    Channel {
        /// The channel listened to.
        channel_id: u32,
    },
}

/// The evaluation of a sensor for entity `e`, given the input and the timer
/// states, and the timer states after it: only a timer sensor advances the
/// entity's timer.
pub open spec fn sensor_result(
    input: InputSnapshot,
    timers: Map<EntityId, TimerState>,
    e: EntityId,
    sensor: SensorKind,
) -> (Map<EntityId, TimerState>, SensorEvaluation) {
    let pressed = |b: bool| if b { SensorEvaluation::Active } else { SensorEvaluation::Inactive };
    match sensor {
        SensorKind::MouseHover => (timers, SensorEvaluation::Inactive),
        SensorKind::MouseClick { button, click_type: _ } => (timers, pressed(button_pressed(input, button))),
        SensorKind::KeyShortcut { key } => (timers, pressed(key_pressed(input, key))),
        SensorKind::RightClick => (timers, pressed(button_pressed(input, 1))),
        SensorKind::Always => (timers, SensorEvaluation::Active),
        SensorKind::Timer { duration_ticks } => {
            let step = timer_step(state_or(timers, e, timer_initial()), duration_ticks);
            (timers.insert(e, step.0), step.1)
        },
        _ => (timers, SensorEvaluation::Undefined),
    }
}

/// Configuration for BgeLogicSystem
#[derive(Clone, Debug, PartialEq, Eq, Structural)]
pub struct BgeLogicConfig {
    /// Whether to execute actuators only when controller state changes (edge-triggered)
    pub edge_triggered: bool,
    /// Whether to evaluate sensors every tick or only when triggered
    pub evaluate_always: bool,
    /// Maximum entities to process per batch
    pub batch_size: usize,
    /// Whether to emit debug events for sensor evaluations
    pub debug_events: bool,
    /// Default selection group (for exclusive selection)
    pub default_selection_group: u32,
}

impl Default for BgeLogicConfig {
    fn default() -> (r: Self)
        ensures
            r == (BgeLogicConfig {
                edge_triggered: true,
                evaluate_always: true,
                batch_size: 256,
                debug_events: false,
                default_selection_group: 0,
            }),
    {
        BgeLogicConfig {
            edge_triggered: true,
            evaluate_always: true,
            batch_size: 256,
            debug_events: false,
            default_selection_group: 0,
        }
    }
}

/// Statistics from BgeLogicSystem execution
#[derive(Clone, Copy, Debug, PartialEq, Eq, Structural)]
pub struct BgeLogicStats {
    /// Total entities evaluated
    pub entities_evaluated: usize,
    /// Total sensors evaluated
    pub sensors_evaluated: usize,
    /// Total controllers evaluated
    pub controllers_evaluated: usize,
    /// Total actuators executed
    pub actuators_executed: usize,
    /// Total state changes detected
    pub state_changes: usize,
}

/// All counters at zero.
pub open spec fn zero_stats() -> BgeLogicStats {
    BgeLogicStats {
        entities_evaluated: 0,
        sensors_evaluated: 0,
        controllers_evaluated: 0,
        actuators_executed: 0,
        state_changes: 0,
    }
}

impl Default for BgeLogicStats {
    fn default() -> (r: Self)
        ensures
            r == zero_stats(),
    {
        BgeLogicStats {
            entities_evaluated: 0,
            sensors_evaluated: 0,
            controllers_evaluated: 0,
            actuators_executed: 0,
            state_changes: 0,
        }
    }
}

/// The input the sensors read: the mouse position, the pressed mouse
/// buttons (bit `b` for button `b`) and the pressed keys (bit `k % 8` of
/// byte `k / 8` for key code `k`).
#[derive(Clone, Copy, Debug, PartialEq, Eq)]
pub struct InputSnapshot {
    /// Mouse x position in pixels
    pub mouse_x: i32,
    /// Mouse y position in pixels
    pub mouse_y: i32,
    /// Pressed mouse buttons, one bit per button
    pub buttons: u8,
    /// Pressed keys, one bit per key code
    pub keys: [u8; 32],
}

impl Default for InputSnapshot {
    fn default() -> (r: Self)
        ensures
            r.mouse_x == 0,
            r.mouse_y == 0,
            r.buttons == 0,
            forall|i: int| 0 <= i < 32 ==> r.keys[i] == 0,
    {
        InputSnapshot { mouse_x: 0, mouse_y: 0, buttons: 0, keys: [0u8; 32] }
    }
}

/// Whether mouse button `button` is pressed.
pub open spec fn button_pressed(input: InputSnapshot, button: u8) -> bool {
    input.buttons & (1u8 << button) != 0
}

/// Whether key `key` is pressed; key codes past the tracked range never are.
pub open spec fn key_pressed(input: InputSnapshot, key: u32) -> bool {
    key / 8 < 32 && input.keys[(key / 8) as int] & (1u8 << ((key % 8) as u8)) != 0
}

/// State of a toggle controller.
#[derive(Clone, Copy, Debug, PartialEq, Eq, Structural)]
pub struct ToggleState {
    pub is_on: bool,
    pub was_active: bool,
}

/// State of a pulse controller.
#[derive(Clone, Copy, Debug, PartialEq, Eq, Structural)]
pub struct PulseState {
    pub remaining_ticks: u32,
    pub was_active: bool,
}

/// State of a delay controller.
#[derive(Clone, Copy, Debug, PartialEq, Eq, Structural)]
pub struct DelayState {
    pub remaining_ticks: u32,
    pub was_triggered: bool,
}

/// State of a one-shot controller.
#[derive(Clone, Copy, Debug, PartialEq, Eq, Structural)]
pub struct OneShotState {
    pub has_fired: bool,
}

/// State of a timer sensor.
#[derive(Clone, Copy, Debug, PartialEq, Eq, Structural)]
pub struct TimerState {
    /// Remaining ticks until activation.
    pub remaining_ticks: u32,
    /// Whether the timer has already fired.
    pub has_fired: bool,
    /// Whether the timer was active in the previous tick.
    pub was_active: bool,
}

/// A small table from entity to a state, kept in insertion order.
pub struct EntityTable<S> {
    entries: Vec<(EntityId, S)>,
}

impl<S: Copy> EntityTable<S> {
    /// The entities that have a state, in insertion order.
    pub closed spec fn keys(&self) -> Seq<EntityId> {
        self.entries@.map_values(|p: (EntityId, S)| p.0)
    }

    /// Each entity has at most one state.
    pub closed spec fn wf(&self) -> bool {
        self.keys().no_duplicates()
    }

    /// The state of each entity that has one.
    pub closed spec fn view(&self) -> Map<EntityId, S> {
        Map::new(|e: EntityId| self.keys().contains(e), |e: EntityId| self.entries@[self.keys().index_of(e)].1)
    }

    /// An empty table.
    pub fn new() -> (r: Self)
        ensures
            r.wf(),
            r@ == Map::<EntityId, S>::empty(),
    {
        let r = EntityTable { entries: Vec::new() };
        assert(r@ =~= Map::<EntityId, S>::empty());
        r
    }

    fn position(&self, e: EntityId) -> (r: Option<usize>)
        requires
            self.wf(),
        ensures
            match r {
                Some(i) => i < self.entries@.len() && self.keys()[i as int] == e && self.keys().index_of(e) == i,
                None => !self@.contains_key(e),
            },
    {
        let mut i: usize = 0;
        while i < self.entries.len()
            invariant
                self.wf(),
                i <= self.entries@.len(),
                forall|j: int| 0 <= j < i ==> self.keys()[j] != e,
            decreases self.entries@.len() - i,
        {
            if self.entries[i].0 == e {
                proof {
                    assert(self.keys()[i as int] == e);
                    crate::ecs::pool::lemma_index_of_unique(self.keys(), i as int);
                }
                return Some(i);
            }
            i = i + 1;
        }
        None
    }

    /// The state of `e`, or `default` when it has none.
    pub fn get_or(&self, e: EntityId, default: S) -> (r: S)
        requires
            self.wf(),
        ensures
            r == if self@.contains_key(e) {
                self@[e]
            } else {
                default
            },
    {
        match self.position(e) {
            Some(i) => self.entries[i].1,
            None => default,
        }
    }

    /// Sets the state of `e`.
    pub fn set(&mut self, e: EntityId, s: S)
        requires
            old(self).wf(),
        ensures
            final(self).wf(),
            final(self)@ == old(self)@.insert(e, s),
    {
        match self.position(e) {
            Some(i) => {
                self.entries.set(i, (e, s));
                proof {
                    assert(self.keys() =~= old(self).keys());
                    assert forall|k: EntityId| self.keys().contains(k) && k != e implies self.keys().index_of(k) != i by {
                        let j = self.keys().index_of(k);
                        assert(self.keys()[j] == k);
                    }
                    assert(self@ =~= old(self)@.insert(e, s));
                }
            },
            None => {
                let ghost n = self.entries@.len() as int;
                self.entries.push((e, s));
                proof {
                    assert(self.keys() =~= old(self).keys().push(e));
                    assert(!old(self).keys().contains(e));
                    assert forall|a: int, b: int| 0 <= a < self.keys().len() && 0 <= b < self.keys().len() && a != b implies self.keys()[a] != self.keys()[b] by {
                        if a == n {
                            assert(old(self).keys().contains(self.keys()[b]));
                        } else if b == n {
                            assert(old(self).keys().contains(self.keys()[a]));
                        }
                    }
                    crate::ecs::pool::lemma_index_of_unique(self.keys(), n);
                    assert forall|k: EntityId| old(self).keys().contains(k) implies self.keys().index_of(k) == old(self).keys().index_of(k) by {
                        let j = old(self).keys().index_of(k);
                        crate::ecs::pool::lemma_index_of_unique(old(self).keys(), j);
                        assert(self.keys()[j] == k);
                        crate::ecs::pool::lemma_index_of_unique(self.keys(), j);
                    }
                    assert forall|k: EntityId| #[trigger] self.keys().contains(k) <==> (old(self).keys().contains(k) || k == e) by {
                        if self.keys().contains(k) {
                            let j = choose|j: int| 0 <= j < self.keys().len() && self.keys()[j] == k;
                            if j < n {
                                assert(old(self).keys()[j] == k);
                            }
                        }
                        if old(self).keys().contains(k) {
                            let j = choose|j: int| 0 <= j < old(self).keys().len() && old(self).keys()[j] == k;
                            assert(self.keys()[j] == k);
                        }
                    }
                    assert(self@ =~= old(self)@.insert(e, s));
                }
            },
        }
    }

    /// Keeps only the states of the given entities.
    pub fn retain_in(&mut self, keep: &[EntityId])
        requires
            old(self).wf(),
        ensures
            final(self).wf(),
            final(self)@ == old(self)@.restrict(keep@.to_set()),
    {
        let mut kept: Vec<(EntityId, S)> = Vec::new();
        let mut i: usize = 0;
        while i < self.entries.len()
            invariant
                self.wf(),
                i <= self.entries@.len(),
                kept@.map_values(|p: (EntityId, S)| p.0).no_duplicates(),
                forall|j: int| 0 <= j < kept@.len() ==> #[trigger] kept@[j] == self.entries@[self.keys().index_of(kept@[j].0)]
                    && keep@.contains(kept@[j].0) && self.keys().index_of(kept@[j].0) < i,
                forall|j: int| 0 <= j < i && keep@.contains(self.keys()[j]) ==> kept@.map_values(|p: (EntityId, S)| p.0).contains(self.keys()[j]),
                forall|j: int| 0 <= j < kept@.len() ==> self.keys().contains(#[trigger] kept@[j].0),
            decreases self.entries@.len() - i,
        {
            let entry = self.entries[i];
            let mut found = false;
            let mut k: usize = 0;
            while k < keep.len()
                invariant
                    k <= keep@.len(),
                    found == exists|q: int| 0 <= q < k && keep@[q] == entry.0,
                decreases keep@.len() - k,
            {
                if keep[k] == entry.0 {
                    found = true;
                }
                k = k + 1;
            }
            let ghost kk = kept@.map_values(|p: (EntityId, S)| p.0);
            proof {
                crate::ecs::pool::lemma_index_of_unique(self.keys(), i as int);
                assert(self.keys()[i as int] == entry.0);
            }
            if found {
                proof {
                    assert(keep@.contains(entry.0));
                    assert(!kk.contains(entry.0)) by {
                        if kk.contains(entry.0) {
                            let j = choose|j: int| 0 <= j < kk.len() && kk[j] == entry.0;
                            assert(kept@[j].0 == entry.0);
                        }
                    }
                }
                kept.push(entry);
                proof {
                    let nk = kept@.map_values(|p: (EntityId, S)| p.0);
                    assert(nk =~= kk.push(entry.0));
                    assert forall|a: int, b: int| 0 <= a < nk.len() && 0 <= b < nk.len() && a != b implies nk[a] != nk[b] by {
                        if a == kk.len() {
                            assert(kk.contains(nk[b]));
                        } else if b == kk.len() {
                            assert(kk.contains(nk[a]));
                        } else {
                            assert(nk[a] == kk[a] && nk[b] == kk[b]);
                        }
                    }
                    assert forall|j: int| 0 <= j < i + 1 && keep@.contains(self.keys()[j]) implies nk.contains(self.keys()[j]) by {
                        if j < i {
                            let q = choose|q: int| 0 <= q < kk.len() && kk[q] == self.keys()[j];
                            assert(nk[q] == kk[q]);
                        } else {
                            assert(nk[kk.len() as int] == entry.0);
                        }
                    }
                }
            } else {
                proof {
                    assert(!keep@.contains(entry.0)) by {
                        if keep@.contains(entry.0) {
                            let q = choose|q: int| 0 <= q < keep@.len() && keep@[q] == entry.0;
                        }
                    }
                }
            }
            i = i + 1;
        }
        let ghost before = *self;
        self.entries = kept;
        proof {
            assert forall|e: EntityId| #[trigger] self@.contains_key(e) <==> before@.restrict(keep@.to_set()).contains_key(e) by {
                if self.keys().contains(e) {
                    let j = choose|j: int| 0 <= j < self.keys().len() && self.keys()[j] == e;
                    assert(self.entries@[j].0 == e);
                    assert(keep@.contains(e));
                    assert(keep@.to_set().contains(e));
                }
                if before.keys().contains(e) && keep@.to_set().contains(e) {
                    let j = before.keys().index_of(e);
                    assert(before.keys()[j] == e);
                }
            }
            assert forall|e: EntityId| #[trigger] self@.contains_key(e) implies self@[e] == before@[e] by {
                let j = self.keys().index_of(e);
                assert(self.keys()[j] == e);
                assert(self.entries@[j].0 == e);
            }
            assert(self@ =~= before@.restrict(keep@.to_set()));
        }
    }
}


/// The states of the stateful controllers, per entity.
pub struct ControllerStates {
    pub toggle: Map<EntityId, ToggleState>,
    pub pulse: Map<EntityId, PulseState>,
    pub delay: Map<EntityId, DelayState>,
    pub one_shot: Map<EntityId, OneShotState>,
}

/// The state an entity has in a table, or `d` when it has none yet.
pub open spec fn state_or<S>(m: Map<EntityId, S>, e: EntityId, d: S) -> S {
    if m.contains_key(e) {
        m[e]
    } else {
        d
    }
}

pub open spec fn toggle_initial() -> ToggleState {
    ToggleState { is_on: false, was_active: false }
}

pub open spec fn pulse_initial() -> PulseState {
    PulseState { remaining_ticks: 0, was_active: false }
}

pub open spec fn delay_initial() -> DelayState {
    DelayState { remaining_ticks: 0, was_triggered: false }
}

pub open spec fn one_shot_initial() -> OneShotState {
    OneShotState { has_fired: false }
}

pub open spec fn timer_initial() -> TimerState {
    TimerState { remaining_ticks: 0, has_fired: false, was_active: false }
}

/// A toggle flips on each rising edge of its input and outputs its state.
pub open spec fn toggle_step(st: ToggleState, active: bool) -> (ToggleState, bool) {
    if active && !st.was_active {
        (ToggleState { is_on: !st.is_on, was_active: true }, !st.is_on)
    } else if !active {
        (ToggleState { is_on: st.is_on, was_active: false }, st.is_on)
    } else {
        (st, st.is_on)
    }
}

/// A pulse arms `ticks` ticks on each rising edge of its input, and
/// outputs true while ticks remain, using one per evaluation.
pub open spec fn pulse_step(st: PulseState, ticks: u32, active: bool) -> (PulseState, bool) {
    let armed = if active && !st.was_active {
        PulseState { remaining_ticks: ticks, was_active: true }
    } else if !active {
        PulseState { remaining_ticks: st.remaining_ticks, was_active: false }
    } else {
        st
    };
    if armed.remaining_ticks > 0 {
        (PulseState { remaining_ticks: (armed.remaining_ticks - 1) as u32, was_active: armed.was_active }, true)
    } else {
        (armed, false)
    }
}

/// A delay arms `ticks` ticks on each rising edge of its input, counts
/// them down while the input stays active, and fires when the count
/// reaches zero.
pub open spec fn delay_step(st: DelayState, ticks: u32, active: bool) -> (DelayState, bool) {
    let armed = if active && !st.was_triggered {
        DelayState { remaining_ticks: ticks, was_triggered: true }
    } else if !active {
        DelayState { remaining_ticks: st.remaining_ticks, was_triggered: false }
    } else {
        st
    };
    if armed.remaining_ticks > 0 && armed.was_triggered {
        let r = (armed.remaining_ticks - 1) as u32;
        (DelayState { remaining_ticks: r, was_triggered: armed.was_triggered }, r == 0)
    } else {
        (armed, false)
    }
}

/// A one-shot outputs true the first time its input is active, and never again.
pub open spec fn one_shot_step(st: OneShotState, active: bool) -> (OneShotState, bool) {
    if active && !st.has_fired {
        (OneShotState { has_fired: true }, true)
    } else {
        (st, false)
    }
}

/// A timer starts its countdown of `duration` ticks when idle, is active
/// on the tick the countdown reaches zero for the first time, and is idle
/// again on the following evaluation.
pub open spec fn timer_step(st: TimerState, duration: u32) -> (TimerState, SensorEvaluation) {
    let started = if st.remaining_ticks == 0 && !st.was_active {
        TimerState { remaining_ticks: duration, was_active: true, has_fired: false }
    } else {
        st
    };
    let counted = if started.remaining_ticks > 0 {
        TimerState { remaining_ticks: (started.remaining_ticks - 1) as u32, ..started }
    } else {
        started
    };
    if started.remaining_ticks > 0 && counted.remaining_ticks == 0 && !counted.has_fired {
        (TimerState { has_fired: true, ..counted }, SensorEvaluation::Active)
    } else if counted.remaining_ticks == 0 && counted.was_active && counted.has_fired {
        (TimerState { was_active: false, ..counted }, SensorEvaluation::Inactive)
    } else {
        (counted, SensorEvaluation::Inactive)
    }
}

/// A toggle changes its output on each rising edge of its input and only
/// then: the edge flips it, and a held or released input keeps it.
pub proof fn lemma_toggle_flips_on_rising_edge(st: ToggleState, active: bool)
    ensures
        active && !st.was_active ==> toggle_step(st, active).1 == !st.is_on,
        !(active && !st.was_active) ==> toggle_step(st, active).1 == st.is_on,
        toggle_step(st, active).0.is_on == toggle_step(st, active).1,
        toggle_step(st, active).0.was_active == active,
{
}

/// Two triggers of a toggle, each a press and a release, bring it back to
/// where it was.
pub proof fn lemma_toggle_two_triggers(st: ToggleState)
    requires
        !st.was_active,
    ensures
        ({
            let s1 = toggle_step(st, true).0;
            let s2 = toggle_step(s1, false).0;
            let s3 = toggle_step(s2, true).0;
            toggle_step(s3, false).0 == st
        }),
{
}

/// A one-shot that has fired never fires again and stays as it is.
pub proof fn lemma_one_shot_fires_once(st: OneShotState, active: bool)
    ensures
        st.has_fired ==> one_shot_step(st, active) == (st, false),
        one_shot_step(st, active).1 ==> !st.has_fired && one_shot_step(st, active).0.has_fired,
{
}

/// A delay evaluated `k` times in a row with an active input.
pub open spec fn delay_held(st: DelayState, ticks: u32, k: nat) -> (DelayState, bool)
    decreases k,
{
    if k == 0 {
        (st, false)
    } else {
        delay_step(delay_held(st, ticks, (k - 1) as nat).0, ticks, true)
    }
}

/// A delay of `ticks` ticks, triggered and then held active, stays silent
/// for the first `ticks - 1` evaluations and fires on evaluation `ticks`.
pub proof fn lemma_delay_fires_after(st: DelayState, ticks: u32, k: nat)
    requires
        !st.was_triggered,
        ticks > 0,
        1 <= k <= ticks,
    ensures
        delay_held(st, ticks, k).0 == (DelayState { remaining_ticks: (ticks - k) as u32, was_triggered: true }),
        delay_held(st, ticks, k).1 == (k == ticks),
    decreases k,
{
    let prev = delay_held(st, ticks, (k - 1) as nat);
    if k > 1 {
        lemma_delay_fires_after(st, ticks, (k - 1) as nat);
        assert(prev.0.remaining_ticks == ticks - (k - 1));
    } else {
        assert(prev == (st, false));
    }
    assert(delay_held(st, ticks, k) == delay_step(prev.0, ticks, true));
}

/// A pulse evaluated `k` times in a row with an active input.
pub open spec fn pulse_held(st: PulseState, ticks: u32, k: nat) -> (PulseState, bool)
    decreases k,
{
    if k == 0 {
        (st, false)
    } else {
        pulse_step(pulse_held(st, ticks, (k - 1) as nat).0, ticks, true)
    }
}

/// A pulse of `ticks` ticks, triggered and then held active, outputs true
/// on its first `ticks` evaluations and false after them.
pub proof fn lemma_pulse_lasts(st: PulseState, ticks: u32, k: nat)
    requires
        !st.was_active,
        ticks > 0,
        1 <= k,
    ensures
        pulse_held(st, ticks, k).1 == (k <= ticks),
        pulse_held(st, ticks, k).0 == (PulseState {
            remaining_ticks: if k <= ticks { (ticks - k) as u32 } else { 0u32 },
            was_active: true,
        }),
    decreases k,
{
    let prev = pulse_held(st, ticks, (k - 1) as nat);
    if k > 1 {
        lemma_pulse_lasts(st, ticks, (k - 1) as nat);
    } else {
        assert(prev == (st, false));
    }
    assert(pulse_held(st, ticks, k) == pulse_step(prev.0, ticks, true));
}

/// The outputs of a controller evaluated for entity `e` on each sensor state
/// of `sensors` in turn, starting from the controller states `st`.
pub open spec fn controller_outputs(
    st: ControllerStates,
    e: EntityId,
    c: ControllerComponent,
    sensors: Seq<SensorEvaluation>,
) -> Seq<bool>
    decreases sensors.len(),
{
    if sensors.len() == 0 {
        Seq::empty()
    } else {
        let r = eval_controller(st, e, c, sensors[0]);
        seq![r.1] + controller_outputs(r.0, e, c, sensors.drop_first())
    }
}

/// A controller gives one output per sensor state.
proof fn lemma_controller_outputs_len(
    st: ControllerStates,
    e: EntityId,
    c: ControllerComponent,
    sensors: Seq<SensorEvaluation>,
)
    ensures
        controller_outputs(st, e, c, sensors).len() == sensors.len(),
    decreases sensors.len(),
{
    if sensors.len() > 0 {
        let r = eval_controller(st, e, c, sensors[0]);
        lemma_controller_outputs_len(r.0, e, c, sensors.drop_first());
    }
}

/// A pulse controller whose entity has at least `left` ticks to run outputs
/// true on its next `left` evaluations, whatever the sensor does.
proof fn lemma_pulse_runs_down(
    st: ControllerStates,
    e: EntityId,
    tick_count: u32,
    inner: ControllerComponent,
    sensors: Seq<SensorEvaluation>,
    left: nat,
)
    requires
        left <= tick_count,
        state_or(st.pulse, e, pulse_initial()).remaining_ticks >= left,
    ensures
        forall|k: int| 0 <= k < sensors.len() && k < left ==> #[trigger] controller_outputs(
            st,
            e,
            ControllerComponent::Pulse { tick_count, controller: Box::new(inner) },
            sensors,
        )[k],
    decreases sensors.len(),
{
    let c = ControllerComponent::Pulse { tick_count, controller: Box::new(inner) };
    if sensors.len() > 0 && left > 0 {
        let r = eval_controller(st, e, c, sensors[0]);
        assert(r.1);
        assert(state_or(r.0.pulse, e, pulse_initial()).remaining_ticks >= left - 1);
        lemma_pulse_runs_down(r.0, e, tick_count, inner, sensors.drop_first(), (left - 1) as nat);
        let outs = controller_outputs(st, e, c, sensors);
        let rest = controller_outputs(r.0, e, c, sensors.drop_first());
        lemma_controller_outputs_len(r.0, e, c, sensors.drop_first());
        assert(outs == seq![r.1] + rest);
        assert forall|k: int| 0 <= k < sensors.len() && k < left implies #[trigger] outs[k] by {
            if k > 0 {
                assert(outs[k] == rest[k - 1]);
            }
        }
    }
}

/// A pulse armed by a rising edge of its sensor outputs true on that
/// evaluation and the following ones, `tick_count` in all, whatever the
/// sensor does after the edge: releasing the input does not cut it short.
pub proof fn lemma_pulse_outlasts_its_input(
    st: ControllerStates,
    e: EntityId,
    tick_count: u32,
    inner: ControllerComponent,
    sensors: Seq<SensorEvaluation>,
)
    requires
        tick_count > 0,
        sensors.len() > 0,
        sensors[0] == SensorEvaluation::Active,
        !state_or(st.pulse, e, pulse_initial()).was_active,
    ensures
        forall|k: int| 0 <= k < sensors.len() && k < tick_count ==> #[trigger] controller_outputs(
            st,
            e,
            ControllerComponent::Pulse { tick_count, controller: Box::new(inner) },
            sensors,
        )[k],
{
    let c = ControllerComponent::Pulse { tick_count, controller: Box::new(inner) };
    let r = eval_controller(st, e, c, sensors[0]);
    assert(r.1);
    assert(state_or(r.0.pulse, e, pulse_initial()).remaining_ticks == tick_count - 1);
    lemma_pulse_runs_down(r.0, e, tick_count, inner, sensors.drop_first(), (tick_count - 1) as nat);
    let outs = controller_outputs(st, e, c, sensors);
    let rest = controller_outputs(r.0, e, c, sensors.drop_first());
    lemma_controller_outputs_len(r.0, e, c, sensors.drop_first());
    assert(outs == seq![r.1] + rest);
    assert forall|k: int| 0 <= k < sensors.len() && k < tick_count implies #[trigger] outs[k] by {
        if k > 0 {
            assert(outs[k] == rest[k - 1]);
        }
    }
}

/// A pulse controller with `m` ticks left, evaluated while its sensor is
/// not active, outputs true on its next `m` evaluations and false after.
proof fn lemma_pulse_released(
    st: ControllerStates,
    e: EntityId,
    tick_count: u32,
    inner: ControllerComponent,
    sensors: Seq<SensorEvaluation>,
)
    requires
        forall|k: int| 0 <= k < sensors.len() ==> #[trigger] sensors[k] != SensorEvaluation::Active,
    ensures
        forall|k: int| 0 <= k < sensors.len() ==> #[trigger] controller_outputs(
            st,
            e,
            ControllerComponent::Pulse { tick_count, controller: Box::new(inner) },
            sensors,
        )[k] == (k < state_or(st.pulse, e, pulse_initial()).remaining_ticks),
    decreases sensors.len(),
{
    let c = ControllerComponent::Pulse { tick_count, controller: Box::new(inner) };
    if sensors.len() > 0 {
        let r = eval_controller(st, e, c, sensors[0]);
        let m = state_or(st.pulse, e, pulse_initial()).remaining_ticks;
        assert(r.1 == (0 < m));
        assert(state_or(r.0.pulse, e, pulse_initial()).remaining_ticks == if m > 0 { m - 1 } else { 0 });
        assert forall|k: int| 0 <= k < sensors.drop_first().len() implies #[trigger] sensors.drop_first()[k]
            != SensorEvaluation::Active by {
            assert(sensors.drop_first()[k] == sensors[k + 1]);
        }
        lemma_pulse_released(r.0, e, tick_count, inner, sensors.drop_first());
        lemma_controller_outputs_len(r.0, e, c, sensors.drop_first());
        let outs = controller_outputs(st, e, c, sensors);
        let rest = controller_outputs(r.0, e, c, sensors.drop_first());
        assert(outs == seq![r.1] + rest);
        assert forall|k: int| 0 <= k < sensors.len() implies #[trigger] outs[k] == (k < m) by {
            if k > 0 {
                assert(outs[k] == rest[k - 1]);
            }
        }
    }
}

/// A click, a sensor active on one evaluation and not on the following
/// ones, makes a pulse output true on exactly its first `tick_count`
/// evaluations.
pub proof fn lemma_pulse_after_click(
    st: ControllerStates,
    e: EntityId,
    tick_count: u32,
    inner: ControllerComponent,
    sensors: Seq<SensorEvaluation>,
)
    requires
        sensors.len() > 0,
        sensors[0] == SensorEvaluation::Active,
        forall|k: int| 1 <= k < sensors.len() ==> #[trigger] sensors[k] != SensorEvaluation::Active,
        !state_or(st.pulse, e, pulse_initial()).was_active,
    ensures
        forall|k: int| 0 <= k < sensors.len() ==> #[trigger] controller_outputs(
            st,
            e,
            ControllerComponent::Pulse { tick_count, controller: Box::new(inner) },
            sensors,
        )[k] == (k < tick_count),
{
    let c = ControllerComponent::Pulse { tick_count, controller: Box::new(inner) };
    let r = eval_controller(st, e, c, sensors[0]);
    assert(r.1 == (tick_count > 0));
    assert(state_or(r.0.pulse, e, pulse_initial()).remaining_ticks == if tick_count > 0 { tick_count - 1 } else { 0 });
    assert forall|k: int| 0 <= k < sensors.drop_first().len() implies #[trigger] sensors.drop_first()[k]
        != SensorEvaluation::Active by {
        assert(sensors.drop_first()[k] == sensors[k + 1]);
    }
    lemma_pulse_released(r.0, e, tick_count, inner, sensors.drop_first());
    lemma_controller_outputs_len(r.0, e, c, sensors.drop_first());
    let outs = controller_outputs(st, e, c, sensors);
    let rest = controller_outputs(r.0, e, c, sensors.drop_first());
    assert(outs == seq![r.1] + rest);
    assert forall|k: int| 0 <= k < sensors.len() implies #[trigger] outs[k] == (k < tick_count) by {
        if k > 0 {
            assert(outs[k] == rest[k - 1]);
        }
    }
}

/// A timer evaluated `k` times in a row.
pub open spec fn timer_run(st: TimerState, duration: u32, k: nat) -> (TimerState, SensorEvaluation)
    decreases k,
{
    if k == 0 {
        (st, SensorEvaluation::Inactive)
    } else {
        timer_step(timer_run(st, duration, (k - 1) as nat).0, duration)
    }
}

/// A timer of `duration` ticks, started fresh, is active on evaluation
/// `duration` and not before.
pub proof fn lemma_timer_fires_after(duration: u32, k: nat)
    requires
        duration > 0,
        1 <= k <= duration,
    ensures
        timer_run(timer_initial(), duration, k).1 == (if k == duration {
            SensorEvaluation::Active
        } else {
            SensorEvaluation::Inactive
        }),
        timer_run(timer_initial(), duration, k).0 == (TimerState {
            remaining_ticks: (duration - k) as u32,
            has_fired: k == duration,
            was_active: true,
        }),
    decreases k,
{
    let prev = timer_run(timer_initial(), duration, (k - 1) as nat);
    if k > 1 {
        lemma_timer_fires_after(duration, (k - 1) as nat);
    } else {
        assert(prev == (timer_initial(), SensorEvaluation::Inactive));
    }
    assert(timer_run(timer_initial(), duration, k) == timer_step(prev.0, duration));
}

/// After firing, a timer is inactive on the next evaluation and is then in
/// a state that behaves as a fresh one: it fires every `duration + 1`
/// evaluations.
pub proof fn lemma_timer_period(duration: u32)
    requires
        duration > 0,
    ensures
        timer_run(timer_initial(), duration, (duration + 1) as nat).1 == SensorEvaluation::Inactive,
        timer_step(timer_run(timer_initial(), duration, (duration + 1) as nat).0, duration)
            == timer_step(timer_initial(), duration),
{
    lemma_timer_fires_after(duration, duration as nat);
    let prev = timer_run(timer_initial(), duration, duration as nat);
    assert(timer_run(timer_initial(), duration, (duration + 1) as nat) == timer_step(prev.0, duration));
}

/// The output of a controller for an entity given its sensor's state, and
/// the controller states after the evaluation. Nested controllers share the
/// entity's states; `And` and `Or` evaluate their conditions in order and
/// stop at the first that decides.
pub open spec fn eval_controller(
    st: ControllerStates,
    e: EntityId,
    c: ControllerComponent,
    s: SensorEvaluation,
) -> (ControllerStates, bool)
    decreases c,
{
    let active = s == SensorEvaluation::Active;
    match c {
        ControllerComponent::Direct => (st, active),
        ControllerComponent::And { conditions } => eval_all(st, e, conditions@, s),
        ControllerComponent::Or { conditions } => eval_any(st, e, conditions@, s),
        ControllerComponent::Not { condition } => {
            let r = eval_controller(st, e, *condition, s);
            (r.0, !r.1)
        },
        ControllerComponent::Pulse { tick_count, controller: _ } => {
            let r = pulse_step(state_or(st.pulse, e, pulse_initial()), tick_count, active);
            (ControllerStates { pulse: st.pulse.insert(e, r.0), ..st }, r.1)
        },
        ControllerComponent::Toggle { controller: _ } => {
            let r = toggle_step(state_or(st.toggle, e, toggle_initial()), active);
            (ControllerStates { toggle: st.toggle.insert(e, r.0), ..st }, r.1)
        },
        ControllerComponent::Delay { delay_ticks, controller } => {
            let r = delay_step(state_or(st.delay, e, delay_initial()), delay_ticks, active);
            let st1 = ControllerStates { delay: st.delay.insert(e, r.0), ..st };
            if r.1 {
                eval_controller(st1, e, *controller, SensorEvaluation::Active)
            } else {
                (st1, false)
            }
        },
        ControllerComponent::OneShot { controller: _ } => {
            let r = one_shot_step(state_or(st.one_shot, e, one_shot_initial()), active);
            (ControllerStates { one_shot: st.one_shot.insert(e, r.0), ..st }, r.1)
        },
    }
}

/// Conditions evaluated in order until one is false.
pub open spec fn eval_all(
    st: ControllerStates,
    e: EntityId,
    cs: Seq<ControllerComponent>,
    s: SensorEvaluation,
) -> (ControllerStates, bool)
    decreases cs,
{
    if cs.len() == 0 {
        (st, true)
    } else {
        let r = eval_controller(st, e, cs[0], s);
        if !r.1 {
            (r.0, false)
        } else {
            eval_all(r.0, e, cs.drop_first(), s)
        }
    }
}

/// Conditions evaluated in order until one is true.
pub open spec fn eval_any(
    st: ControllerStates,
    e: EntityId,
    cs: Seq<ControllerComponent>,
    s: SensorEvaluation,
) -> (ControllerStates, bool)
    decreases cs,
{
    if cs.len() == 0 {
        (st, false)
    } else {
        let r = eval_controller(st, e, cs[0], s);
        if r.1 {
            (r.0, true)
        } else {
            eval_any(r.0, e, cs.drop_first(), s)
        }
    }
}


/// Whether a controller tree is built from `Direct`, `And`, `Or` and `Not`
/// alone, that is, holds no controller that keeps a state.
pub open spec fn is_stateless(c: ControllerComponent) -> bool
    decreases c,
{
    match c {
        ControllerComponent::Direct => true,
        ControllerComponent::And { conditions } => all_stateless(conditions@),
        ControllerComponent::Or { conditions } => all_stateless(conditions@),
        ControllerComponent::Not { condition } => is_stateless(*condition),
        _ => false,
    }
}

/// Whether every controller tree of `cs` is stateless.
pub open spec fn all_stateless(cs: Seq<ControllerComponent>) -> bool
    decreases cs,
{
    if cs.len() == 0 {
        true
    } else {
        is_stateless(cs[0]) && all_stateless(cs.drop_first())
    }
}

/// A stateless controller tree is a pure function of the sensor's state:
/// evaluating it leaves the controller states as they were, and its output
/// is the same whatever the states and whichever the entity.
pub proof fn lemma_stateless_controller_is_pure(
    st: ControllerStates,
    st2: ControllerStates,
    e: EntityId,
    e2: EntityId,
    c: ControllerComponent,
    s: SensorEvaluation,
)
    requires
        is_stateless(c),
    ensures
        eval_controller(st, e, c, s).0 == st,
        eval_controller(st, e, c, s).1 == eval_controller(st2, e2, c, s).1,
    decreases c,
{
    match c {
        ControllerComponent::Direct => {},
        ControllerComponent::And { conditions } => {
            lemma_stateless_all_is_pure(st, st2, e, e2, conditions@, s);
        },
        ControllerComponent::Or { conditions } => {
            lemma_stateless_any_is_pure(st, st2, e, e2, conditions@, s);
        },
        ControllerComponent::Not { condition } => {
            lemma_stateless_controller_is_pure(st, st2, e, e2, *condition, s);
        },
        _ => {},
    }
}

proof fn lemma_stateless_all_is_pure(
    st: ControllerStates,
    st2: ControllerStates,
    e: EntityId,
    e2: EntityId,
    cs: Seq<ControllerComponent>,
    s: SensorEvaluation,
)
    requires
        all_stateless(cs),
    ensures
        eval_all(st, e, cs, s).0 == st,
        eval_all(st, e, cs, s).1 == eval_all(st2, e2, cs, s).1,
    decreases cs,
{
    if cs.len() > 0 {
        lemma_stateless_controller_is_pure(st, st2, e, e2, cs[0], s);
        lemma_stateless_controller_is_pure(st2, st, e2, e, cs[0], s);
        lemma_stateless_all_is_pure(st, st2, e, e2, cs.drop_first(), s);
    }
}

proof fn lemma_stateless_any_is_pure(
    st: ControllerStates,
    st2: ControllerStates,
    e: EntityId,
    e2: EntityId,
    cs: Seq<ControllerComponent>,
    s: SensorEvaluation,
)
    requires
        all_stateless(cs),
    ensures
        eval_any(st, e, cs, s).0 == st,
        eval_any(st, e, cs, s).1 == eval_any(st2, e2, cs, s).1,
    decreases cs,
{
    if cs.len() > 0 {
        lemma_stateless_controller_is_pure(st, st2, e, e2, cs[0], s);
        lemma_stateless_controller_is_pure(st2, st, e2, e, cs[0], s);
        lemma_stateless_any_is_pure(st, st2, e, e2, cs.drop_first(), s);
    }
}

/// Whether `c` is an ASCII decimal digit.
pub open spec fn is_decimal_digit(c: char) -> bool {
    '0' <= c && c <= '9'
}

/// The value of a string of decimal digits, most significant first.
pub open spec fn decimal_value(s: Seq<char>) -> int
    decreases s.len(),
{
    if s.len() == 0 {
        0
    } else {
        decimal_value(s.drop_last()) * 10 + (s.last() as int - '0' as int)
    }
}

/// The digits of an unsigned number: the text after an optional `+`.
pub open spec fn unsigned_digits(s: Seq<char>) -> Seq<char> {
    if s.len() > 0 && s[0] == '+' {
        s.drop_first()
    } else {
        s
    }
}

/// Whether the text is a `u32` in decimal: an optional `+`, then at least
/// one digit and nothing else, of a value that fits.
pub open spec fn is_u32_text(s: Seq<char>) -> bool {
    let d = unsigned_digits(s);
    &&& d.len() > 0
    &&& forall|i: int| 0 <= i < d.len() ==> is_decimal_digit(#[trigger] d[i])
    &&& decimal_value(d) <= u32::MAX
}

/// The animation clip an identifier names: its value when it is a `u32` in
/// decimal, clip 0 otherwise.
pub open spec fn clip_id_of(s: Seq<char>) -> u32 {
    if is_u32_text(s) {
        decimal_value(unsigned_digits(s)) as u32
    } else {
        0
    }
}

/// Appending digits never makes a decimal value smaller.
proof fn lemma_decimal_value_grows(s: Seq<char>, k: int)
    requires
        0 <= k <= s.len(),
        forall|i: int| 0 <= i < s.len() ==> is_decimal_digit(#[trigger] s[i]),
    ensures
        decimal_value(s.subrange(0, k)) <= decimal_value(s),
        0 <= decimal_value(s),
    decreases s.len(),
{
    if s.len() > 0 {
        assert forall|i: int| 0 <= i < s.drop_last().len() implies is_decimal_digit(#[trigger] s.drop_last()[i]) by {
            assert(s.drop_last()[i] == s[i]);
        }
        assert(is_decimal_digit(s[s.len() - 1]));
        if k < s.len() {
            lemma_decimal_value_grows(s.drop_last(), k);
            assert(s.drop_last().subrange(0, k) =~= s.subrange(0, k));
        } else {
            lemma_decimal_value_grows(s.drop_last(), 0);
            assert(s.subrange(0, k) =~= s);
        }
    }
}

/// The animation clip an Animation actuator plays: its identifier read as
/// a `u32` in decimal, or clip 0 when it is not one.
pub fn animation_clip_id(animation_id: &str) -> (r: u32)
    ensures
        r == clip_id_of(animation_id@),
{
    let n = animation_id.unicode_len();
    let ghost s = animation_id@;
    let start: usize = if n > 0 && animation_id.get_char(0) == '+' {
        1
    } else {
        0
    };
    let ghost d = unsigned_digits(s);
    proof {
        if start == 1 {
            assert(d =~= s.subrange(1, s.len() as int));
        } else {
            assert(d =~= s.subrange(0, s.len() as int));
        }
    }
    if start == n {
        return 0;
    }
    let mut value: u64 = 0;
    let mut i: usize = start;
    while i < n
        invariant
            s == animation_id@,
            n == s.len(),
            start <= i <= n,
            start < n,
            d == s.subrange(start as int, s.len() as int),
            d == unsigned_digits(s),
            forall|j: int| 0 <= j < i - start ==> is_decimal_digit(#[trigger] d[j]),
            value == decimal_value(d.subrange(0, i - start)),
            value <= u32::MAX,
        decreases n - i,
    {
        let c = animation_id.get_char(i);
        if c < '0' || c > '9' {
            proof {
                assert(d[i - start] == c);
                assert(!is_decimal_digit(d[i - start]));
            }
            return 0;
        }
        let digit = (c as u32 - '0' as u32) as u64;
        let next = value * 10 + digit;
        proof {
            let p = d.subrange(0, i - start + 1);
            assert(p.drop_last() =~= d.subrange(0, i - start));
            assert(p.last() == c);
            assert(d[i - start] == c);
        }
        if next > 0xFFFF_FFFFu64 {
            proof {
                if is_u32_text(s) {
                    lemma_decimal_value_grows(d, i - start + 1);
                    assert(decimal_value(d.subrange(0, i - start + 1)) == next);
                }
            }
            return 0;
        }
        value = next;
        i = i + 1;
    }
    proof {
        assert(d.subrange(0, i - start) =~= d);
    }
    value as u32
}

/// The selection of each selection group: the selected entities in the
/// order they were selected.
pub struct SelectionGroups {
    /// The group identifiers, each once
    keys: Vec<u32>,
    /// The selected entities of the group at the same position
    lists: Vec<Vec<EntityId>>,
}

/// What selecting an entity asks of the world: the entities to deselect
/// first, and the order number the selected entity gets.
#[derive(Debug)]
pub struct SelectOutcome {
    /// Entities whose selection is to be cleared
    pub deselect: Vec<EntityId>,
    /// The selection order of the newly selected entity
    pub selection_order: u32,
}

/// A group's selection after selecting `e`: just `e` when exclusive, else
/// `e` added at the end unless it is selected already.
pub open spec fn group_after_select(group: Option<Seq<EntityId>>, e: EntityId, exclusive: bool) -> Seq<EntityId> {
    if exclusive {
        seq![e]
    } else {
        match group {
            Some(g) => if g.contains(e) {
                g
            } else {
                g.push(e)
            },
            None => seq![e],
        }
    }
}

impl SelectionGroups {
    /// The selection of each group that has one.
    pub closed spec fn view(&self) -> Map<u32, Seq<EntityId>> {
        Map::new(
            |g: u32| self.keys@.contains(g),
            |g: u32| self.lists@[self.keys@.index_of(g)]@,
        )
    }

    /// Each group is listed once, and no group selects an entity twice.
    pub closed spec fn wf(&self) -> bool {
        &&& self.keys@.len() == self.lists@.len()
        &&& self.keys@.no_duplicates()
        &&& forall|i: int| 0 <= i < self.lists@.len() ==> (#[trigger] self.lists@[i])@.no_duplicates()
    }

    /// No group has a selection.
    pub fn new() -> (r: Self)
        ensures
            r.wf(),
            r@ == Map::<u32, Seq<EntityId>>::empty(),
    {
        let r = SelectionGroups { keys: Vec::new(), lists: Vec::new() };
        assert(r@ =~= Map::<u32, Seq<EntityId>>::empty());
        r
    }

    fn position(&self, group: u32) -> (r: Option<usize>)
        requires
            self.wf(),
        ensures
            match r {
                Some(i) => i < self.keys@.len() && self.keys@[i as int] == group && self.keys@.index_of(group) == i,
                None => !self.keys@.contains(group),
            },
    {
        let mut i: usize = 0;
        while i < self.keys.len()
            invariant
                self.wf(),
                i <= self.keys@.len(),
                forall|j: int| 0 <= j < i ==> self.keys@[j] != group,
            decreases self.keys@.len() - i,
        {
            if self.keys[i] == group {
                proof {
                    lemma_first_index(self.keys@, i as int);
                }
                return Some(i);
            }
            i = i + 1;
        }
        None
    }

    /// Selects `entity` in `group`: exclusively, clearing the group's
    /// selection first, or added to it. Returns the entities to deselect
    /// (the group's former selection, when exclusive) and the selected
    /// entity's order number, the size of the group's selection.
    pub fn select(&mut self, group: u32, entity: EntityId, exclusive: bool) -> (r: SelectOutcome)
        requires
            old(self).wf(),
        ensures
            final(self).wf(),
            final(self)@ == old(self)@.insert(
                group,
                group_after_select(
                    if old(self)@.contains_key(group) {
                        Some(old(self)@[group])
                    } else {
                        None
                    },
                    entity,
                    exclusive,
                ),
            ),
            r.deselect@ == (if exclusive && old(self)@.contains_key(group) {
                old(self)@[group]
            } else {
                Seq::<EntityId>::empty()
            }),
            r.selection_order == final(self)@[group].len() as u32,
            final(self)@[group].contains(entity),
    {
        let ghost before = self@;
        match self.position(group) {
            Some(i) => {
                let current = copy_entities(&self.lists[i]);
                proof {
                    assert(current@ == before[group]);
                }
                if exclusive {
                    let mut list: Vec<EntityId> = Vec::new();
                    list.push(entity);
                    self.set_list(i, list);
                    proof {
                        assert(self@[group] =~= seq![entity]);
                        assert(self@[group][0] == entity);
                    }
                    SelectOutcome { deselect: current, selection_order: 1 }
                } else if contains_entity(&current, entity) {
                    let order = current.len() as u32;
                    SelectOutcome { deselect: Vec::new(), selection_order: order }
                } else {
                    let mut list = current;
                    list.push(entity);
                    proof {
                        assert forall|a: int, b: int| 0 <= a < b < list@.len() implies list@[a] != list@[b] by {
                            if b == list@.len() - 1 {
                                assert(before[group][a] == list@[a]);
                            }
                        }
                        assert(list@[list@.len() - 1] == entity);
                    }
                    let order = list.len() as u32;
                    self.set_list(i, list);
                    SelectOutcome { deselect: Vec::new(), selection_order: order }
                }
            },
            None => {
                let mut list: Vec<EntityId> = Vec::new();
                list.push(entity);
                self.add_group(group, list);
                proof {
                    assert(self@[group] =~= seq![entity]);
                    assert(self@[group][0] == entity);
                }
                SelectOutcome { deselect: Vec::new(), selection_order: 1 }
            },
        }
    }

    /// Replaces the selection of the group at position `i`.
    fn set_list(&mut self, i: usize, list: Vec<EntityId>)
        requires
            old(self).wf(),
            i < old(self).keys@.len(),
            list@.no_duplicates(),
        ensures
            final(self).wf(),
            final(self).keys@ == old(self).keys@,
            final(self)@ == old(self)@.insert(old(self).keys@[i as int], list@),
    {
        let ghost g = self.keys@[i as int];
        let ghost before = self@;
        proof {
            lemma_first_index(self.keys@, i as int);
        }
        let ghost new_list = list@;
        self.lists.set(i, list);
        proof {
            assert forall|k: int| 0 <= k < self.lists@.len() implies (#[trigger] self.lists@[k])@.no_duplicates() by {
                if k != i {
                    assert(self.lists@[k] == old(self).lists@[k]);
                }
            }
            assert forall|h: u32| #[trigger] self@.contains_key(h) implies self@[h] == before.insert(g, new_list)[h] by {
                if h != g {
                    let j = self.keys@.index_of(h);
                    assert(self.keys@[j] == h);
                    assert(j != i);
                }
            }
            assert(self@ =~= before.insert(g, new_list));
        }
    }

    /// Adds a group that has no selection yet.
    fn add_group(&mut self, group: u32, list: Vec<EntityId>)
        requires
            old(self).wf(),
            !old(self)@.contains_key(group),
            list@.no_duplicates(),
        ensures
            final(self).wf(),
            final(self)@ == old(self)@.insert(group, list@),
    {
        let ghost before = self@;
        let ghost old_keys = self.keys@;
        let ghost new_list = list@;
        self.keys.push(group);
        self.lists.push(list);
        proof {
            assert forall|a: int, b: int| 0 <= a < b < self.keys@.len() implies self.keys@[a] != self.keys@[b] by {
                if b == self.keys@.len() - 1 {
                    assert(old_keys[a] == self.keys@[a]);
                    assert(old_keys.contains(old_keys[a]));
                }
            }
            assert forall|k: int| 0 <= k < self.lists@.len() implies (#[trigger] self.lists@[k])@.no_duplicates() by {
                if k < old(self).lists@.len() {
                    assert(self.lists@[k] == old(self).lists@[k]);
                }
            }
            lemma_first_index(self.keys@, self.keys@.len() - 1);
            assert forall|h: u32| #[trigger] self@.contains_key(h) == before.insert(group, new_list).contains_key(h) by {
                if h != group && old_keys.contains(h) {
                    let j = choose|j: int| 0 <= j < old_keys.len() && old_keys[j] == h;
                    assert(self.keys@[j] == h);
                }
                if h != group && self.keys@.contains(h) {
                    let j = choose|j: int| 0 <= j < self.keys@.len() && self.keys@[j] == h;
                    assert(old_keys[j] == h);
                }
            }
            assert forall|h: u32| #[trigger] self@.contains_key(h) implies self@[h] == before.insert(group, new_list)[h] by {
                if h != group {
                    let j = self.keys@.index_of(h);
                    assert(self.keys@[j] == h);
                    lemma_first_index(self.keys@, j);
                    assert(old_keys[j] == h);
                    lemma_first_index(old_keys, j);
                }
            }
            assert(self@ =~= before.insert(group, new_list));
        }
    }
}

/// A copy of the listed entities.
fn copy_entities(list: &Vec<EntityId>) -> (r: Vec<EntityId>)
    ensures
        r@ == list@,
{
    let mut out: Vec<EntityId> = Vec::new();
    let mut i: usize = 0;
    while i < list.len()
        invariant
            i <= list@.len(),
            out@ == list@.subrange(0, i as int),
        decreases list@.len() - i,
    {
        out.push(list[i]);
        i = i + 1;
    }
    assert(list@.subrange(0, list@.len() as int) =~= list@);
    out
}

/// Whether `list` holds `e`.
fn contains_entity(list: &Vec<EntityId>, e: EntityId) -> (r: bool)
    ensures
        r == list@.contains(e),
{
    let mut i: usize = 0;
    while i < list.len()
        invariant
            i <= list@.len(),
            forall|j: int| 0 <= j < i ==> list@[j] != e,
        decreases list@.len() - i,
    {
        if list[i] == e {
            return true;
        }
        i = i + 1;
    }
    false
}

/// In a sequence without duplicates, each position is the index of its element.
proof fn lemma_first_index<A>(s: Seq<A>, i: int)
    requires
        0 <= i < s.len(),
        s.no_duplicates(),
    ensures
        s.index_of(s[i]) == i,
{
    assert(s[i] == s[i]);
    let k = s.index_of(s[i]);
    assert(0 <= k < s.len() && s[k] == s[i]);
}

/// BgeLogicSystem: Evaluates sensors, controllers, and decides actuators
///
/// Sensors detect input and world state, controllers combine sensor outputs
/// with boolean logic and small state machines, and actuators perform
/// actions based on controller outputs.
pub struct BgeLogicSystem {
    /// System configuration
    config: BgeLogicConfig,
    /// Statistics from the current or last execution
    stats: BgeLogicStats,
    /// Input read by the sensors
    input: InputSnapshot,
    /// Previous sensor states (for edge detection)
    previous_states: EntityTable<SensorEvaluation>,
    /// Toggle states for Toggle controllers
    toggle_states: EntityTable<ToggleState>,
    /// Pulse states for Pulse controllers
    pulse_states: EntityTable<PulseState>,
    /// Delay states for Delay controllers
    delay_states: EntityTable<DelayState>,
    /// One-shot states
    one_shot_states: EntityTable<OneShotState>,
    /// Timer states for Timer sensors
    timer_states: EntityTable<TimerState>,
    /// Currently selected entities of each selection group
    selected_entities: SelectionGroups,
}

impl BgeLogicSystem {
    pub closed spec fn spec_config(&self) -> BgeLogicConfig {
        self.config
    }

    pub closed spec fn spec_stats(&self) -> BgeLogicStats {
        self.stats
    }

    pub closed spec fn spec_input(&self) -> InputSnapshot {
        self.input
    }

    /// The last sensor state recorded for each entity.
    pub closed spec fn previous_states(&self) -> Map<EntityId, SensorEvaluation> {
        self.previous_states@
    }

    /// The controller states of each entity.
    pub closed spec fn controller_states(&self) -> ControllerStates {
        ControllerStates {
            toggle: self.toggle_states@,
            pulse: self.pulse_states@,
            delay: self.delay_states@,
            one_shot: self.one_shot_states@,
        }
    }

    /// The timer state of each entity.
    pub closed spec fn timer_states(&self) -> Map<EntityId, TimerState> {
        self.timer_states@
    }

    /// The selection of each selection group.
    pub closed spec fn selection_groups(&self) -> Map<u32, Seq<EntityId>> {
        self.selected_entities@
    }

    /// Every state table holds at most one state per entity, and every
    /// selection group is listed once and selects no entity twice.
    pub closed spec fn wf(&self) -> bool {
        &&& self.selected_entities.wf()
        &&& self.previous_states.wf()
        &&& self.toggle_states.wf()
        &&& self.pulse_states.wf()
        &&& self.delay_states.wf()
        &&& self.one_shot_states.wf()
        &&& self.timer_states.wf()
    }

    /// `other` differs from `self` at most in its controller states.
    pub open spec fn same_but_controllers(&self, other: &Self) -> bool {
        &&& other.spec_config() == self.spec_config()
        &&& other.spec_stats() == self.spec_stats()
        &&& other.spec_input() == self.spec_input()
        &&& other.previous_states() == self.previous_states()
        &&& other.timer_states() == self.timer_states()
        &&& other.selection_groups() == self.selection_groups()
    }

    /// A system with the given configuration and no recorded state.
    pub open spec fn fresh(&self, config: BgeLogicConfig) -> bool {
        &&& self.wf()
        &&& self.spec_config() == config
        &&& self.spec_stats() == zero_stats()
        &&& self.spec_input().buttons == 0
        &&& forall|i: int| 0 <= i < 32 ==> self.spec_input().keys[i] == 0
        &&& self.previous_states() == Map::<EntityId, SensorEvaluation>::empty()
        &&& self.controller_states() == (ControllerStates {
            toggle: Map::empty(),
            pulse: Map::empty(),
            delay: Map::empty(),
            one_shot: Map::empty(),
        })
        &&& self.timer_states() == Map::<EntityId, TimerState>::empty()
        &&& self.selection_groups() == Map::<u32, Seq<EntityId>>::empty()
    }

    /// Creates a new BgeLogicSystem with default configuration
    pub fn new() -> (r: Self)
        ensures
            r.fresh(BgeLogicConfig {
                edge_triggered: true,
                evaluate_always: true,
                batch_size: 256,
                debug_events: false,
                default_selection_group: 0,
            }),
    {
        Self::with_config(BgeLogicConfig::default())
    }

    /// Creates a BgeLogicSystem with custom configuration
    pub fn with_config(config: BgeLogicConfig) -> (r: Self)
        ensures
            r.fresh(config),
    {
        let r = Self {
            config,
            stats: BgeLogicStats::default(),
            input: InputSnapshot::default(),
            previous_states: EntityTable::new(),
            toggle_states: EntityTable::new(),
            pulse_states: EntityTable::new(),
            delay_states: EntityTable::new(),
            one_shot_states: EntityTable::new(),
            timer_states: EntityTable::new(),
            selected_entities: SelectionGroups::new(),
        };
        r
    }

    /// The system's name.
    pub fn name(&self) -> (r: &'static str)
        ensures
            r@ == "BgeLogicSystem"@,
    {
        "BgeLogicSystem"
    }

    /// The system's priority (lower runs first).
    pub fn priority(&self) -> (r: i32)
        ensures
            r == 30,
    {
        30
    }

    /// Returns a reference to the current configuration
    pub fn config(&self) -> (r: &BgeLogicConfig)
        ensures
            *r == self.spec_config(),
    {
        &self.config
    }

    /// Returns a mutable reference to the configuration
    pub fn config_mut(&mut self) -> (r: &mut BgeLogicConfig)
        ensures
            *r == old(self).spec_config(),
            final(self).spec_config() == *final(r),
            final(self).spec_stats() == old(self).spec_stats(),
            final(self).spec_input() == old(self).spec_input(),
            final(self).previous_states() == old(self).previous_states(),
            final(self).controller_states() == old(self).controller_states(),
            final(self).timer_states() == old(self).timer_states(),
            final(self).selection_groups() == old(self).selection_groups(),
            old(self).wf() ==> final(self).wf(),
    {
        &mut self.config
    }

    /// Returns statistics from the last execution
    pub fn stats(&self) -> (r: &BgeLogicStats)
        ensures
            *r == self.spec_stats(),
    {
        &self.stats
    }

    /// Replaces the input the sensors read.
    pub fn set_input(&mut self, input: InputSnapshot)
        ensures
            final(self).spec_input() == input,
            final(self).spec_config() == old(self).spec_config(),
            final(self).spec_stats() == old(self).spec_stats(),
            final(self).previous_states() == old(self).previous_states(),
            final(self).controller_states() == old(self).controller_states(),
            final(self).timer_states() == old(self).timer_states(),
            final(self).selection_groups() == old(self).selection_groups(),
            old(self).wf() ==> final(self).wf(),
    {
        self.input = input;
    }

    /// Evaluates a mouse click sensor: active exactly while the button is
    /// pressed, whatever the click type.
    pub fn evaluate_mouse_click(&self, entity_id: EntityId, button: u8, click_type: ClickType) -> (r: SensorEvaluation)
        requires
            button < 8,
        ensures
            r == if button_pressed(self.spec_input(), button) {
                SensorEvaluation::Active
            } else {
                SensorEvaluation::Inactive
            },
    {
        let button_mask: u8 = 1u8 << button;
        let is_pressed = (self.input.buttons & button_mask) != 0;
        match click_type {
            ClickType::Single => {
                if is_pressed {
                    SensorEvaluation::Active
                } else {
                    SensorEvaluation::Inactive
                }
            },
            ClickType::Double => {
                if is_pressed {
                    SensorEvaluation::Active
                } else {
                    SensorEvaluation::Inactive
                }
            },
            ClickType::Long => {
                if is_pressed {
                    SensorEvaluation::Active
                } else {
                    SensorEvaluation::Inactive
                }
            },
        }
    }

    /// Evaluates a key shortcut sensor: active exactly while the key is pressed.
    pub fn evaluate_key_shortcut(&self, key: u32, modifiers: u32) -> (r: SensorEvaluation)
        ensures
            r == if key_pressed(self.spec_input(), key) {
                SensorEvaluation::Active
            } else {
                SensorEvaluation::Inactive
            },
    {
        let byte_idx = (key / 8) as usize;
        let bit_mask: u8 = 1u8 << ((key % 8) as u8);
        if byte_idx < 32 && (self.input.keys[byte_idx] & bit_mask) != 0 {
            SensorEvaluation::Active
        } else {
            SensorEvaluation::Inactive
        }
    }

    /// Evaluates a channel sensor; no channel is connected, so it is undefined.
    pub fn evaluate_channel(&self, channel_id: u32) -> (r: SensorEvaluation)
        ensures
            r == SensorEvaluation::Undefined,
    {
        SensorEvaluation::Undefined
    }

    /// Evaluates a controller component for an entity given its sensor
    /// state, updating the entity's controller states.
    pub fn evaluate_controller(
        &mut self,
        entity_id: EntityId,
        controller: &ControllerComponent,
        sensor_state: SensorEvaluation,
    ) -> (r: bool)
        requires
            old(self).wf(),
        ensures
            final(self).wf(),
            old(self).same_but_controllers(&*final(self)),
            (final(self).controller_states(), r) == eval_controller(
                old(self).controller_states(),
                entity_id,
                *controller,
                sensor_state,
            ),
        decreases controller,
    {
        let active = sensor_state == SensorEvaluation::Active;
        match controller {
            ControllerComponent::Direct => active,
            ControllerComponent::And { conditions } => {
                let ghost cs = conditions@;
                assert(cs.subrange(0, cs.len() as int) =~= cs);
                let mut i: usize = 0;
                while i < conditions.len()
                    invariant
                        self.wf(),
                        old(self).same_but_controllers(&*self),
                        cs == conditions@,
                        *controller == (ControllerComponent::And { conditions: *conditions }),
                        i <= cs.len(),
                        eval_all(old(self).controller_states(), entity_id, cs, sensor_state) == eval_all(
                            self.controller_states(),
                            entity_id,
                            cs.subrange(i as int, cs.len() as int),
                            sensor_state,
                        ),
                    decreases cs.len() - i,
                {
                    let ghost before = self.controller_states();
                    proof {
                        let rest = cs.subrange(i as int, cs.len() as int);
                        assert(rest[0] == cs[i as int]);
                        assert(rest.drop_first() =~= cs.subrange(i as int + 1, cs.len() as int));
                        assert(decreases_to!(*controller => (*controller)->And_conditions));
                        vstd::std_specs::vec::axiom_vec_index_decreases(*conditions, i as int);
                        assert(decreases_to!(*controller => conditions[i as int]));
                    }
                    let b = self.evaluate_controller(entity_id, &conditions[i], sensor_state);
                    if !b {
                        return false;
                    }
                    i = i + 1;
                }
                true
            },
            ControllerComponent::Or { conditions } => {
                let ghost cs = conditions@;
                assert(cs.subrange(0, cs.len() as int) =~= cs);
                let mut i: usize = 0;
                while i < conditions.len()
                    invariant
                        self.wf(),
                        old(self).same_but_controllers(&*self),
                        cs == conditions@,
                        *controller == (ControllerComponent::Or { conditions: *conditions }),
                        i <= cs.len(),
                        eval_any(old(self).controller_states(), entity_id, cs, sensor_state) == eval_any(
                            self.controller_states(),
                            entity_id,
                            cs.subrange(i as int, cs.len() as int),
                            sensor_state,
                        ),
                    decreases cs.len() - i,
                {
                    proof {
                        let rest = cs.subrange(i as int, cs.len() as int);
                        assert(rest[0] == cs[i as int]);
                        assert(rest.drop_first() =~= cs.subrange(i as int + 1, cs.len() as int));
                        assert(decreases_to!(*controller => (*controller)->Or_conditions));
                        vstd::std_specs::vec::axiom_vec_index_decreases(*conditions, i as int);
                        assert(decreases_to!(*controller => conditions[i as int]));
                    }
                    let b = self.evaluate_controller(entity_id, &conditions[i], sensor_state);
                    if b {
                        return true;
                    }
                    i = i + 1;
                }
                false
            },
            ControllerComponent::Not { condition } => {
                let b = self.evaluate_controller(entity_id, &**condition, sensor_state);
                !b
            },
            ControllerComponent::Pulse { tick_count, controller: _ } => {
                let mut state = self.pulse_states.get_or(
                    entity_id,
                    PulseState { remaining_ticks: 0, was_active: false },
                );
                if active && !state.was_active {
                    state.remaining_ticks = *tick_count;
                    state.was_active = true;
                } else if !active {
                    state.was_active = false;
                }
                let out = if state.remaining_ticks > 0 {
                    state.remaining_ticks = state.remaining_ticks - 1;
                    true
                } else {
                    false
                };
                self.pulse_states.set(entity_id, state);
                out
            },
            ControllerComponent::Toggle { controller: _ } => {
                let mut state = self.toggle_states.get_or(
                    entity_id,
                    ToggleState { is_on: false, was_active: false },
                );
                let out = if active && !state.was_active {
                    state.is_on = !state.is_on;
                    state.was_active = true;
                    state.is_on
                } else {
                    if !active {
                        state.was_active = false;
                    }
                    state.is_on
                };
                self.toggle_states.set(entity_id, state);
                out
            },
            ControllerComponent::Delay { delay_ticks, controller: inner } => {
                let mut state = self.delay_states.get_or(
                    entity_id,
                    DelayState { remaining_ticks: 0, was_triggered: false },
                );
                if active && !state.was_triggered {
                    state.remaining_ticks = *delay_ticks;
                    state.was_triggered = true;
                } else if !active {
                    state.was_triggered = false;
                }
                if state.remaining_ticks > 0 && state.was_triggered {
                    state.remaining_ticks = state.remaining_ticks - 1;
                    self.delay_states.set(entity_id, state);
                    if state.remaining_ticks == 0 {
                        self.evaluate_controller(entity_id, &**inner, SensorEvaluation::Active)
                    } else {
                        false
                    }
                } else {
                    self.delay_states.set(entity_id, state);
                    false
                }
            },
            ControllerComponent::OneShot { controller: _ } => {
                let mut state = self.one_shot_states.get_or(entity_id, OneShotState { has_fired: false });
                let out = if active && !state.has_fired {
                    state.has_fired = true;
                    true
                } else {
                    false
                };
                self.one_shot_states.set(entity_id, state);
                out
            },
        }
    }

    /// Starts a run: the statistics go back to zero.
    pub fn begin_run(&mut self)
        ensures
            final(self).spec_stats() == zero_stats(),
            final(self).spec_config() == old(self).spec_config(),
            final(self).spec_input() == old(self).spec_input(),
            final(self).previous_states() == old(self).previous_states(),
            final(self).controller_states() == old(self).controller_states(),
            final(self).timer_states() == old(self).timer_states(),
            final(self).selection_groups() == old(self).selection_groups(),
            old(self).wf() ==> final(self).wf(),
    {
        self.stats = BgeLogicStats::default();
    }

    /// Processes the sensor result of one entity in a run: records it for
    /// edge detection, counts the entity, its sensor, a state change and its
    /// controller, evaluates the controller when there is one, and returns
    /// whether the entity's actuator is to run.
    ///
    /// Without a controller the output is whether the sensor is active. With
    /// a controller it is the controller's output; with edge triggering that
    /// output only counts on a state change, without it (level triggering)
    /// the actuator runs whenever the output is true.
    pub fn process_sensor_result(
        &mut self,
        entity_id: EntityId,
        sensor_state: SensorEvaluation,
        controller: Option<&ControllerComponent>,
    ) -> (r: bool)
        requires
            old(self).wf(),
            old(self).spec_stats().entities_evaluated < usize::MAX,
            old(self).spec_stats().sensors_evaluated < usize::MAX,
            old(self).spec_stats().state_changes < usize::MAX,
            old(self).spec_stats().controllers_evaluated < usize::MAX,
        ensures
            final(self).wf(),
            ({
                let prev = old(self).previous_states();
                let changed = !prev.contains_key(entity_id) || prev[entity_id] != sensor_state;
                let before = old(self).spec_stats();
                let after = final(self).spec_stats();
                let edge = old(self).spec_config().edge_triggered;
                &&& final(self).previous_states() == prev.insert(entity_id, sensor_state)
                &&& after.entities_evaluated == before.entities_evaluated + 1
                &&& after.sensors_evaluated == before.sensors_evaluated + 1
                &&& after.state_changes == before.state_changes + if changed { 1int } else { 0int }
                &&& after.actuators_executed == before.actuators_executed
                &&& match controller {
                    Some(c) => {
                        let ev = eval_controller(old(self).controller_states(), entity_id, *c, sensor_state);
                        &&& after.controllers_evaluated == before.controllers_evaluated + 1
                        &&& final(self).controller_states() == ev.0
                        &&& r == (if edge && !changed { false } else { ev.1 })
                    },
                    None => {
                        &&& after.controllers_evaluated == before.controllers_evaluated
                        &&& final(self).controller_states() == old(self).controller_states()
                        &&& r == (sensor_state == SensorEvaluation::Active)
                    },
                }
            }),
            final(self).spec_config() == old(self).spec_config(),
            final(self).spec_input() == old(self).spec_input(),
            final(self).timer_states() == old(self).timer_states(),
            final(self).selection_groups() == old(self).selection_groups(),
    {
        self.stats.entities_evaluated = self.stats.entities_evaluated + 1;
        self.stats.sensors_evaluated = self.stats.sensors_evaluated + 1;
        let previous = match self.previous_states.position(entity_id) {
            Some(i) => Some(self.previous_states.entries[i].1),
            None => None,
        };
        self.previous_states.set(entity_id, sensor_state);
        let state_changed = match previous {
            Some(prev) => prev != sensor_state,
            None => true,
        };
        if state_changed {
            self.stats.state_changes = self.stats.state_changes + 1;
        }
        let controller_output = match controller {
            Some(c) => {
                self.stats.controllers_evaluated = self.stats.controllers_evaluated + 1;
                let output = self.evaluate_controller(entity_id, c, sensor_state);
                if self.config.edge_triggered && !state_changed {
                    false
                } else {
                    output
                }
            },
            None => sensor_state == SensorEvaluation::Active,
        };
        controller_output
    }

    /// Counts one executed actuator.
    pub fn record_actuator_executed(&mut self)
        requires
            old(self).spec_stats().actuators_executed < usize::MAX,
        ensures
            final(self).spec_stats() == (BgeLogicStats {
                actuators_executed: (old(self).spec_stats().actuators_executed + 1) as usize,
                ..old(self).spec_stats()
            }),
            final(self).spec_config() == old(self).spec_config(),
            final(self).spec_input() == old(self).spec_input(),
            final(self).previous_states() == old(self).previous_states(),
            final(self).controller_states() == old(self).controller_states(),
            final(self).timer_states() == old(self).timer_states(),
            final(self).selection_groups() == old(self).selection_groups(),
            old(self).wf() ==> final(self).wf(),
    {
        self.stats.actuators_executed = self.stats.actuators_executed + 1;
    }

    /// Clears the recorded sensor and controller states of entities that
    /// are not listed as active.
    pub fn cleanup_states(&mut self, active_entities: &[EntityId])
        requires
            old(self).wf(),
        ensures
            final(self).wf(),
            ({
                let keep = active_entities@.to_set();
                let cs = old(self).controller_states();
                &&& final(self).previous_states() == old(self).previous_states().restrict(keep)
                &&& final(self).controller_states() == (ControllerStates {
                    toggle: cs.toggle.restrict(keep),
                    pulse: cs.pulse.restrict(keep),
                    delay: cs.delay.restrict(keep),
                    one_shot: cs.one_shot.restrict(keep),
                })
            }),
            final(self).spec_config() == old(self).spec_config(),
            final(self).spec_stats() == old(self).spec_stats(),
            final(self).spec_input() == old(self).spec_input(),
            final(self).timer_states() == old(self).timer_states(),
            final(self).selection_groups() == old(self).selection_groups(),
    {
        self.previous_states.retain_in(active_entities);
        self.toggle_states.retain_in(active_entities);
        self.pulse_states.retain_in(active_entities);
        self.delay_states.retain_in(active_entities);
        self.one_shot_states.retain_in(active_entities);
    }

    /// Selects an entity in the default selection group, as the Select
    /// actuator does: exclusively, clearing the group's selection first, or
    /// added to it. Returns the entities whose selection is to be cleared
    /// and the selected entity's order number in its group.
    pub fn select_entity(&mut self, entity_id: EntityId, exclusive: bool) -> (r: SelectOutcome)
        requires
            old(self).wf(),
        ensures
            final(self).wf(),
            ({
                let group = old(self).spec_config().default_selection_group;
                let groups = old(self).selection_groups();
                &&& final(self).selection_groups() == groups.insert(
                    group,
                    group_after_select(
                        if groups.contains_key(group) {
                            Some(groups[group])
                        } else {
                            None
                        },
                        entity_id,
                        exclusive,
                    ),
                )
                &&& r.deselect@ == (if exclusive && groups.contains_key(group) {
                    groups[group]
                } else {
                    Seq::<EntityId>::empty()
                })
                &&& r.selection_order == final(self).selection_groups()[group].len() as u32
            }),
            final(self).spec_config() == old(self).spec_config(),
            final(self).spec_stats() == old(self).spec_stats(),
            final(self).spec_input() == old(self).spec_input(),
            final(self).previous_states() == old(self).previous_states(),
            final(self).controller_states() == old(self).controller_states(),
            final(self).timer_states() == old(self).timer_states(),
    {
        let group = self.config.default_selection_group;
        self.selected_entities.select(group, entity_id, exclusive)
    }

    /// Executes a Select actuator on an entity: selects it in the default
    /// selection group (see `select_entity`), clears the selection state of
    /// the entities it displaces, and gives the entity a selection state
    /// that is selected with its order number. The world's entities and
    /// their liveness stay as they are; of the component types, only those of
    /// the selected entity can change, by the one type of its selection state.
    pub fn execute_select(&mut self, world: &mut World, entity_id: EntityId, exclusive: bool)
        requires
            old(self).wf(),
            old(world).wf(),
        ensures
            final(self).wf(),
            final(world).wf(),
            ({
                let group = old(self).spec_config().default_selection_group;
                let groups = old(self).selection_groups();
                final(self).selection_groups() == groups.insert(
                    group,
                    group_after_select(
                        if groups.contains_key(group) {
                            Some(groups[group])
                        } else {
                            None
                        },
                        entity_id,
                        exclusive,
                    ),
                )
            }),
            final(self).spec_config() == old(self).spec_config(),
            final(self).spec_stats() == old(self).spec_stats(),
            final(self).previous_states() == old(self).previous_states(),
            final(self).controller_states() == old(self).controller_states(),
            final(self).timer_states() == old(self).timer_states(),
            final(world).generations() == old(world).generations(),
            final(world).alive_flags() == old(world).alive_flags(),
            final(world).free_slots() == old(world).free_slots(),
            !old(world).spec_is_alive(entity_id) ==> final(world).component_types() == old(world).component_types(),
            old(world).spec_is_alive(entity_id) ==> exists|k: TypeId| #[trigger]
                old(world).component_types()[entity_id.spec_index() as int].insert(k)
                    == final(world).component_types()[entity_id.spec_index() as int]
                    && final(world).component_types() == old(world).component_types().update(
                    entity_id.spec_index() as int,
                    old(world).component_types()[entity_id.spec_index() as int].insert(k),
                ),
    {
        let outcome = self.select_entity(entity_id, exclusive);
        let mut i: usize = 0;
        while i < outcome.deselect.len()
            invariant
                world.wf(),
                world.generations() == old(world).generations(),
                world.alive_flags() == old(world).alive_flags(),
                world.free_slots() == old(world).free_slots(),
                world.component_types() == old(world).component_types(),
            decreases outcome.deselect@.len() - i,
        {
            let e = outcome.deselect[i];
            if world.has_component::<SelectionState>(e) {
                match world.get_component_mut::<SelectionState>(e) {
                    Some(sel) => sel.deselect(),
                    None => {},
                }
            }
            i = i + 1;
        }
        proof {
            lemma_slot_lengths(*world);
        }
        if !world.has_component::<SelectionState>(entity_id) {
            let mut state = SelectionState::new();
            state.select(outcome.selection_order);
            let ghost before = *world;
            let _ = world.add_component(entity_id, state);
            proof {
                if before.spec_is_alive(entity_id) {
                    let i = entity_id.spec_index() as int;
                    let k = choose|k: TypeId|
                        {
                            &&& world.registered() == before.registered().insert(k)
                            &&& world.component_types() == before.component_types().update(
                                i,
                                before.component_types()[i].insert(k),
                            )
                        };
                    assert(before.component_types()[i].insert(k) == world.component_types()[i]);
                }
            }
        } else {
            proof {
                let i = entity_id.spec_index() as int;
                let types = world.component_types();
                let k = choose|k: TypeId| types[i].contains(k);
                assert(types[i].insert(k) =~= types[i]);
                assert(types.update(i, types[i].insert(k)) =~= types);
            }
            match world.get_component_mut::<SelectionState>(entity_id) {
                Some(sel) => sel.select(outcome.selection_order),
                None => {},
            }
        }
    }

    /// Evaluates a timer sensor for an entity, advancing its countdown.
    pub fn evaluate_timer(&mut self, entity_id: EntityId, duration_ticks: u32) -> (r: SensorEvaluation)
        requires
            old(self).wf(),
        ensures
            final(self).wf(),
            ({
                let step = timer_step(state_or(old(self).timer_states(), entity_id, timer_initial()), duration_ticks);
                &&& r == step.1
                &&& final(self).timer_states() == old(self).timer_states().insert(entity_id, step.0)
            }),
            final(self).spec_config() == old(self).spec_config(),
            final(self).spec_stats() == old(self).spec_stats(),
            final(self).spec_input() == old(self).spec_input(),
            final(self).previous_states() == old(self).previous_states(),
            final(self).controller_states() == old(self).controller_states(),
            final(self).selection_groups() == old(self).selection_groups(),
    {
        let mut state = self.timer_states.get_or(
            entity_id,
            TimerState { remaining_ticks: 0, has_fired: false, was_active: false },
        );
        if state.remaining_ticks == 0 && !state.was_active {
            state.remaining_ticks = duration_ticks;
            state.was_active = true;
            state.has_fired = false;
        }
        if state.remaining_ticks > 0 {
            state.remaining_ticks = state.remaining_ticks - 1;
            if state.remaining_ticks == 0 && !state.has_fired {
                state.has_fired = true;
                self.timer_states.set(entity_id, state);
                return SensorEvaluation::Active;
            }
        }
        if state.remaining_ticks == 0 && state.was_active && state.has_fired {
            state.was_active = false;
        }
        self.timer_states.set(entity_id, state);
        SensorEvaluation::Inactive
    }
    /// Evaluates a sensor for an entity and returns its state; a timer
    /// sensor advances the entity's countdown.
    pub fn evaluate_sensor(&mut self, entity_id: EntityId, sensor: &SensorKind) -> (r: SensorEvaluation)
        requires
            old(self).wf(),
            sensor matches SensorKind::MouseClick { button, .. } ==> button < 8,
        ensures
            final(self).wf(),
            ({
                let res = sensor_result(old(self).spec_input(), old(self).timer_states(), entity_id, *sensor);
                &&& r == res.1
                &&& final(self).timer_states() == res.0
            }),
            final(self).spec_config() == old(self).spec_config(),
            final(self).spec_stats() == old(self).spec_stats(),
            final(self).spec_input() == old(self).spec_input(),
            final(self).previous_states() == old(self).previous_states(),
            final(self).controller_states() == old(self).controller_states(),
            final(self).selection_groups() == old(self).selection_groups(),
    {
        match sensor {
            SensorKind::MouseHover => SensorEvaluation::Inactive,
            SensorKind::MouseClick { button, click_type } => self.evaluate_mouse_click(entity_id, *button, *click_type),
            SensorKind::KeyShortcut { key } => self.evaluate_key_shortcut(*key, 0),
            SensorKind::RightClick => self.evaluate_mouse_click(entity_id, 1, ClickType::Single),
            SensorKind::Always => SensorEvaluation::Active,
            SensorKind::Timer { duration_ticks } => self.evaluate_timer(entity_id, *duration_ticks),
            SensorKind::Channel { channel_id } => self.evaluate_channel(*channel_id),
            _ => SensorEvaluation::Undefined,
        }
    }
}

} // verus!
