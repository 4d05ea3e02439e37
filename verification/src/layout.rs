//! The layout engine: consumes matrix events and clock ticks, maintains the
//! set of active key codes, resolves hold-tap ambiguity, and surfaces
//! user-defined custom actions.
//!
//! Every public function's contract is stated over [`LayoutView`], the
//! mathematical image of the engine state, and the pure transition functions
//! (`spec_tick`, `spec_event`, ...) defined here.

use vstd::prelude::*;

use crate::action::{action_wf, activates, Action, ActionS, HoldTapConfig};
use crate::action::{actions_seq_view, lemma_actions_seq_view};
use crate::key_code::KeyCode;

verus! {

broadcast use vstd::std_specs::vec::group_vec_axioms, vstd::seq::group_seq_axioms;

/// The layout table: an action for every layer, row and column.
pub type Layers<T> = Vec<Vec<Vec<Action<T>>>>;

/// Payload type for layouts that have no custom actions.
pub type NoCustom = core::convert::Infallible;

/// Capacity of the set of active states; a press beyond it is dropped.
pub const STATES_CAP: usize = 64;

/// Capacity of the pending-event queue; a push beyond it evicts the oldest.
pub const DEQUE_CAP: usize = 16;

/// An event on the key matrix.
#[derive(Debug, Clone, Copy, PartialEq, Eq, Structural)]
pub enum Event {
    /// Press event with coordinates (i, j).
    Press(u8, u8),
    /// Release event with coordinates (i, j).
    Release(u8, u8),
}

impl Event {
    /// The coordinates of the event.
    pub open spec fn spec_coord(self) -> (u8, u8) {
        match self {
            Event::Press(i, j) => (i, j),
            Event::Release(i, j) => (i, j),
        }
    }

    /// Whether the event is a press.
    pub open spec fn spec_is_press(self) -> bool {
        self is Press
    }

    /// The same kind of event, relocated to the given coordinates.
    pub open spec fn spec_with_coord(self, c: (u8, u8)) -> Event {
        match self {
            Event::Press(_, _) => Event::Press(c.0, c.1),
            Event::Release(_, _) => Event::Release(c.0, c.1),
        }
    }

    /// Returns the coordinates (i, j) of the event.
    pub fn coord(self) -> (r: (u8, u8))
        ensures
            r == self.spec_coord(),
    {
        match self {
            Event::Press(i, j) => (i, j),
            Event::Release(i, j) => (i, j),
        }
    }

    /// Transforms the coordinates of the event with `f`, keeping its kind.
    pub fn transform<F: FnOnce(u8, u8) -> (u8, u8)>(self, f: F) -> (r: Self)
        requires
            f.requires((self.spec_coord().0, self.spec_coord().1)),
        ensures
            exists|c: (u8, u8)|
                f.ensures((self.spec_coord().0, self.spec_coord().1), c) && r
                    == self.spec_with_coord(c),
    {
        match self {
            Event::Press(i, j) => {
                let (ni, nj) = f(i, j);
                let r = Event::Press(ni, nj);
                assert(f.ensures((i, j), (ni, nj)) && r == self.spec_with_coord((ni, nj)));
                r
            },
            Event::Release(i, j) => {
                let (ni, nj) = f(i, j);
                let r = Event::Release(ni, nj);
                assert(f.ensures((i, j), (ni, nj)) && r == self.spec_with_coord((ni, nj)));
                r
            },
        }
    }

    /// Returns `true` if the event is a key press.
    pub fn is_press(self) -> (r: bool)
        ensures
            r == self.spec_is_press(),
    {
        match self {
            Event::Press(..) => true,
            Event::Release(..) => false,
        }
    }

    /// Returns `true` if the event is a key release.
    pub fn is_release(self) -> (r: bool)
        ensures
            r == !self.spec_is_press(),
    {
        match self {
            Event::Release(..) => true,
            Event::Press(..) => false,
        }
    }
}

/// Relocating an event and then relocating it back yields the event itself:
/// remapping by a permutation and then by its inverse is the identity.
pub proof fn lemma_transform_round_trip(
    e: Event,
    p: spec_fn(u8, u8) -> (u8, u8),
    q: spec_fn(u8, u8) -> (u8, u8),
)
    requires
        forall|i: u8, j: u8| q(#[trigger] p(i, j).0, p(i, j).1) == (i, j),
    ensures
        ({
            let c1 = p(e.spec_coord().0, e.spec_coord().1);
            let c2 = q(c1.0, c1.1);
            e.spec_with_coord(c1).spec_with_coord(c2) == e
        }),
{
    let c0 = e.spec_coord();
    assert(q(p(c0.0, c0.1).0, p(c0.0, c0.1).1) == (c0.0, c0.1));
}

/// Event from a custom action, reported once per tick.
#[derive(Debug, PartialEq, Eq)]
pub enum CustomEvent<T> {
    /// No custom action transitioned.
    NoEvent,
    /// The given custom action key was pressed.
    Press(T),
    /// The given custom action key was released.
    Release(T),
}

impl<T: Copy> Copy for CustomEvent<T> {

}

impl<T: Copy> Clone for CustomEvent<T> {
    fn clone(&self) -> (r: Self)
        ensures
            r == *self,
    {
        *self
    }
}

/// The update law of the custom-event channel: a report can only grow along
/// the order `NoEvent < Press < Release`; ties keep the earlier report.
pub open spec fn spec_update<T>(cur: CustomEvent<T>, e: CustomEvent<T>) -> CustomEvent<T> {
    match (e, cur) {
        (CustomEvent::Release(_), CustomEvent::NoEvent) => e,
        (CustomEvent::Release(_), CustomEvent::Press(_)) => e,
        (CustomEvent::Press(_), CustomEvent::NoEvent) => e,
        _ => cur,
    }
}

/// The position of a custom event in the order `NoEvent < Press < Release`.
pub open spec fn rank<T>(e: CustomEvent<T>) -> int {
    match e {
        CustomEvent::NoEvent => 0,
        CustomEvent::Press(_) => 1,
        CustomEvent::Release(_) => 2,
    }
}

/// The channel update is the join in the order `NoEvent < Press < Release`,
/// biased to the earlier report on ties: the result is whichever of the two
/// reports ranks higher, and the current one where they rank equal.
pub proof fn lemma_update_is_join<T>(cur: CustomEvent<T>, e: CustomEvent<T>)
    ensures
        rank(spec_update(cur, e)) == if rank(e) > rank(cur) {
            rank(e)
        } else {
            rank(cur)
        },
        spec_update(cur, e) == if rank(e) > rank(cur) {
            e
        } else {
            cur
        },
{
}

impl<T: Copy> CustomEvent<T> {
    /// Merge a new report into the channel, per the order
    /// `NoEvent < Press < Release`.
    pub fn update(&mut self, e: Self)
        ensures
            *final(self) == spec_update(*old(self), e),
    {
        match (&e, &self) {
            (CustomEvent::Release(_), CustomEvent::NoEvent) => {
                *self = e;
            },
            (CustomEvent::Release(_), CustomEvent::Press(_)) => {
                *self = e;
            },
            (CustomEvent::Press(_), CustomEvent::NoEvent) => {
                *self = e;
            },
            _ => {},
        }
    }
}

/// One currently-active consequence of a press.
#[derive(Debug, PartialEq, Eq)]
pub enum State<T> {
    /// A held key code.
    NormalKey {
        /// The key code being held.
        keycode: KeyCode,
        /// The coordinate of the press that created this state.
        coord: (u8, u8),
    },
    /// A held momentary layer switch.
    LayerModifier {
        /// The layer offset contributed while held.
        value: usize,
        /// The coordinate of the press that created this state.
        coord: (u8, u8),
    },
    /// A held custom action.
    Custom {
        /// The payload surfaced through the custom-event channel.
        value: T,
        /// The coordinate of the press that created this state.
        coord: (u8, u8),
    },
}

impl<T: Copy> Copy for State<T> {

}

impl<T: Copy> Clone for State<T> {
    fn clone(&self) -> (r: Self)
        ensures
            r == *self,
    {
        *self
    }
}

impl<T: Copy> State<T> {
    /// The coordinate of the press that created this state.
    pub open spec fn spec_coord(self) -> (u8, u8) {
        match self {
            State::NormalKey { coord, .. } => coord,
            State::LayerModifier { coord, .. } => coord,
            State::Custom { coord, .. } => coord,
        }
    }

    /// The key code held by this state, if it is a normal key.
    pub open spec fn spec_keycode(self) -> Option<KeyCode> {
        match self {
            State::NormalKey { keycode, .. } => Some(keycode),
            _ => None,
        }
    }

    /// The layer offset contributed by this state, if it is a modifier.
    pub open spec fn spec_get_layer(self) -> Option<usize> {
        match self {
            State::LayerModifier { value, .. } => Some(value),
            _ => None,
        }
    }

    /// The custom-channel report caused by releasing coordinate `c`.
    pub open spec fn spec_release_contrib(self, c: (u8, u8)) -> CustomEvent<T> {
        match self {
            State::Custom { value, coord } => if coord == c {
                CustomEvent::Release(value)
            } else {
                CustomEvent::NoEvent
            },
            _ => CustomEvent::NoEvent,
        }
    }

    /// The key code held by this state, if it is a normal key.
    pub fn keycode(&self) -> (r: Option<KeyCode>)
        ensures
            r == self.spec_keycode(),
    {
        match self {
            State::NormalKey { keycode, .. } => Some(*keycode),
            _ => None,
        }
    }

    /// Whether releasing coordinate `c` removes this state (`None`) or keeps
    /// it (`Some`); a removed custom state reports through the channel.
    pub fn release(&self, c: (u8, u8), custom: &mut CustomEvent<T>) -> (r: Option<Self>)
        ensures
            r == if self.spec_coord() == c {
                Option::<State<T>>::None
            } else {
                Some(*self)
            },
            *final(custom) == spec_update(*old(custom), self.spec_release_contrib(c)),
    {
        match *self {
            State::NormalKey { coord, .. } => {
                if coord.0 == c.0 && coord.1 == c.1 {
                    None
                } else {
                    Some(*self)
                }
            },
            State::LayerModifier { coord, .. } => {
                if coord.0 == c.0 && coord.1 == c.1 {
                    None
                } else {
                    Some(*self)
                }
            },
            State::Custom { value, coord } => {
                if coord.0 == c.0 && coord.1 == c.1 {
                    custom.update(CustomEvent::Release(value));
                    None
                } else {
                    Some(*self)
                }
            },
        }
    }

    /// The layer offset contributed by this state, if it is a modifier.
    pub fn get_layer(&self) -> (r: Option<usize>)
        ensures
            r == self.spec_get_layer(),
    {
        match self {
            State::LayerModifier { value, .. } => Some(*value),
            _ => None,
        }
    }
}

/// A queued matrix event, together with how many ticks it has been queued.
#[derive(Debug, Clone, Copy, PartialEq, Eq, Structural)]
pub struct Stacked {
    /// The queued event.
    pub event: Event,
    /// Ticks elapsed since the event entered the queue (saturating).
    pub since: u16,
}

impl Stacked {
    /// The record one tick later: `since` grows by one, saturating.
    pub open spec fn spec_ticked(self) -> Stacked {
        Stacked {
            event: self.event,
            since: if self.since == u16::MAX {
                self.since
            } else {
                (self.since + 1) as u16
            },
        }
    }

    /// Wrap a fresh event; its queue age starts at zero.
    pub fn new(event: Event) -> (r: Self)
        ensures
            r == (Stacked { event, since: 0u16 }),
    {
        Stacked { event, since: 0 }
    }

    /// Advance the queue age by one tick, saturating.
    pub fn tick(&mut self)
        ensures
            *final(self) == old(self).spec_ticked(),
    {
        self.since = self.since.saturating_add(1);
    }
}

/// The in-flight hold-tap arbitration: at most one exists at any time.
#[derive(Debug)]
pub struct WaitingState<T> {
    /// The coordinate of the hold-tap press being arbitrated.
    pub coord: (u8, u8),
    /// Remaining ticks before the hold branch fires on its own.
    pub timeout: u16,
    /// How long the press had already been queued when it was processed.
    pub delay: u16,
    /// The action taken if the arbitration resolves to hold.
    pub hold: Action<T>,
    /// The action taken if the arbitration resolves to tap.
    pub tap: Action<T>,
    /// The arbitration strategy.
    pub config: HoldTapConfig,
}

/// The mathematical image of a [`WaitingState`].
#[verifier::ext_equal]
pub struct WaitingV<T> {
    /// The coordinate of the hold-tap press being arbitrated.
    pub coord: (u8, u8),
    /// Remaining ticks before the hold branch fires on its own.
    pub timeout: u16,
    /// How long the press had already been queued when it was processed.
    pub delay: u16,
    /// The action taken if the arbitration resolves to hold.
    pub hold: ActionS<T>,
    /// The action taken if the arbitration resolves to tap.
    pub tap: ActionS<T>,
    /// The arbitration strategy.
    pub config: HoldTapConfig,
}

impl<T> View for WaitingState<T> {
    type V = WaitingV<T>;

    open spec fn view(&self) -> WaitingV<T> {
        WaitingV {
            coord: self.coord,
            timeout: self.timeout,
            delay: self.delay,
            hold: self.hold@,
            tap: self.tap@,
            config: self.config,
        }
    }
}

/// What the arbiter decides on one tick.
#[derive(Debug, Clone, Copy, PartialEq, Eq, Structural)]
pub enum WaitingAction {
    /// Commit to the hold branch.
    Hold,
    /// Commit to the tap branch.
    Tap,
    /// Stay undecided.
    NoOp,
}

/// Whether some queued event is a press.
pub open spec fn any_press(d: Seq<Stacked>) -> bool {
    exists|i: int| 0 <= i < d.len() && d[i].event.spec_is_press()
}

/// Whether some queued press is followed, later in the queue, by the
/// release of the same coordinate: a complete press-release of another key.
pub open spec fn any_complete_press(d: Seq<Stacked>) -> bool {
    exists|x: int, y: int|
        0 <= x < y < d.len() && d[x].event.spec_is_press() && d[y].event == Event::Release(
            d[x].event.spec_coord().0,
            d[x].event.spec_coord().1,
        )
}

/// The queue age of the first queued release of `coord` at or after
/// position `i`, if any.
pub open spec fn find_release_since(d: Seq<Stacked>, coord: (u8, u8), i: int) -> Option<u16>
    decreases d.len() - i,
{
    if i < 0 || i >= d.len() {
        None
    } else if d[i].event == Event::Release(coord.0, coord.1) {
        Some(d[i].since)
    } else {
        find_release_since(d, coord, i + 1)
    }
}

/// A `u16` minus one, saturating at zero.
pub open spec fn sat_dec(t: u16) -> u16 {
    if t == 0 {
        0u16
    } else {
        (t - 1) as u16
    }
}

/// What the arbiter decides, given the pending queue, after its timeout has
/// already been decremented for this tick.
pub open spec fn spec_waiting_decision<T>(w: WaitingV<T>, d: Seq<Stacked>) -> WaitingAction {
    let t = sat_dec(w.timeout);
    if w.config == HoldTapConfig::HoldOnOtherKeyPress && any_press(d) {
        WaitingAction::Hold
    } else if w.config == HoldTapConfig::PermissiveHold && any_complete_press(d) {
        WaitingAction::Hold
    } else {
        match find_release_since(d, w.coord, 0) {
            Some(since) => if t as int >= w.delay - since {
                WaitingAction::Tap
            } else {
                WaitingAction::Hold
            },
            None => if t == 0 {
                WaitingAction::Hold
            } else {
                WaitingAction::NoOp
            },
        }
    }
}

impl<T: Copy> WaitingState<T> {
    /// Whether `event` is the release of the coordinate under arbitration.
    pub open spec fn spec_is_corresponding_release(self, event: Event) -> bool {
        event == Event::Release(self.coord.0, self.coord.1)
    }

    fn is_corresponding_release(&self, event: &Event) -> (r: bool)
        ensures
            r == self.spec_is_corresponding_release(*event),
    {
        match event {
            Event::Release(i, j) => *i == self.coord.0 && *j == self.coord.1,
            _ => false,
        }
    }

    /// One arbitration step: count the timeout down and decide hold, tap, or
    /// keep waiting, consulting the pending queue per the configuration.
    pub fn tick(&mut self, stacked: &Vec<Stacked>) -> (r: WaitingAction)
        ensures
            final(self)@ == (WaitingV { timeout: sat_dec(old(self)@.timeout), ..old(self)@ }),
            r == spec_waiting_decision(old(self)@, stacked@),
    {
        self.timeout = self.timeout.saturating_sub(1);
        let ghost decremented = WaitingState { timeout: sat_dec(old(self).timeout), ..*old(self) };
        match self.config {
            HoldTapConfig::Default => {},
            HoldTapConfig::HoldOnOtherKeyPress => {
                let mut i: usize = 0;
                while i < stacked.len()
                    invariant
                        0 <= i <= stacked.len(),
                        *self == decremented,
                        decremented == (WaitingState {
                            timeout: sat_dec(old(self).timeout),
                            ..*old(self)
                        }),
                        self.config == HoldTapConfig::HoldOnOtherKeyPress,
                        forall|j: int| 0 <= j < i ==> !stacked@[j].event.spec_is_press(),
                    decreases stacked.len() - i,
                {
                    if stacked[i].event.is_press() {
                        assert(any_press(stacked@));
                        return WaitingAction::Hold;
                    }
                    i += 1;
                }
                assert(!any_press(stacked@));
            },
            HoldTapConfig::PermissiveHold => {
                let mut x: usize = 0;
                while x < stacked.len()
                    invariant
                        0 <= x <= stacked.len(),
                        *self == decremented,
                        decremented == (WaitingState {
                            timeout: sat_dec(old(self).timeout),
                            ..*old(self)
                        }),
                        self.config == HoldTapConfig::PermissiveHold,
                        forall|a: int, b: int|
                            0 <= a < x && a < b < stacked@.len() ==> !(
                            stacked@[a].event.spec_is_press() && stacked@[b].event
                                == Event::Release(
                                stacked@[a].event.spec_coord().0,
                                stacked@[a].event.spec_coord().1,
                            )),
                    decreases stacked.len() - x,
                {
                    if stacked[x].event.is_press() {
                        let (ci, cj) = stacked[x].event.coord();
                        let mut y: usize = x + 1;
                        while y < stacked.len()
                            invariant
                                x < y <= stacked.len(),
                                y <= stacked@.len(),
                                *self == decremented,
                                decremented == (WaitingState {
                                    timeout: sat_dec(old(self).timeout),
                                    ..*old(self)
                                }),
                                self.config == HoldTapConfig::PermissiveHold,
                                ci == stacked@[x as int].event.spec_coord().0,
                                cj == stacked@[x as int].event.spec_coord().1,
                                stacked@[x as int].event.spec_is_press(),
                                forall|b: int|
                                    x < b < y ==> stacked@[b].event != Event::Release(ci, cj),
                            decreases stacked.len() - y,
                        {
                            let ev = stacked[y].event;
                            match ev {
                                Event::Release(ri, rj) => {
                                    if ri == ci && rj == cj {
                                        assert((x as int) < (y as int) && (y as int)
                                            < stacked@.len() && stacked@[x as int].event.spec_is_press()
                                            && stacked@[y as int].event == Event::Release(
                                            stacked@[x as int].event.spec_coord().0,
                                            stacked@[x as int].event.spec_coord().1,
                                        ));
                                        assert(any_complete_press(stacked@));
                                        return WaitingAction::Hold;
                                    }
                                },
                                _ => {},
                            }
                            y += 1;
                        }
                        proof {
                            assert forall|b: int|
                                x < b < stacked@.len() implies stacked@[b].event != Event::Release(
                                ci,
                                cj,
                            ) by {}
                        }
                    }
                    x += 1;
                }
                assert(!any_complete_press(stacked@));
            },
        }
        let mut i: usize = 0;
        while i < stacked.len()
            invariant
                0 <= i <= stacked.len(),
                *self == decremented,
                decremented == (WaitingState { timeout: sat_dec(old(self).timeout), ..*old(self) }),
                self.config == HoldTapConfig::HoldOnOtherKeyPress ==> !any_press(stacked@),
                self.config == HoldTapConfig::PermissiveHold ==> !any_complete_press(stacked@),
                find_release_since(stacked@, self.coord, 0) == find_release_since(
                    stacked@,
                    self.coord,
                    i as int,
                ),
            decreases stacked.len() - i,
        {
            if self.is_corresponding_release(&stacked[i].event) {
                let since = stacked[i].since;
                assert(find_release_since(stacked@, self.coord, 0) == Some(since));
                if self.timeout >= self.delay.saturating_sub(since) {
                    return WaitingAction::Tap;
                } else {
                    return WaitingAction::Hold;
                }
            }
            i += 1;
        }
        assert(find_release_since(stacked@, self.coord, 0) is None);
        if self.timeout == 0 {
            WaitingAction::Hold
        } else {
            WaitingAction::NoOp
        }
    }
}


/// The mathematical image of the whole engine.
#[verifier::ext_equal]
pub struct LayoutView<T> {
    /// The layout table: an action for every layer, row and column.
    pub layers: Seq<Seq<Seq<ActionS<T>>>>,
    /// The latched default layer.
    pub default_layer: int,
    /// The currently-active states, in insertion order.
    pub states: Seq<State<T>>,
    /// The in-flight hold-tap arbitration, if any; the `Option` itself is
    /// what makes more than one arbitration at a time impossible.
    pub waiting: Option<WaitingV<T>>,
    /// The pending events, oldest first, each with its queue age.
    pub deque: Seq<Stacked>,
}

/// The part of the engine state that action evaluation reads and writes.
#[verifier::ext_equal]
pub struct EngineSt<T> {
    /// The currently-active states, in insertion order.
    pub states: Seq<State<T>>,
    /// The latched default layer.
    pub default_layer: int,
    /// The in-flight hold-tap arbitration, if any.
    pub waiting: Option<WaitingV<T>>,
    /// How many layers the table has; bounds `DefaultLayer`.
    pub layers_len: int,
}

/// The mathematical image of a layout table.
pub open spec fn layers_view<T>(ls: Layers<T>) -> Seq<Seq<Seq<ActionS<T>>>> {
    Seq::new(ls@.len(), |l: int| Seq::new(ls@[l]@.len(), |r: int| actions_seq_view(ls@[l]@[r]@)))
}

/// Every action of the table is well formed.
pub open spec fn layers_wf<T>(ls: Seq<Seq<Seq<ActionS<T>>>>) -> bool {
    forall|l: int, r: int, c: int|
        0 <= l < ls.len() && 0 <= r < ls[l].len() && 0 <= c < ls[l][r].len() ==> action_wf(
            #[trigger] ls[l][r][c],
        )
}

/// The pending arbitration, if any, carries well-formed branch actions.
pub open spec fn waiting_wf<T>(w: Option<WaitingV<T>>) -> bool {
    match w {
        Some(w) => action_wf(w.hold) && action_wf(w.tap),
        None => true,
    }
}

/// Validity of the evaluation state: bounded states, a default layer inside
/// the table, and a well-formed pending arbitration.
pub open spec fn st_wf<T>(st: EngineSt<T>) -> bool {
    &&& st.states.len() <= STATES_CAP
    &&& 0 <= st.default_layer < st.layers_len
    &&& waiting_wf(st.waiting)
}

impl<T> LayoutView<T> {
    /// The evaluation-state part of the view.
    pub open spec fn engine(self) -> EngineSt<T> {
        EngineSt {
            states: self.states,
            default_layer: self.default_layer,
            waiting: self.waiting,
            layers_len: self.layers.len() as int,
        }
    }

    /// The view with its evaluation-state part replaced.
    pub open spec fn with_engine(self, st: EngineSt<T>) -> LayoutView<T> {
        LayoutView {
            states: st.states,
            default_layer: st.default_layer,
            waiting: st.waiting,
            ..self
        }
    }

    /// Validity of the whole engine state.
    pub open spec fn wf(self) -> bool {
        &&& self.layers.len() >= 1
        &&& layers_wf(self.layers)
        &&& self.deque.len() <= DEQUE_CAP
        &&& st_wf(self.engine())
    }
}

/// The action of the table at the given layer and coordinate, if in range.
pub open spec fn spec_lookup<T>(
    ls: Seq<Seq<Seq<ActionS<T>>>>,
    layer: int,
    c: (u8, u8),
) -> Option<ActionS<T>> {
    if 0 <= layer < ls.len() && (c.0 as int) < ls[layer].len() && (c.1 as int)
        < ls[layer][c.0 as int].len() {
        Some(ls[layer][c.0 as int][c.1 as int])
    } else {
        None
    }
}

/// The action a press at `c` resolves to on `layer`: an out-of-range lookup
/// degrades to `NoOp`, and a transparent action falls through to the default
/// layer (once).
pub open spec fn spec_press_as_action<T>(
    ls: Seq<Seq<Seq<ActionS<T>>>>,
    default_layer: int,
    c: (u8, u8),
    layer: int,
) -> ActionS<T> {
    match spec_lookup(ls, layer, c) {
        None => ActionS::NoOp,
        Some(a) => if a is Trans {
            if layer != default_layer {
                match spec_lookup(ls, default_layer, c) {
                    None => ActionS::NoOp,
                    Some(b) => if b is Trans {
                        ActionS::NoOp
                    } else {
                        b
                    },
                }
            } else {
                ActionS::NoOp
            }
        } else {
            a
        },
    }
}

/// Append a state unless the capacity is reached, in which case the new
/// state is dropped.
pub open spec fn push_bounded<T>(s: Seq<State<T>>, x: State<T>) -> Seq<State<T>> {
    if s.len() >= STATES_CAP {
        s
    } else {
        s.push(x)
    }
}

/// Append one held key per key code, in order, each subject to the capacity.
pub open spec fn push_keycodes<T>(s: Seq<State<T>>, ks: Seq<KeyCode>, coord: (u8, u8)) -> Seq<
    State<T>,
>
    decreases ks.len(),
{
    if ks.len() == 0 {
        s
    } else {
        push_bounded(
            push_keycodes(s, ks.drop_last(), coord),
            State::NormalKey { keycode: ks.last(), coord },
        )
    }
}

/// Evaluate one action: how it changes the evaluation state and what it
/// reports through the custom-event channel.
pub open spec fn spec_do_action<T>(
    a: ActionS<T>,
    coord: (u8, u8),
    delay: u16,
    st: EngineSt<T>,
) -> (EngineSt<T>, CustomEvent<T>)
    decreases a,
{
    match a {
        ActionS::NoOp => (st, CustomEvent::NoEvent),
        ActionS::Trans => (st, CustomEvent::NoEvent),
        ActionS::KeyCode(kc) => (
            EngineSt { states: push_bounded(st.states, State::NormalKey { keycode: kc, coord }), ..st },
            CustomEvent::NoEvent,
        ),
        ActionS::MultipleKeyCodes(ks) => (
            EngineSt { states: push_keycodes(st.states, ks, coord), ..st },
            CustomEvent::NoEvent,
        ),
        ActionS::MultipleActions(v) => spec_do_actions(v, coord, delay, st),
        ActionS::Layer(n) => (
            EngineSt {
                states: push_bounded(st.states, State::LayerModifier { value: n as usize, coord }),
                ..st
            },
            CustomEvent::NoEvent,
        ),
        ActionS::DefaultLayer(n) => (
            EngineSt {
                default_layer: if 0 <= n < st.layers_len {
                    n
                } else {
                    st.default_layer
                },
                ..st
            },
            CustomEvent::NoEvent,
        ),
        ActionS::HoldTap { timeout, hold, tap, config, tap_hold_interval } => (
            EngineSt {
                waiting: Some(
                    WaitingV { coord, timeout, delay, hold: *hold, tap: *tap, config },
                ),
                ..st
            },
            CustomEvent::NoEvent,
        ),
        ActionS::Custom(t) => if st.states.len() < STATES_CAP {
            (
                EngineSt { states: st.states.push(State::Custom { value: t, coord }), ..st },
                CustomEvent::Press(t),
            )
        } else {
            (st, CustomEvent::NoEvent)
        },
    }
}

/// Evaluate a sequence of actions in order, folding the channel reports
/// per the update law.
pub open spec fn spec_do_actions<T>(
    v: Seq<ActionS<T>>,
    coord: (u8, u8),
    delay: u16,
    st: EngineSt<T>,
) -> (EngineSt<T>, CustomEvent<T>)
    decreases v,
{
    if v.len() == 0 {
        (st, CustomEvent::NoEvent)
    } else {
        let (st1, c1) = spec_do_actions(v.drop_last(), coord, delay, st);
        let (st2, c2) = spec_do_action(v.last(), coord, delay, st1);
        (st2, spec_update(c1, c2))
    }
}

/// Appending key codes never grows the states beyond the capacity.
proof fn lemma_push_keycodes_bound<T>(s: Seq<State<T>>, ks: Seq<KeyCode>, coord: (u8, u8))
    requires
        s.len() <= STATES_CAP,
    ensures
        push_keycodes(s, ks, coord).len() <= STATES_CAP,
        push_keycodes(s, ks, coord).len() >= s.len(),
    decreases ks.len(),
{
    if ks.len() > 0 {
        lemma_push_keycodes_bound(s, ks.drop_last(), coord);
    }
}

/// Evaluating a well-formed action preserves validity, and it leaves an
/// arbitration pending exactly when the action activates one.
pub proof fn lemma_do_action_props<T>(a: ActionS<T>, coord: (u8, u8), delay: u16, st: EngineSt<T>)
    requires
        st_wf(st),
        st.waiting is None,
        action_wf(a),
    ensures
        ({
            let (st2, ce) = spec_do_action(a, coord, delay, st);
            &&& st_wf(st2)
            &&& st2.layers_len == st.layers_len
            &&& (st2.waiting is Some) == activates(a)
        }),
    decreases a,
{
    match a {
        ActionS::MultipleKeyCodes(ks) => {
            lemma_push_keycodes_bound(st.states, ks, coord);
        },
        ActionS::MultipleActions(v) => {
            lemma_do_actions_props(v, coord, delay, st);
            if exists|i: int| 0 <= i < v.len() && activates(v[i]) {
                let i = choose|i: int| 0 <= i < v.len() && activates(v[i]);
                crate::action::lemma_activates_member(v, i);
            } else {
                crate::action::lemma_activates_no_member(v);
            }
        },
        _ => {},
    }
}

/// As [`lemma_do_action_props`], for a member list in which only the final
/// member may activate an arbitration.
pub proof fn lemma_do_actions_props<T>(
    v: Seq<ActionS<T>>,
    coord: (u8, u8),
    delay: u16,
    st: EngineSt<T>,
)
    requires
        st_wf(st),
        st.waiting is None,
        forall|i: int| 0 <= i < v.len() ==> action_wf(#[trigger] v[i]),
        forall|i: int| 0 <= i < v.len() && activates(#[trigger] v[i]) ==> i == v.len() - 1,
    ensures
        ({
            let (st2, ce) = spec_do_actions(v, coord, delay, st);
            &&& st_wf(st2)
            &&& st2.layers_len == st.layers_len
            &&& (st2.waiting is Some) == (exists|i: int| 0 <= i < v.len() && activates(v[i]))
        }),
    decreases v,
{
    if v.len() > 0 {
        let front = v.drop_last();
        assert(forall|i: int| 0 <= i < front.len() ==> front[i] == v[i]);
        assert forall|i: int| 0 <= i < front.len() implies !activates(#[trigger] front[i]) by {
            assert(front[i] == v[i]);
        }
        lemma_do_actions_props(front, coord, delay, st);
        let (st1, c1) = spec_do_actions(front, coord, delay, st);
        lemma_do_action_props(v.last(), coord, delay, st1);
        let (st2, c2) = spec_do_action(v.last(), coord, delay, st1);
        if exists|i: int| 0 <= i < v.len() && activates(v[i]) {
            let i = choose|i: int| 0 <= i < v.len() && activates(v[i]);
            assert(i == v.len() - 1);
            assert(activates(v.last()));
        }
    }
}

/// Single arbiter: the engine can never hold more than one pending
/// hold-tap arbitration. The slot is one `Option`-typed field, so two
/// occupants are not even representable; and a new arbitration is only ever
/// created in an empty slot — evaluating a well-formed action demands the
/// slot empty and fills it exactly when the action activates an
/// arbitration. The engine's own calls keep that discipline: a tick clears
/// the slot before evaluating a resolved branch, and a queue overflow
/// forces the pending arbitration to hold before the evicted event is
/// processed.
pub proof fn lemma_single_arbiter<T: Copy>(
    a: ActionS<T>,
    coord: (u8, u8),
    delay: u16,
    st: EngineSt<T>,
)
    requires
        st_wf(st),
        st.waiting is None,
        action_wf(a),
    ensures
        ({
            let (st2, ce) = spec_do_action(a, coord, delay, st);
            (st2.waiting is Some) <==> activates(a)
        }),
{
    lemma_do_action_props(a, coord, delay, st);
}

/// The exact shape of the states after appending key codes: every prior
/// state is preserved in place, then one held key per key code in order,
/// each stamped with the pressed coordinate, truncated at the capacity.
proof fn lemma_push_keycodes_exact<T: Copy>(s: Seq<State<T>>, ks: Seq<KeyCode>, coord: (u8, u8))
    requires
        s.len() <= STATES_CAP,
    ensures
        ({
            let s2 = push_keycodes(s, ks, coord);
            &&& s2.len() == if s.len() + ks.len() <= STATES_CAP {
                (s.len() + ks.len()) as int
            } else {
                STATES_CAP as int
            }
            &&& (forall|k: int| 0 <= k < s.len() ==> s2[k] == s[k])
            &&& (forall|k: int|
                s.len() <= k < s2.len() ==> s2[k] == (State::<T>::NormalKey {
                    keycode: ks[k - s.len()],
                    coord,
                }))
        }),
    decreases ks.len(),
{
    if ks.len() > 0 {
        lemma_push_keycodes_exact(s, ks.drop_last(), coord);
    }
}

/// Press-release balance for key-code actions: pressing a chord pushes
/// exactly one held key per key code, in order, each carrying this press's
/// coordinate; pushes beyond the capacity are silently dropped; nothing is
/// reported through the channel, and neither the arbitration slot nor the
/// default layer moves. A single key code behaves as the one-element chord.
pub proof fn lemma_normal_keys<T: Copy>(
    ks: Seq<KeyCode>,
    coord: (u8, u8),
    delay: u16,
    st: EngineSt<T>,
)
    requires
        st.states.len() <= STATES_CAP,
    ensures
        ({
            let (st2, ce) = spec_do_action(ActionS::<T>::MultipleKeyCodes(ks), coord, delay, st);
            &&& ce == CustomEvent::<T>::NoEvent
            &&& st2.waiting == st.waiting
            &&& st2.default_layer == st.default_layer
            &&& st2.layers_len == st.layers_len
            &&& st2.states.len() == if st.states.len() + ks.len() <= STATES_CAP {
                (st.states.len() + ks.len()) as int
            } else {
                STATES_CAP as int
            }
            &&& (forall|k: int| 0 <= k < st.states.len() ==> st2.states[k] == st.states[k])
            &&& (forall|k: int|
                st.states.len() <= k < st2.states.len() ==> st2.states[k] == (State::<
                    T,
                >::NormalKey { keycode: ks[k - st.states.len()], coord }))
        }),
        ks.len() == 1 ==> spec_do_action(ActionS::<T>::KeyCode(ks[0]), coord, delay, st)
            == spec_do_action(ActionS::<T>::MultipleKeyCodes(ks), coord, delay, st),
{
    lemma_push_keycodes_exact(st.states, ks, coord);
    if ks.len() == 1 {
        assert(ks.drop_last() =~= Seq::<KeyCode>::empty());
        assert(push_keycodes(st.states, ks, coord) == push_bounded(
            st.states,
            State::NormalKey { keycode: ks[0], coord },
        ));
        let (sta, cea) = spec_do_action(ActionS::<T>::KeyCode(ks[0]), coord, delay, st);
        let (stb, ceb) = spec_do_action(ActionS::<T>::MultipleKeyCodes(ks), coord, delay, st);
        assert(sta =~~= stb);
    }
}

/// Appending key codes preserves the existing states and stamps every new
/// state with the pressed coordinate.
proof fn lemma_push_keycodes_coords<T: Copy>(s: Seq<State<T>>, ks: Seq<KeyCode>, coord: (u8, u8))
    ensures
        ({
            let s2 = push_keycodes(s, ks, coord);
            &&& s2.len() >= s.len()
            &&& (forall|k: int| 0 <= k < s.len() ==> s2[k] == s[k])
            &&& (forall|k: int| s.len() <= k < s2.len() ==> s2[k].spec_coord() == coord)
        }),
    decreases ks.len(),
{
    if ks.len() > 0 {
        lemma_push_keycodes_coords(s, ks.drop_last(), coord);
    }
}

/// Press-release balance, the press half: evaluating an action only ever
/// adds states, every state it adds carries the coordinate of the press
/// that caused it, and the states already held are preserved, in order.
/// Together with [`lemma_release_removes_coord`], which says that releasing
/// a coordinate removes exactly the states stamped with it, every held
/// state was introduced by a press whose coordinate has not been released
/// since.
pub proof fn lemma_do_action_coords<T: Copy>(
    a: ActionS<T>,
    coord: (u8, u8),
    delay: u16,
    st: EngineSt<T>,
)
    ensures
        ({
            let (st2, ce) = spec_do_action(a, coord, delay, st);
            &&& st2.states.len() >= st.states.len()
            &&& (forall|k: int| 0 <= k < st.states.len() ==> st2.states[k] == st.states[k])
            &&& (forall|k: int|
                st.states.len() <= k < st2.states.len() ==> st2.states[k].spec_coord() == coord)
        }),
    decreases a,
{
    match a {
        ActionS::MultipleKeyCodes(ks) => {
            lemma_push_keycodes_coords(st.states, ks, coord);
        },
        ActionS::MultipleActions(v) => {
            lemma_do_actions_coords(v, coord, delay, st);
        },
        _ => {},
    }
}

/// As [`lemma_do_action_coords`], for a list of actions evaluated in order.
pub proof fn lemma_do_actions_coords<T: Copy>(
    v: Seq<ActionS<T>>,
    coord: (u8, u8),
    delay: u16,
    st: EngineSt<T>,
)
    ensures
        ({
            let (st2, ce) = spec_do_actions(v, coord, delay, st);
            &&& st2.states.len() >= st.states.len()
            &&& (forall|k: int| 0 <= k < st.states.len() ==> st2.states[k] == st.states[k])
            &&& (forall|k: int|
                st.states.len() <= k < st2.states.len() ==> st2.states[k].spec_coord() == coord)
        }),
    decreases v,
{
    if v.len() > 0 {
        lemma_do_actions_coords(v.drop_last(), coord, delay, st);
        let (st1, c1) = spec_do_actions(v.drop_last(), coord, delay, st);
        lemma_do_action_coords(v.last(), coord, delay, st1);
    }
}

/// Remove every state whose coordinate is `c`, keeping the others in order;
/// the report is the fold, per the update law, of the release of every
/// custom state removed.
pub open spec fn spec_release_all<T: Copy>(s: Seq<State<T>>, c: (u8, u8)) -> (
    Seq<State<T>>,
    CustomEvent<T>,
)
    decreases s.len(),
{
    if s.len() == 0 {
        (Seq::empty(), CustomEvent::NoEvent)
    } else {
        let (rest, ce) = spec_release_all(s.drop_last(), c);
        let last = s.last();
        (
            if last.spec_coord() == c {
                rest
            } else {
                rest.push(last)
            },
            spec_update(ce, last.spec_release_contrib(c)),
        )
    }
}

/// Releasing a coordinate removes exactly the states at that coordinate:
/// none survive at `c`, every survivor sat at another coordinate, and no
/// state at another coordinate is lost or reordered.
pub proof fn lemma_release_removes_coord<T: Copy>(s: Seq<State<T>>, c: (u8, u8))
    ensures
        ({
            let (s2, ce) = spec_release_all(s, c);
            &&& s2.len() <= s.len()
            &&& (forall|i: int| 0 <= i < s2.len() ==> s2[i].spec_coord() != c)
            &&& s2 == s.filter(|st: State<T>| st.spec_coord() != c)
        }),
    decreases s.len(),
{
    reveal(Seq::filter);
    if s.len() > 0 {
        lemma_release_removes_coord(s.drop_last(), c);
    }
}

/// The layer offsets contributed by the held modifiers, in insertion order.
pub open spec fn mods_of<T: Copy>(s: Seq<State<T>>) -> Seq<usize>
    decreases s.len(),
{
    if s.len() == 0 {
        Seq::empty()
    } else {
        mods_of(s.drop_last()) + match s.last() {
            State::LayerModifier { value, .. } => seq![value],
            _ => Seq::<usize>::empty(),
        }
    }
}

/// An integer sum saturating at the largest `usize` value.
pub open spec fn sat_add_usize(a: int, b: int) -> int {
    if a + b > usize::MAX as int {
        usize::MAX as int
    } else {
        a + b
    }
}

/// The first offset, then the remaining offsets added left to right, each
/// addition saturating.
pub open spec fn sat_fold(m: Seq<usize>) -> int
    decreases m.len(),
{
    if m.len() == 0 {
        0
    } else if m.len() == 1 {
        m[0] as int
    } else {
        sat_add_usize(sat_fold(m.drop_last()), m.last() as int)
    }
}

/// The active layer: the default layer if no modifier is held, else the
/// first held modifier's offset plus every later one.
pub open spec fn spec_current_layer<T: Copy>(s: Seq<State<T>>, default_layer: int) -> int {
    let m = mods_of(s);
    if m.len() == 0 {
        default_layer
    } else {
        sat_fold(m)
    }
}

/// The key codes of the held normal keys, in insertion order.
pub open spec fn spec_keycodes<T: Copy>(s: Seq<State<T>>) -> Seq<KeyCode>
    decreases s.len(),
{
    if s.len() == 0 {
        Seq::empty()
    } else {
        spec_keycodes(s.drop_last()) + match s.last() {
            State::NormalKey { keycode, .. } => seq![keycode],
            _ => Seq::<KeyCode>::empty(),
        }
    }
}

/// The queue one tick later: every age grown by one, saturating.
pub open spec fn deque_ticked(d: Seq<Stacked>) -> Seq<Stacked> {
    Seq::new(d.len(), |i: int| d[i].spec_ticked())
}

/// Resolve the pending arbitration, if any, as a hold: clear it and
/// evaluate the hold branch with no delay.
pub open spec fn spec_into_hold<T>(v: LayoutView<T>) -> (LayoutView<T>, CustomEvent<T>) {
    match v.waiting {
        None => (v, CustomEvent::NoEvent),
        Some(w) => {
            let st0 = EngineSt { waiting: None, ..v.engine() };
            let (st1, ce) = spec_do_action(w.hold, w.coord, 0, st0);
            (v.with_engine(st1), ce)
        },
    }
}

/// Resolve the pending arbitration, if any, as a tap: clear it and
/// evaluate the tap branch with no delay.
pub open spec fn spec_into_tap<T>(v: LayoutView<T>) -> (LayoutView<T>, CustomEvent<T>) {
    match v.waiting {
        None => (v, CustomEvent::NoEvent),
        Some(w) => {
            let st0 = EngineSt { waiting: None, ..v.engine() };
            let (st1, ce) = spec_do_action(w.tap, w.coord, 0, st0);
            (v.with_engine(st1), ce)
        },
    }
}

/// Process one dequeued event: a release removes every state at its
/// coordinate; a press resolves to an action on the active layer and
/// evaluates it, the queue age serving as the hold-tap delay.
pub open spec fn spec_unstack<T: Copy>(v: LayoutView<T>, stacked: Stacked) -> (
    LayoutView<T>,
    CustomEvent<T>,
) {
    match stacked.event {
        Event::Release(i, j) => {
            let (s2, ce) = spec_release_all(v.states, (i, j));
            (LayoutView { states: s2, ..v }, ce)
        },
        Event::Press(i, j) => {
            let a = spec_press_as_action(
                v.layers,
                v.default_layer,
                (i, j),
                spec_current_layer(v.states, v.default_layer),
            );
            let (st1, ce) = spec_do_action(a, (i, j), stacked.since, v.engine());
            (v.with_engine(st1), ce)
        },
    }
}

/// One clock tick: age the queue; then either run the arbiter (resolving
/// to hold or tap clears it and evaluates that branch), or, with no
/// arbitration pending, process the oldest queued event. At most one of
/// these happens per tick.
pub open spec fn spec_tick<T: Copy>(v: LayoutView<T>) -> (LayoutView<T>, CustomEvent<T>) {
    let d1 = deque_ticked(v.deque);
    let v1 = LayoutView { deque: d1, ..v };
    match v.waiting {
        Some(w) => {
            let decision = spec_waiting_decision(w, d1);
            if decision == WaitingAction::Hold {
                spec_into_hold(v1)
            } else if decision == WaitingAction::Tap {
                spec_into_tap(v1)
            } else {
                (
                    LayoutView {
                        waiting: Some(WaitingV { timeout: sat_dec(w.timeout), ..w }),
                        ..v1
                    },
                    CustomEvent::NoEvent,
                )
            }
        },
        None => if d1.len() == 0 {
            (v1, CustomEvent::NoEvent)
        } else {
            spec_unstack(LayoutView { deque: d1.skip(1), ..v1 }, d1[0])
        },
    }
}

/// Bounded work per tick: one tick does at most one of two things to the
/// queue, beyond aging it: nothing, or removing its front entry; and it
/// evaluates at most one action (the resolved hold-tap branch, or the
/// pressed key's action of the one dequeued event).
pub proof fn lemma_tick_bounded<T: Copy>(v: LayoutView<T>)
    ensures
        ({
            let (v2, ce) = spec_tick(v);
            v2.deque == deque_ticked(v.deque) || v2.deque == deque_ticked(v.deque).skip(1)
        }),
{
}

/// Register one matrix event: append it to the queue; a full queue first
/// evicts its oldest entry, which forces a pending arbitration to resolve
/// as hold and is then processed, its channel report discarded.
pub open spec fn spec_event<T: Copy>(v: LayoutView<T>, e: Event) -> LayoutView<T> {
    if v.deque.len() < DEQUE_CAP {
        LayoutView { deque: v.deque.push(Stacked { event: e, since: 0u16 }), ..v }
    } else {
        let evicted = v.deque[0];
        let v1 = LayoutView {
            deque: v.deque.skip(1).push(Stacked { event: e, since: 0u16 }),
            ..v
        };
        let (v2, _) = spec_into_hold(v1);
        let (v3, _) = spec_unstack(v2, evicted);
        v3
    }
}

/// When the queue is full and an arbitration is pending, registering an
/// event processes the evicted entry; if that entry is a press, the hold
/// branch must not itself start a new arbitration.
pub open spec fn event_ok<T>(v: LayoutView<T>) -> bool {
    v.deque.len() >= DEQUE_CAP ==> match v.waiting {
        Some(w) => v.deque[0].event.spec_is_press() ==> !activates(w.hold),
        None => true,
    }
}

/// A press resolves to a well-formed action on a valid engine.
pub proof fn lemma_press_action_wf<T: Copy>(v: LayoutView<T>, c: (u8, u8), layer: int)
    requires
        v.wf(),
    ensures
        action_wf(spec_press_as_action(v.layers, v.default_layer, c, layer)),
{
}

/// Rewrite a vector in place through `f`: an element mapped to `Some` is
/// replaced by the value inside, one mapped to `None` is dropped, and the
/// survivors keep their order. Returns, as ghost information, where each
/// survivor came from: survivor `k` is what `f` made of the element at
/// `sources[k]`, the source positions are strictly increasing, and every
/// element at a position outside `sources` was mapped to `None`.
pub fn map_retain<T: Copy, F: Fn(&T) -> Option<T>>(v: &mut Vec<T>, f: F) -> (sources: Ghost<
    Seq<int>,
>)
    requires
        forall|i: int| 0 <= i < old(v)@.len() ==> f.requires((&old(v)@[i],)),
    ensures
        final(v)@.len() <= old(v)@.len(),
        sources@.len() == final(v)@.len(),
        forall|k: int| 0 <= k < final(v)@.len() ==> 0 <= #[trigger] sources@[k] < old(v)@.len(),
        forall|k: int|
            0 <= k < final(v)@.len() - 1 ==> #[trigger] sources@[k] < sources@[k + 1],
        forall|k: int|
            0 <= k < final(v)@.len() ==> f.ensures(
                (&old(v)@[#[trigger] sources@[k]],),
                Some(final(v)@[k]),
            ),
        forall|i: int|
            0 <= i < old(v)@.len() && !sources@.contains(i) ==> f.ensures(
                (&old(v)@[i],),
                Option::<T>::None,
            ),
{
    let mut out: Vec<T> = Vec::new();
    let ghost mut srcs: Seq<int> = Seq::empty();
    for i in 0..v.len()
        invariant
            v == old(v),
            out@.len() <= i,
            srcs.len() == out@.len(),
            forall|j: int| 0 <= j < old(v)@.len() ==> f.requires((&old(v)@[j],)),
            forall|k: int| 0 <= k < out@.len() ==> 0 <= #[trigger] srcs[k] < i,
            forall|k: int| 0 <= k < out@.len() - 1 ==> #[trigger] srcs[k] < srcs[k + 1],
            forall|k: int|
                0 <= k < out@.len() ==> f.ensures((&old(v)@[#[trigger] srcs[k]],), Some(out@[k])),
            forall|j: int|
                0 <= j < i && !srcs.contains(j) ==> f.ensures((&old(v)@[j],), Option::<T>::None),
    {
        let ghost srcs0 = srcs;
        match f(&v[i]) {
            Some(t) => {
                out.push(t);
                proof {
                    srcs = srcs.push(i as int);
                    assert(f.ensures((&old(v)@[i as int],), Some(out@.last())));
                    assert(srcs.contains(i as int)) by {
                        assert(srcs[srcs.len() - 1] == i as int);
                    }
                    assert forall|j: int|
                        0 <= j < i + 1 && !srcs.contains(j) implies f.ensures(
                        (&old(v)@[j],),
                        Option::<T>::None,
                    ) by {
                        if srcs0.contains(j) {
                            let k = choose|k: int| 0 <= k < srcs0.len() && srcs0[k] == j;
                            assert(srcs[k] == j);
                        }
                    }
                }
            },
            None => {
                proof {
                    assert(f.ensures((&old(v)@[i as int],), Option::<T>::None));
                }
            },
        }
    }
    *v = out;
    Ghost(srcs)
}

/// Whether evaluating the action would leave a hold-tap arbitration
/// pending.
#[verifier::loop_isolation(false)]
fn action_activates<T: Copy>(action: &Action<T>) -> (r: bool)
    ensures
        r == activates(action@),
    decreases action,
{
    match action {
        Action::NoOp => false,
        Action::Trans => false,
        Action::KeyCode(_) => false,
        Action::MultipleKeyCodes(_) => false,
        Action::Layer(_) => false,
        Action::DefaultLayer(_) => false,
        Action::Custom(_) => false,
        Action::HoldTap { .. } => true,
        Action::MultipleActions(acts) => {
            let ghost va = actions_seq_view(acts@);
            proof {
                lemma_actions_seq_view(acts@);
                assert(action@ == ActionS::<T>::MultipleActions(va));
            }
            for i in 0..acts.len()
                invariant
                    forall|j: int| 0 <= j < i ==> !activates(#[trigger] va[j]),
            {
                if action_activates(&acts[i]) {
                    proof {
                        crate::action::lemma_activates_member(va, i as int);
                    }
                    return true;
                }
            }
            proof {
                crate::action::lemma_activates_no_member(va);
            }
            false
        },
    }
}

/// The layout manager. It takes [`Event`]s and clock ticks as input and
/// maintains the set of active key codes.
pub struct Layout<T> {
    layers: Layers<T>,
    default_layer: usize,
    states: Vec<State<T>>,
    waiting: Option<WaitingState<T>>,
    deque: Vec<Stacked>,
}

impl<T: Copy> View for Layout<T> {
    type V = LayoutView<T>;

    closed spec fn view(&self) -> LayoutView<T> {
        LayoutView {
            layers: layers_view(self.layers),
            default_layer: self.default_layer as int,
            states: self.states@,
            waiting: match self.waiting {
                Some(w) => Some(w@),
                None => None,
            },
            deque: self.deque@,
        }
    }
}

impl<T: Copy> Layout<T> {
    /// Creates a new `Layout` from its table: default layer zero, nothing
    /// held, nothing queued, no arbitration pending.
    pub fn new(layers: Layers<T>) -> (r: Self)
        requires
            layers_view(layers).len() >= 1,
            layers_wf(layers_view(layers)),
        ensures
            r@ == (LayoutView {
                layers: layers_view(layers),
                default_layer: 0,
                states: Seq::empty(),
                waiting: None,
                deque: Seq::empty(),
            }),
            r@.wf(),
    {
        let r = Layout {
            layers,
            default_layer: 0,
            states: Vec::new(),
            waiting: None,
            deque: Vec::new(),
        };
        proof {
            assert(r@ =~~= (LayoutView {
                layers: layers_view(r.layers),
                default_layer: 0,
                states: Seq::empty(),
                waiting: None,
                deque: Seq::empty(),
            }));
        }
        r
    }

    /// The key codes of the currently held normal keys, in insertion order;
    /// duplicates are possible and harmless.
    pub fn keycodes(&self) -> (r: Vec<KeyCode>)
        ensures
            r@ == spec_keycodes(self@.states),
    {
        let mut r: Vec<KeyCode> = Vec::new();
        for i in 0..self.states.len()
            invariant
                r@ == spec_keycodes(self@.states.take(i as int)),
        {
            proof {
                assert(self@.states.take(i + 1 as int).drop_last() =~= self@.states.take(i as int));
                assert(self@.states.take(i + 1 as int).last() == self@.states[i as int]);
            }
            match self.states[i].keycode() {
                Some(kc) => {
                    r.push(kc);
                    assert(r@ =~= spec_keycodes(self@.states.take(i + 1 as int)));
                },
                None => {
                    assert(r@ =~= spec_keycodes(self@.states.take(i + 1 as int)));
                },
            }
        }
        proof {
            assert(self@.states.take(self.states.len() as int) =~= self@.states);
        }
        r
    }

    /// The index of the currently active layer.
    pub fn current_layer(&self) -> (r: usize)
        ensures
            r as int == spec_current_layer(self@.states, self@.default_layer),
    {
        let mut acc: usize = 0;
        let mut seen: bool = false;
        for i in 0..self.states.len()
            invariant
                seen == (mods_of(self@.states.take(i as int)).len() > 0),
                seen ==> acc as int == sat_fold(mods_of(self@.states.take(i as int))),
                !seen ==> acc == 0,
        {
            proof {
                assert(self@.states.take(i + 1 as int).drop_last() =~= self@.states.take(i as int));
                assert(self@.states.take(i + 1 as int).last() == self@.states[i as int]);
            }
            let ghost prev = mods_of(self@.states.take(i as int));
            match self.states[i].get_layer() {
                Some(value) => {
                    proof {
                        assert(mods_of(self@.states.take(i + 1 as int)) =~= prev.push(value));
                    }
                    if !seen {
                        acc = value;
                        seen = true;
                        proof {
                            assert(prev.push(value).drop_last() =~= prev);
                            assert(sat_fold(prev.push(value)) == value as int);
                        }
                    } else {
                        proof {
                            assert(prev.push(value).drop_last() =~= prev);
                        }
                        acc = acc.saturating_add(value);
                    }
                },
                None => {
                    proof {
                        assert(mods_of(self@.states.take(i + 1 as int)) =~= prev);
                    }
                },
            }
        }
        proof {
            assert(self@.states.take(self.states.len() as int) =~= self@.states);
        }
        if seen {
            acc
        } else {
            self.default_layer
        }
    }

    /// Sets the default layer; a value beyond the table is ignored.
    pub fn set_default_layer(&mut self, value: usize)
        ensures
            final(self)@ == (LayoutView {
                default_layer: if (value as int) < old(self)@.layers.len() {
                    value as int
                } else {
                    old(self)@.default_layer
                },
                ..old(self)@
            }),
    {
        if value < self.layers.len() {
            self.default_layer = value;
        }
        proof {
            assert(final(self)@ =~~= (LayoutView {
                default_layer: if (value as int) < old(self)@.layers.len() {
                    value as int
                } else {
                    old(self)@.default_layer
                },
                ..old(self)@
            }));
        }
    }

    /// The table action at the given layer and coordinate, if in range.
    fn lookup_action(&self, layer: usize, coord: (u8, u8)) -> (r: Option<&Action<T>>)
        ensures
            match r {
                Some(a) => spec_lookup(self@.layers, layer as int, coord) == Some(a@),
                None => spec_lookup(self@.layers, layer as int, coord) is None,
            },
    {
        proof {
            assert(self@.layers.len() == self.layers@.len());
            if (layer as int) < self.layers@.len() {
                assert(self@.layers[layer as int] == Seq::new(
                    self.layers@[layer as int]@.len(),
                    |r: int| actions_seq_view(self.layers@[layer as int]@[r]@),
                ));
                assert(self@.layers[layer as int].len() == self.layers@[layer as int]@.len());
                if (coord.0 as int) < self.layers@[layer as int]@.len() {
                    lemma_actions_seq_view(self.layers@[layer as int]@[coord.0 as int]@);
                    assert(self@.layers[layer as int][coord.0 as int] == actions_seq_view(
                        self.layers@[layer as int]@[coord.0 as int]@,
                    ));
                }
            }
        }
        if layer < self.layers.len() {
            let rows = &self.layers[layer];
            if (coord.0 as usize) < rows.len() {
                let row = &rows[coord.0 as usize];
                if (coord.1 as usize) < row.len() {
                    let a = &row[coord.1 as usize];
                    Some(a)
                } else {
                    None
                }
            } else {
                None
            }
        } else {
            None
        }
    }

    /// The action a press resolves to; out-of-range and doubly-transparent
    /// lookups degrade to `NoOp`.
    fn press_as_action(&self, coord: (u8, u8), layer: usize) -> (r: Action<T>)
        ensures
            r@ == spec_press_as_action(self@.layers, self@.default_layer, coord, layer as int),
    {
        match self.lookup_action(layer, coord) {
            None => Action::NoOp,
            Some(a) => match a {
                Action::Trans => {
                    if layer != self.default_layer {
                        match self.lookup_action(self.default_layer, coord) {
                            None => Action::NoOp,
                            Some(b) => match b {
                                Action::Trans => Action::NoOp,
                                _ => b.clone(),
                            },
                        }
                    } else {
                        Action::NoOp
                    }
                },
                _ => a.clone(),
            },
        }
    }

    /// Append a state unless the capacity is reached.
    fn push_state(&mut self, s: State<T>)
        ensures
            final(self)@ == (LayoutView {
                states: push_bounded(old(self)@.states, s),
                ..old(self)@
            }),
    {
        if self.states.len() < STATES_CAP {
            self.states.push(s);
        }
        proof {
            assert(final(self)@ =~~= (LayoutView {
                states: push_bounded(old(self)@.states, s),
                ..old(self)@
            }));
        }
    }

    /// Evaluate one action at a coordinate; `delay` is how long the press
    /// had been queued, which seeds hold-tap arbitration.
    #[verifier::loop_isolation(false)]
    fn do_action(&mut self, action: &Action<T>, coord: (u8, u8), delay: u16) -> (ce: CustomEvent<
        T,
    >)
        requires
            old(self)@.wf(),
            old(self)@.waiting is None,
            action_wf(action@),
        ensures
            ({
                let (st2, ce2) = spec_do_action(action@, coord, delay, old(self)@.engine());
                final(self)@ == old(self)@.with_engine(st2) && ce == ce2
            }),
            final(self)@.wf(),
        decreases action,
    {
        proof {
            lemma_do_action_props(action@, coord, delay, old(self)@.engine());
        }
        match action {
            Action::NoOp => {
                proof {
                    assert(old(self)@.with_engine(old(self)@.engine()) =~~= old(self)@);
                }
                CustomEvent::NoEvent
            },
            Action::Trans => {
                proof {
                    assert(old(self)@.with_engine(old(self)@.engine()) =~~= old(self)@);
                }
                CustomEvent::NoEvent
            },
            Action::KeyCode(kc) => {
                self.push_state(State::NormalKey { keycode: *kc, coord });
                proof {
                    let (st2, ce2) = spec_do_action(action@, coord, delay, old(self)@.engine());
                    assert(final(self)@ =~~= old(self)@.with_engine(st2));
                }
                CustomEvent::NoEvent
            },
            Action::MultipleKeyCodes(ks) => {
                let ghost s0 = old(self)@.states;
                for i in 0..ks.len()
                    invariant
                        self@ == (LayoutView {
                            states: push_keycodes(s0, ks@.take(i as int), coord),
                            ..old(self)@
                        }),
                        s0 == old(self)@.states,
                        s0.len() <= STATES_CAP,
                {
                    proof {
                        assert(ks@.take(i + 1 as int).drop_last() =~= ks@.take(i as int));
                        assert(ks@.take(i + 1 as int).last() == ks@[i as int]);
                        lemma_push_keycodes_bound(s0, ks@.take(i as int), coord);
                    }
                    self.push_state(State::NormalKey { keycode: ks[i], coord });
                    proof {
                        assert(self@ =~~= (LayoutView {
                            states: push_keycodes(s0, ks@.take(i + 1 as int), coord),
                            ..old(self)@
                        }));
                    }
                }
                proof {
                    assert(ks@.take(ks@.len() as int) =~= ks@);
                    let (st2, ce2) = spec_do_action(action@, coord, delay, old(self)@.engine());
                    assert(final(self)@ =~~= old(self)@.with_engine(st2));
                }
                CustomEvent::NoEvent
            },
            Action::MultipleActions(acts) => {
                let ghost va = actions_seq_view(acts@);
                proof {
                    lemma_actions_seq_view(acts@);
                    assert(va.take(0) =~= Seq::<ActionS<T>>::empty());
                    assert(old(self)@.with_engine(old(self)@.engine()) =~~= old(self)@);
                }
                let mut custom = CustomEvent::NoEvent;
                for i in 0..acts.len()
                    invariant
                        ({
                            let (sti, cei) = spec_do_actions(
                                va.take(i as int),
                                coord,
                                delay,
                                old(self)@.engine(),
                            );
                            self@ == old(self)@.with_engine(sti) && custom == cei
                        }),
                        self@.wf(),
                {
                    let ghost prefix = va.take(i as int);
                    proof {
                        assert(va.take(i + 1 as int).drop_last() =~= prefix);
                        assert(va.take(i + 1 as int).last() == va[i as int]);
                        assert(action_wf(va[i as int]));
                        assert forall|j: int|
                            0 <= j < prefix.len() implies action_wf(#[trigger] prefix[j])
                            && !activates(prefix[j]) by {
                            assert(prefix[j] == va[j]);
                            assert(action_wf(va[j]));
                            if activates(va[j]) {
                                assert(j == va.len() - 1);
                            }
                        }
                        lemma_do_actions_props(prefix, coord, delay, old(self)@.engine());
                        assert(self@.engine() =~~= spec_do_actions(
                            prefix,
                            coord,
                            delay,
                            old(self)@.engine(),
                        ).0);
                    }
                    let ce = self.do_action(&acts[i], coord, delay);
                    custom.update(ce);
                    proof {
                        let (sti1, cei1) = spec_do_actions(
                            va.take(i + 1 as int),
                            coord,
                            delay,
                            old(self)@.engine(),
                        );
                        assert(self@ =~~= old(self)@.with_engine(sti1));
                    }
                }
                proof {
                    assert(va.take(va.len() as int) =~= va);
                }
                custom
            },
            Action::Layer(n) => {
                self.push_state(State::LayerModifier { value: *n, coord });
                proof {
                    let (st2, ce2) = spec_do_action(action@, coord, delay, old(self)@.engine());
                    assert(final(self)@ =~~= old(self)@.with_engine(st2));
                }
                CustomEvent::NoEvent
            },
            Action::DefaultLayer(n) => {
                self.set_default_layer(*n);
                proof {
                    let (st2, ce2) = spec_do_action(action@, coord, delay, old(self)@.engine());
                    assert(final(self)@ =~~= old(self)@.with_engine(st2));
                }
                CustomEvent::NoEvent
            },
            Action::HoldTap { timeout, hold, tap, config, tap_hold_interval } => {
                let w = WaitingState {
                    coord,
                    timeout: *timeout,
                    delay,
                    hold: (&**hold).clone(),
                    tap: (&**tap).clone(),
                    config: *config,
                };
                self.waiting = Some(w);
                proof {
                    let (st2, ce2) = spec_do_action(action@, coord, delay, old(self)@.engine());
                    assert(final(self)@ =~~= old(self)@.with_engine(st2));
                }
                CustomEvent::NoEvent
            },
            Action::Custom(value) => {
                if self.states.len() < STATES_CAP {
                    self.states.push(State::Custom { value: *value, coord });
                    proof {
                        let (st2, ce2) = spec_do_action(action@, coord, delay, old(self)@.engine());
                        assert(final(self)@ =~~= old(self)@.with_engine(st2));
                    }
                    CustomEvent::Press(*value)
                } else {
                    proof {
                        assert(old(self)@.with_engine(old(self)@.engine()) =~~= old(self)@);
                    }
                    CustomEvent::NoEvent
                }
            },
        }
    }

    /// Resolve the pending arbitration, if any, as a hold.
    fn waiting_into_hold(&mut self) -> (ce: CustomEvent<T>)
        requires
            old(self)@.wf(),
        ensures
            ({
                let (v2, ce2) = spec_into_hold(old(self)@);
                final(self)@ == v2 && ce == ce2
            }),
            final(self)@.wf(),
    {
        match self.waiting.take() {
            None => {
                proof {
                    assert(final(self)@ =~~= old(self)@);
                }
                CustomEvent::NoEvent
            },
            Some(w) => {
                let ce = self.do_action(&w.hold, w.coord, 0);
                ce
            },
        }
    }

    /// Resolve the pending arbitration, if any, as a tap.
    fn waiting_into_tap(&mut self) -> (ce: CustomEvent<T>)
        requires
            old(self)@.wf(),
        ensures
            ({
                let (v2, ce2) = spec_into_tap(old(self)@);
                final(self)@ == v2 && ce == ce2
            }),
            final(self)@.wf(),
    {
        match self.waiting.take() {
            None => {
                proof {
                    assert(final(self)@ =~~= old(self)@);
                }
                CustomEvent::NoEvent
            },
            Some(w) => {
                let ce = self.do_action(&w.tap, w.coord, 0);
                ce
            },
        }
    }

    /// Process one dequeued event.
    fn unstack(&mut self, stacked: Stacked) -> (ce: CustomEvent<T>)
        requires
            old(self)@.wf(),
            stacked.event.spec_is_press() ==> old(self)@.waiting is None,
        ensures
            ({
                let (v2, ce2) = spec_unstack(old(self)@, stacked);
                final(self)@ == v2 && ce == ce2
            }),
            final(self)@.wf(),
    {
        match stacked.event {
            Event::Release(i, j) => {
                let mut custom = CustomEvent::NoEvent;
                let mut kept: Vec<State<T>> = Vec::new();
                let n = self.states.len();
                for idx in 0..n
                    invariant
                        n == self.states.len(),
                        self == old(self),
                        kept@.len() <= idx,
                        ({
                            let (s2, ce2) = spec_release_all(
                                self@.states.take(idx as int),
                                (i, j),
                            );
                            kept@ == s2 && custom == ce2
                        }),
                {
                    proof {
                        assert(self@.states.take(idx + 1 as int).drop_last() =~= self@.states.take(
                            idx as int,
                        ));
                        assert(self@.states.take(idx + 1 as int).last() == self@.states[idx as int]);
                    }
                    let st = self.states[idx];
                    match st.release((i, j), &mut custom) {
                        Some(surv) => {
                            kept.push(surv);
                        },
                        None => {},
                    }
                }
                proof {
                    assert(self@.states.take(n as int) =~= self@.states);
                }
                self.states = kept;
                proof {
                    let (v2, ce2) = spec_unstack(old(self)@, stacked);
                    assert(final(self)@ =~~= v2);
                }
                custom
            },
            Event::Press(i, j) => {
                let layer = self.current_layer();
                let action = self.press_as_action((i, j), layer);
                proof {
                    lemma_press_action_wf(old(self)@, (i, j), layer as int);
                }
                let ce = self.do_action(&action, (i, j), stacked.since);
                ce
            },
        }
    }

    /// A time event; call once per unit of time (typically every
    /// millisecond). Returns the custom-action transition of this tick.
    pub fn tick(&mut self) -> (r: CustomEvent<T>)
        requires
            old(self)@.wf(),
        ensures
            ({
                let (v2, r2) = spec_tick(old(self)@);
                final(self)@ == v2 && r == r2
            }),
            final(self)@.wf(),
    {
        let n = self.deque.len();
        for i in 0..n
            invariant
                n == self.deque.len(),
                (LayoutView { deque: old(self)@.deque, ..self@ }) == old(self)@,
                self@.deque.len() == old(self)@.deque.len(),
                forall|j: int| 0 <= j < i ==> self@.deque[j] == old(self)@.deque[j].spec_ticked(),
                forall|j: int| i <= j < n ==> self@.deque[j] == old(self)@.deque[j],
        {
            let mut st = self.deque[i];
            st.tick();
            self.deque[i] = st;
            proof {
                assert((LayoutView { deque: old(self)@.deque, ..self@ }) =~~= old(self)@);
            }
        }
        proof {
            assert(self@.deque =~= deque_ticked(old(self)@.deque));
            assert(self@ =~~= (LayoutView { deque: deque_ticked(old(self)@.deque), ..old(self)@ }));
        }
        let decision = match &mut self.waiting {
            Some(w) => Some(w.tick(&self.deque)),
            None => None,
        };
        match decision {
            Some(WaitingAction::Hold) => {
                let ce = self.waiting_into_hold();
                proof {
                    let (v2, r2) = spec_tick(old(self)@);
                    assert(final(self)@ =~~= v2);
                }
                ce
            },
            Some(WaitingAction::Tap) => {
                let ce = self.waiting_into_tap();
                proof {
                    let (v2, r2) = spec_tick(old(self)@);
                    assert(final(self)@ =~~= v2);
                }
                ce
            },
            Some(WaitingAction::NoOp) => {
                proof {
                    let (v2, r2) = spec_tick(old(self)@);
                    assert(final(self)@ =~~= v2);
                }
                CustomEvent::NoEvent
            },
            None => {
                if self.deque.len() > 0 {
                    let st = self.deque.remove(0);
                    proof {
                        assert(self@.deque =~= deque_ticked(old(self)@.deque).skip(1));
                    }
                    let ce = self.unstack(st);
                    proof {
                        let (v2, r2) = spec_tick(old(self)@);
                        assert(final(self)@ =~~= v2);
                    }
                    ce
                } else {
                    proof {
                        let (v2, r2) = spec_tick(old(self)@);
                        assert(final(self)@ =~~= v2);
                    }
                    CustomEvent::NoEvent
                }
            },
        }
    }

    /// Whether [`Layout::event`] can take the next event without being
    /// forced to process the evicted press of a full queue while the
    /// pending hold branch would start a new arbitration; a host loop can
    /// test this before calling.
    pub fn ready_for_event(&self) -> (r: bool)
        ensures
            r == event_ok(self@),
    {
        if self.deque.len() < DEQUE_CAP {
            true
        } else {
            match &self.waiting {
                None => true,
                Some(w) => {
                    if self.deque[0].event.is_press() {
                        !action_activates(&w.hold)
                    } else {
                        true
                    }
                },
            }
        }
    }

    /// Register a key event: queue it; a full queue evicts its oldest
    /// entry, forcing a pending arbitration to resolve as hold before the
    /// evicted event is processed.
    pub fn event(&mut self, event: Event)
        requires
            old(self)@.wf(),
            event_ok(old(self)@),
        ensures
            final(self)@ == spec_event(old(self)@, event),
            final(self)@.wf(),
    {
        if self.deque.len() < DEQUE_CAP {
            self.deque.push(Stacked::new(event));
            proof {
                assert(final(self)@ =~~= spec_event(old(self)@, event));
            }
        } else {
            let evicted = self.deque.remove(0);
            self.deque.push(Stacked::new(event));
            proof {
                assert(self@ =~~= (LayoutView {
                    deque: old(self)@.deque.skip(1).push(Stacked { event, since: 0u16 }),
                    ..old(self)@
                }));
            }
            let ghost v1 = self@;
            let _ = self.waiting_into_hold();
            proof {
                if evicted.event.spec_is_press() {
                    match old(self)@.waiting {
                        Some(w) => {
                            lemma_do_action_props(
                                w.hold,
                                w.coord,
                                0,
                                EngineSt { waiting: None, ..v1.engine() },
                            );
                        },
                        None => {},
                    }
                }
            }
            let _ = self.unstack(evicted);
            proof {
                assert(final(self)@ =~~= spec_event(old(self)@, event));
            }
        }
    }
}

} // verus!
