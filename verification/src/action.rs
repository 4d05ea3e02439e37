//! The action data model: what a key at a given layer and coordinate does.
//!
//! [`Action`] is the executable type held by the layout table; [`ActionS`]
//! is its mathematical image (sequences instead of vectors), which every
//! contract of the engine speaks of. `a@` maps one to the other.

use vstd::prelude::*;

use crate::key_code::KeyCode;

verus! {

broadcast use vstd::std_specs::vec::group_vec_axioms, vstd::seq::group_seq_axioms;

/// How a hold-tap action decides between its two branches.
#[derive(Debug, Clone, Copy, PartialEq, Eq, Structural)]
pub enum HoldTapConfig {
    /// Decide by the release of the key itself or by the timeout alone.
    Default,
    /// Commit to hold as soon as any other key press is queued.
    HoldOnOtherKeyPress,
    /// Commit to hold once another key is pressed and released in full
    /// while the hold-tap key is still down.
    PermissiveHold,
}

/// The behavior of one key on one layer.
///
/// The payload type `T` is carried by [`Action::Custom`] and surfaced
/// through the custom-event channel; the engine never inspects it.
#[derive(Debug, PartialEq, Eq)]
pub enum Action<T> {
    /// Do nothing.
    NoOp,
    /// Fall through to the default layer's action at the same coordinate.
    Trans,
    /// Press the key code for as long as the key is held.
    KeyCode(KeyCode),
    /// Press all the key codes at once for as long as the key is held.
    MultipleKeyCodes(Vec<KeyCode>),
    /// Execute every action in order.
    MultipleActions(Vec<Action<T>>),
    /// While held, add the value to the active layer index.
    Layer(usize),
    /// On press, latch the default layer (ignored when out of range).
    DefaultLayer(usize),
    /// One of two actions, depending on how long the key is held and on
    /// what other keys do in the meantime.
    HoldTap {
        /// Ticks before the hold branch fires on its own.
        timeout: u16,
        /// The action taken when the key is held.
        hold: Box<Action<T>>,
        /// The action taken when the key is tapped.
        tap: Box<Action<T>>,
        /// The arbitration strategy.
        config: HoldTapConfig,
        /// Reserved; carried through but not consulted by the arbiter.
        tap_hold_interval: u16,
    },
    /// Surface the payload through the custom-event channel.
    Custom(T),
}

/// The mathematical image of an [`Action`].
#[verifier::ext_equal]
pub enum ActionS<T> {
    /// Do nothing.
    NoOp,
    /// Fall through to the default layer's action at the same coordinate.
    Trans,
    /// Press the key code for as long as the key is held.
    KeyCode(KeyCode),
    /// Press all the key codes at once for as long as the key is held.
    MultipleKeyCodes(Seq<KeyCode>),
    /// Execute every action in order.
    MultipleActions(Seq<ActionS<T>>),
    /// While held, add the value to the active layer index.
    Layer(int),
    /// On press, latch the default layer (ignored when out of range).
    DefaultLayer(int),
    /// One of two actions, depending on how long the key is held and on
    /// what other keys do in the meantime.
    HoldTap {
        /// Ticks before the hold branch fires on its own.
        timeout: u16,
        /// The action taken when the key is held.
        hold: Box<ActionS<T>>,
        /// The action taken when the key is tapped.
        tap: Box<ActionS<T>>,
        /// The arbitration strategy.
        config: HoldTapConfig,
        /// Reserved; carried through but not consulted by the arbiter.
        tap_hold_interval: u16,
    },
    /// Surface the payload through the custom-event channel.
    Custom(T),
}

/// The mathematical image of one action.
pub open spec fn action_view<T>(a: Action<T>) -> ActionS<T>
    decreases a,
{
    match a {
        Action::NoOp => ActionS::NoOp,
        Action::Trans => ActionS::Trans,
        Action::KeyCode(kc) => ActionS::KeyCode(kc),
        Action::MultipleKeyCodes(v) => ActionS::MultipleKeyCodes(v@),
        Action::MultipleActions(v) => ActionS::MultipleActions(actions_seq_view(v@)),
        Action::Layer(n) => ActionS::Layer(n as int),
        Action::DefaultLayer(n) => ActionS::DefaultLayer(n as int),
        Action::HoldTap { timeout, hold, tap, config, tap_hold_interval } => ActionS::HoldTap {
            timeout,
            hold: Box::new(action_view(*hold)),
            tap: Box::new(action_view(*tap)),
            config,
            tap_hold_interval,
        },
        Action::Custom(t) => ActionS::Custom(t),
    }
}

/// The mathematical image of a sequence of actions, element for element.
pub open spec fn actions_seq_view<T>(v: Seq<Action<T>>) -> Seq<ActionS<T>>
    decreases v,
{
    if v.len() == 0 {
        Seq::empty()
    } else {
        actions_seq_view(v.drop_last()).push(action_view(v.last()))
    }
}

/// The image of a sequence of actions is the image of each element.
pub proof fn lemma_actions_seq_view<T>(v: Seq<Action<T>>)
    ensures
        actions_seq_view(v).len() == v.len(),
        forall|i: int| 0 <= i < v.len() ==> actions_seq_view(v)[i] == action_view(v[i]),
    decreases v.len(),
{
    if v.len() > 0 {
        lemma_actions_seq_view(v.drop_last());
        assert forall|i: int| 0 <= i < v.len() implies actions_seq_view(v)[i] == action_view(
            v[i],
        ) by {
            if i < v.len() - 1 {
                assert(v.drop_last()[i] == v[i]);
            }
        }
    }
}

impl<T> View for Action<T> {
    type V = ActionS<T>;

    open spec fn view(&self) -> ActionS<T> {
        action_view(*self)
    }
}

/// Holds when evaluating the action leaves a hold-tap arbitration pending.
pub open spec fn activates<T>(a: ActionS<T>) -> bool
    decreases a,
{
    match a {
        ActionS::HoldTap { .. } => true,
        ActionS::MultipleActions(v) => any_activates(v),
        _ => false,
    }
}

/// Holds when some member of the list activates an arbitration.
pub open spec fn any_activates<T>(v: Seq<ActionS<T>>) -> bool
    decreases v,
{
    if v.len() == 0 {
        false
    } else {
        any_activates(v.drop_last()) || activates(v.last())
    }
}

/// A member list with an activating member activates as a whole.
pub proof fn lemma_activates_member<T>(v: Seq<ActionS<T>>, i: int)
    requires
        0 <= i < v.len(),
        activates(v[i]),
    ensures
        activates(ActionS::MultipleActions(v)),
    decreases v.len(),
{
    if i == v.len() - 1 {
    } else {
        assert(v.drop_last()[i] == v[i]);
        lemma_activates_member(v.drop_last(), i);
    }
}

/// A member list with no activating member does not activate.
pub proof fn lemma_activates_no_member<T>(v: Seq<ActionS<T>>)
    requires
        forall|i: int| 0 <= i < v.len() ==> !activates(#[trigger] v[i]),
    ensures
        !activates(ActionS::MultipleActions(v)),
    decreases v.len(),
{
    if v.len() > 0 {
        assert forall|i: int| 0 <= i < v.drop_last().len() implies !activates(
            #[trigger] v.drop_last()[i],
        ) by {
            assert(v.drop_last()[i] == v[i]);
        }
        lemma_activates_no_member(v.drop_last());
    }
}

/// A well-formed action never evaluates a sub-action while a hold-tap
/// arbitration it started is still pending: inside `MultipleActions` only
/// the final member may leave one pending.
pub open spec fn action_wf<T>(a: ActionS<T>) -> bool
    decreases a,
{
    match a {
        ActionS::MultipleActions(v) => {
            &&& forall|i: int| 0 <= i < v.len() ==> action_wf(#[trigger] v[i])
            &&& forall|i: int| 0 <= i < v.len() && activates(#[trigger] v[i]) ==> i == v.len() - 1
        },
        ActionS::HoldTap { hold, tap, .. } => action_wf(*hold) && action_wf(*tap),
        _ => true,
    }
}

impl<T: Copy> Clone for Action<T> {
    fn clone(&self) -> (r: Self)
        ensures
            r@ == self@,
        decreases self,
    {
        match self {
            Action::NoOp => Action::NoOp,
            Action::Trans => Action::Trans,
            Action::KeyCode(kc) => Action::KeyCode(*kc),
            Action::MultipleKeyCodes(v) => {
                let w = clone_keycodes(v);
                Action::MultipleKeyCodes(w)
            },
            Action::MultipleActions(v) => {
                let w = clone_actions(v);
                proof {
                    lemma_actions_seq_view(w@);
                    lemma_actions_seq_view(v@);
                    assert(actions_seq_view(w@) =~= actions_seq_view(v@));
                }
                Action::MultipleActions(w)
            },
            Action::Layer(n) => Action::Layer(*n),
            Action::DefaultLayer(n) => Action::DefaultLayer(*n),
            Action::HoldTap { timeout, hold, tap, config, tap_hold_interval } => Action::HoldTap {
                timeout: *timeout,
                hold: Box::new((&**hold).clone()),
                tap: Box::new((&**tap).clone()),
                config: *config,
                tap_hold_interval: *tap_hold_interval,
            },
            Action::Custom(t) => Action::Custom(*t),
        }
    }
}

fn clone_keycodes(v: &Vec<KeyCode>) -> (r: Vec<KeyCode>)
    ensures
        r@ == v@,
{
    let mut r: Vec<KeyCode> = Vec::new();
    for i in 0..v.len()
        invariant
            r@ == v@.take(i as int),
    {
        r.push(v[i]);
        assert(r@ =~= v@.take(i + 1 as int));
    }
    assert(r@ =~= v@);
    r
}

fn clone_actions<T: Copy>(v: &Vec<Action<T>>) -> (r: Vec<Action<T>>)
    ensures
        r@.len() == v@.len(),
        forall|i: int| 0 <= i < v@.len() ==> r@[i]@ == v@[i]@,
    decreases v,
{
    let mut r: Vec<Action<T>> = Vec::new();
    for i in 0..v.len()
        invariant
            r@.len() == i,
            forall|j: int| 0 <= j < i ==> r@[j]@ == v@[j]@,
    {
        r.push(v[i].clone());
    }
    r
}

/// A unary key: press the key code while the key is held.
pub fn k<T>(kc: KeyCode) -> (r: Action<T>)
    ensures
        r@ == ActionS::<T>::KeyCode(kc),
{
    Action::KeyCode(kc)
}

/// A momentary layer switch: add `layer` to the active layer while held.
pub fn l<T>(layer: usize) -> (r: Action<T>)
    ensures
        r@ == ActionS::<T>::Layer(layer as int),
{
    Action::Layer(layer)
}

/// Latch `layer` as the default layer on press.
pub fn d<T>(layer: usize) -> (r: Action<T>)
    ensures
        r@ == ActionS::<T>::DefaultLayer(layer as int),
{
    Action::DefaultLayer(layer)
}

/// A chord: press all the key codes at once while the key is held.
pub fn m<T>(kcs: Vec<KeyCode>) -> (r: Action<T>)
    ensures
        r@ == ActionS::<T>::MultipleKeyCodes(kcs@),
{
    Action::MultipleKeyCodes(kcs)
}

} // verus!
