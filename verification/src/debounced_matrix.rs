//! The debounced matrix scanner core: a time-discrete debouncer over
//! sampled matrix images, plus an auxiliary tracked input.
//!
//! Sampling the electrical matrix is I/O and happens outside this library;
//! the scanner takes each sampled image as a vector of per-row column
//! bitmasks and decides when the stable image changes and which press and
//! release events that change amounts to.
//!
//! The whole transition is fixed by [`DebounceView::step`]. The tracked
//! input is sampled through a trait the host implements, so the sampled
//! value is bound existentially in the contracts; and since the host's
//! equality on snapshots is only known to mean equality when it obeys its
//! specification, the exact clauses are guarded by
//! `obeys_concrete_eq::<T::State>()` — which holds for the unit tracker and
//! every structural snapshot type.

use vstd::prelude::*;

use vstd::laws_eq::obeys_concrete_eq;

use crate::layout::Event;

verus! {

broadcast use vstd::std_specs::vec::group_vec_axioms, vstd::seq::group_seq_axioms;

/// An auxiliary input sampled alongside the matrix (a rotary encoder, for
/// example). The unit tracker `()` reports nothing.
///
/// `spec_default_state` and `spec_emit_event` are each implementation's own
/// statement of what its two pure methods return; `get_state` samples the
/// outside world and promises nothing.
pub trait StateTracker {
    /// A snapshot of the tracked input.
    type State: PartialEq + Copy;

    /// What holds of every snapshot this tracker can sample; the unit
    /// tracker, for one, only ever samples its default.
    spec fn may_sample(&self, r: Self::State) -> bool;

    /// The snapshot assumed before the first sample, as a value.
    spec fn spec_default_state(&self) -> Self::State;

    /// The event, if any, that the transition between two stable snapshots
    /// amounts to, as a value.
    spec fn spec_emit_event(&self, last: Self::State, now: Self::State) -> Option<Event>;

    /// Sample the tracked input.
    fn get_state(&self) -> (r: Self::State)
        ensures
            self.may_sample(r),
    ;

    /// The snapshot assumed before the first sample.
    fn default_state(&self) -> (r: Self::State)
        ensures
            r == self.spec_default_state(),
    ;

    /// The event, if any, that the transition between two stable snapshots
    /// amounts to.
    fn emit_event(&self, last: &Self::State, now: &Self::State) -> (r: Option<Event>)
        ensures
            r == self.spec_emit_event(*last, *now),
    ;
}

impl StateTracker for () {
    type State = bool;

    open spec fn may_sample(&self, r: bool) -> bool {
        r == false
    }

    open spec fn spec_default_state(&self) -> bool {
        false
    }

    open spec fn spec_emit_event(&self, last: bool, now: bool) -> Option<Event> {
        None
    }

    fn get_state(&self) -> (r: bool) {
        false
    }

    fn default_state(&self) -> (r: bool) {
        false
    }

    fn emit_event(&self, _last: &bool, _now: &bool) -> (r: Option<Event>) {
        None
    }
}

/// Whether bit `b` of `x` is set.
pub open spec fn bit_set(x: u32, b: u32) -> bool {
    x & (1u32 << b) != 0
}

/// The events, in bit order from `b` up, that changing one row's column
/// bitmask from `o` to `n` amounts to: a bit gained is a press, a bit lost
/// is a release.
pub open spec fn row_diff_from(o: u32, n: u32, ri: u8, b: u32) -> Seq<Event>
    decreases 32 - b,
{
    if b >= 32 {
        Seq::empty()
    } else {
        (if !bit_set(o, b) && bit_set(n, b) {
            seq![Event::Press(ri, b as u8)]
        } else if bit_set(o, b) && !bit_set(n, b) {
            seq![Event::Release(ri, b as u8)]
        } else {
            Seq::empty()
        }) + row_diff_from(o, n, ri, (b + 1) as u32)
    }
}

/// The events, row-major, that changing the stable image from `o` to `n`
/// amounts to, for rows `ri` and following.
pub open spec fn diff_from(o: Seq<u32>, n: Seq<u32>, ri: int) -> Seq<Event>
    decreases o.len() - ri,
{
    if ri < 0 || ri >= o.len() || o.len() != n.len() {
        Seq::empty()
    } else {
        row_diff_from(o[ri], n[ri], ri as u8, 0) + diff_from(o, n, ri + 1)
    }
}

/// The events that changing the stable image from `o` to `n` amounts to.
pub open spec fn diff_events(o: Seq<u32>, n: Seq<u32>) -> Seq<Event> {
    diff_from(o, n, 0)
}

/// An optional event as a sequence of zero or one events.
pub open spec fn opt_event_seq(o: Option<Event>) -> Seq<Event> {
    match o {
        Some(e) => seq![e],
        None => Seq::empty(),
    }
}

/// The mathematical image of a [`DebouncedMatrix`].
#[verifier::ext_equal]
pub struct DebounceView<T: StateTracker> {
    /// The last stable matrix image, one column bitmask per row.
    pub current: Seq<u32>,
    /// The candidate matrix image being debounced.
    pub candidate: Seq<u32>,
    /// How many consecutive samples have agreed with the candidate.
    pub since: u32,
    /// The debounce threshold.
    pub threshold: u32,
    /// The tracked-input snapshot belonging to the stable image.
    pub stable_tracked: T::State,
    /// The tracked-input snapshot belonging to the candidate image.
    pub candidate_tracked: T::State,
    /// The tracked input itself.
    pub tracker: T,
}

impl<T: StateTracker> DebounceView<T> {
    /// Validity: the two images cover the same rows, few enough rows that a
    /// coordinate fits eight bits, and the agreement counter never exceeds
    /// the threshold.
    pub open spec fn wf(self) -> bool {
        &&& self.current.len() == self.candidate.len()
        &&& self.current.len() <= 256
        &&& self.since <= self.threshold
        &&& self.threshold < u32::MAX
    }

    /// The sampled pair equals the stable pair: nothing is being debounced.
    pub open spec fn quiescent(self, sample: Seq<u32>, t: T::State) -> bool {
        sample == self.current && t == self.stable_tracked
    }

    /// The sampled pair equals the candidate pair: the candidate persists.
    pub open spec fn candidate_matches(self, sample: Seq<u32>, t: T::State) -> bool {
        sample == self.candidate && t == self.candidate_tracked
    }

    /// Whether this sample commits the candidate as the new stable pair:
    /// the sample differs from the stable pair, and either it has agreed
    /// with the candidate for more than `threshold` consecutive samples, or
    /// the threshold is zero.
    pub open spec fn commits(self, sample: Seq<u32>, t: T::State) -> bool {
        &&& !self.quiescent(sample, t)
        &&& if self.candidate_matches(sample, t) {
            self.since + 1 > self.threshold
        } else {
            self.threshold == 0
        }
    }

    /// One debounce step on a sampled pair: a quiescent sample resets the
    /// counter; a fresh sample restarts the candidate at count one; a
    /// persisting candidate counts up; and past the threshold the stable
    /// and candidate pairs swap. The second component is whether the stable
    /// pair changed.
    pub open spec fn step(self, sample: Seq<u32>, t: T::State) -> (DebounceView<T>, bool) {
        if self.quiescent(sample, t) {
            (DebounceView { since: 0, ..self }, false)
        } else {
            let v1 = if !self.candidate_matches(sample, t) {
                DebounceView { candidate: sample, candidate_tracked: t, since: 1, ..self }
            } else {
                DebounceView { since: (self.since + 1) as u32, ..self }
            };
            if v1.since > self.threshold {
                (
                    DebounceView {
                        current: v1.candidate,
                        candidate: v1.current,
                        stable_tracked: v1.candidate_tracked,
                        candidate_tracked: v1.stable_tracked,
                        since: 0,
                        ..v1
                    },
                    true,
                )
            } else {
                (v1, false)
            }
        }
    }
}

/// The debounced matrix scanner: `current` is the last stable image, `new`
/// the candidate image being debounced, and `since` how many consecutive
/// samples have agreed with the candidate. The stable image is replaced
/// only after more than `threshold` consecutive agreeing samples.
pub struct DebouncedMatrix<T: StateTracker> {
    current: Vec<u32>,
    new: Vec<u32>,
    since: u32,
    threshold: u32,
    tracker: T,
    last_tracked: T::State,
    last_stable_tracked: T::State,
}

impl<T: StateTracker> View for DebouncedMatrix<T> {
    type V = DebounceView<T>;

    closed spec fn view(&self) -> DebounceView<T> {
        DebounceView {
            current: self.current@,
            candidate: self.new@,
            since: self.since,
            threshold: self.threshold,
            stable_tracked: self.last_stable_tracked,
            candidate_tracked: self.last_tracked,
            tracker: self.tracker,
        }
    }
}

impl<T: StateTracker> DebouncedMatrix<T> {
    /// A scanner with `rows` rows, all keys initially up.
    ///
    /// `threshold` is the debounce threshold: how many consecutive agreeing
    /// samples beyond the first a new image needs before it becomes stable.
    pub fn new(rows: usize, threshold: u32, tracker: T) -> (r: Self)
        requires
            rows <= 256,
            threshold < u32::MAX,
        ensures
            r@.wf(),
            r@.current.len() == rows,
            r@.candidate.len() == rows,
            forall|i: int| 0 <= i < rows ==> r@.current[i] == 0,
            forall|i: int| 0 <= i < rows ==> r@.candidate[i] == 0,
            r@.since == 0,
            r@.threshold == threshold,
            r@.stable_tracked == tracker.spec_default_state(),
            r@.candidate_tracked == tracker.spec_default_state(),
            r@.tracker == tracker,
    {
        let mut current: Vec<u32> = Vec::new();
        let mut new: Vec<u32> = Vec::new();
        for i in 0..rows
            invariant
                current@.len() == i,
                new@.len() == i,
                forall|j: int| 0 <= j < i ==> current@[j] == 0,
                forall|j: int| 0 <= j < i ==> new@[j] == 0,
        {
            current.push(0);
            new.push(0);
        }
        let last_tracked = tracker.default_state();
        let last_stable_tracked = tracker.default_state();
        DebouncedMatrix { current, new, since: 0, threshold, tracker, last_tracked, last_stable_tracked }
    }

    /// Feed one sampled image into the debouncer; returns whether the
    /// stable image changed on this sample.
    ///
    /// Where the snapshot type's equality means equality, the result and
    /// the whole new state are exactly one [`DebounceView::step`] on the
    /// sampled image and the sampled tracker snapshot, which is bound
    /// existentially; the remaining clauses hold of any snapshot type.
    pub fn update(&mut self, pressed_now: &Vec<u32>) -> (changed: bool)
        requires
            old(self)@.wf(),
            pressed_now@.len() == old(self)@.current.len(),
        ensures
            final(self)@.wf(),
            final(self)@.threshold == old(self)@.threshold,
            final(self)@.tracker == old(self)@.tracker,
            final(self)@.current.len() == old(self)@.current.len(),
            final(self)@.candidate.len() == old(self)@.candidate.len(),
            obeys_concrete_eq::<T::State>() ==> exists|t: T::State|
                #![trigger old(self)@.step(pressed_now@, t)]
                {
                    let (v2, ch) = old(self)@.step(pressed_now@, t);
                    &&& old(self)@.tracker.may_sample(t)
                    &&& final(self)@ == v2
                    &&& changed == ch
                },
            changed ==> {
                &&& final(self)@.current == pressed_now@
                &&& final(self)@.candidate == old(self)@.current
                &&& final(self)@.since == 0
                &&& ((pressed_now@ == old(self)@.candidate && old(self)@.since + 1 > old(
                    self,
                )@.threshold) || old(self)@.threshold == 0)
            },
            !changed ==> final(self)@.current == old(self)@.current,
            !changed ==> (final(self)@.candidate == old(self)@.candidate || final(self)@.candidate
                == pressed_now@),
    {
        let ghost v0 = self@;
        let tracked_now = self.tracker.get_state();
        proof {
            if obeys_concrete_eq::<T::State>() {
                reveal(vstd::laws_eq::obeys_concrete_eq);
            }
        }
        if images_equal(pressed_now, &self.current) && tracked_now == self.last_stable_tracked {
            self.since = 0;
            proof {
                if obeys_concrete_eq::<T::State>() {
                    let (v2, ch) = v0.step(pressed_now@, tracked_now);
                    assert(v0.quiescent(pressed_now@, tracked_now));
                    assert(final(self)@ =~~= v2);
                }
            }
            return false;
        }
        if !images_equal(&self.new, pressed_now) || !(self.last_tracked == tracked_now) {
            set_image(&mut self.new, pressed_now);
            self.last_tracked = tracked_now;
            self.since = 1;
        } else {
            self.since = self.since + 1;
        }
        if self.since > self.threshold {
            core::mem::swap(&mut self.current, &mut self.new);
            core::mem::swap(&mut self.last_stable_tracked, &mut self.last_tracked);
            self.since = 0;
            proof {
                if obeys_concrete_eq::<T::State>() {
                    let (v2, ch) = v0.step(pressed_now@, tracked_now);
                    assert(final(self)@ =~~= v2);
                }
            }
            true
        } else {
            proof {
                if obeys_concrete_eq::<T::State>() {
                    let (v2, ch) = v0.step(pressed_now@, tracked_now);
                    assert(final(self)@ =~~= v2);
                }
            }
            false
        }
    }

    /// Feed one sampled image; if the stable image changes, return the
    /// press and release events of the change — exactly the row-major
    /// bitwise difference of the old and new stable images, followed by
    /// whatever event the tracker assigns to its own stable transition.
    ///
    /// Where the snapshot type's equality means equality, a change (and so
    /// `Some`) is returned exactly when the debounce commits, per
    /// [`DebounceView::step`] on the existentially bound sampled snapshot.
    pub fn scan(&mut self, pressed_now: &Vec<u32>) -> (r: Option<Vec<Event>>)
        requires
            old(self)@.wf(),
            pressed_now@.len() == old(self)@.current.len(),
        ensures
            final(self)@.wf(),
            final(self)@.threshold == old(self)@.threshold,
            final(self)@.tracker == old(self)@.tracker,
            final(self)@.current.len() == old(self)@.current.len(),
            obeys_concrete_eq::<T::State>() ==> exists|t: T::State|
                #![trigger old(self)@.step(pressed_now@, t)]
                {
                    let (v2, ch) = old(self)@.step(pressed_now@, t);
                    &&& old(self)@.tracker.may_sample(t)
                    &&& final(self)@ == v2
                    &&& (r is Some <==> ch)
                },
            r is None ==> final(self)@.current == old(self)@.current,
            match r {
                Some(events) => {
                    &&& final(self)@.current == pressed_now@
                    &&& final(self)@.candidate == old(self)@.current
                    &&& events@ == diff_events(old(self)@.current, pressed_now@) + opt_event_seq(
                        old(self)@.tracker.spec_emit_event(
                            final(self)@.candidate_tracked,
                            final(self)@.stable_tracked,
                        ),
                    )
                },
                None => true,
            },
    {
        if self.update(pressed_now) {
            let mut events: Vec<Event> = Vec::new();
            let rows = self.current.len();
            proof {
                assert(events@ + diff_from(self.new@, self.current@, 0) =~= diff_events(
                    self.new@,
                    self.current@,
                ));
            }
            for ri in 0..rows
                invariant
                    rows == self.current@.len(),
                    self@.wf(),
                    events@ + diff_from(self.new@, self.current@, ri as int) == diff_events(
                        self.new@,
                        self.current@,
                    ),
            {
                let o = self.new[ri];
                let n = self.current[ri];
                proof {
                    assert(events@ + row_diff_from(o, n, ri as u8, 0) + diff_from(
                        self.new@,
                        self.current@,
                        ri as int + 1,
                    ) =~= events@ + diff_from(self.new@, self.current@, ri as int));
                }
                let mut b: u32 = 0;
                while b < 32
                    invariant
                        0 <= b <= 32,
                        rows == self.current@.len(),
                        self@.wf(),
                        ri < rows,
                        o == self.new@[ri as int],
                        n == self.current@[ri as int],
                        events@ + row_diff_from(o, n, ri as u8, b) + diff_from(
                            self.new@,
                            self.current@,
                            ri as int + 1,
                        ) == diff_events(self.new@, self.current@),
                    decreases 32 - b,
                {
                    let obit = o & (1u32 << b) != 0;
                    let nbit = n & (1u32 << b) != 0;
                    if !obit && nbit {
                        events.push(Event::Press(ri as u8, b as u8));
                    } else if obit && !nbit {
                        events.push(Event::Release(ri as u8, b as u8));
                    }
                    proof {
                        assert(events@ + row_diff_from(o, n, ri as u8, (b + 1) as u32) + diff_from(
                            self.new@,
                            self.current@,
                            ri as int + 1,
                        ) =~= diff_events(self.new@, self.current@));
                    }
                    b = b + 1;
                }
                proof {
                    assert(events@ + diff_from(self.new@, self.current@, ri as int + 1)
                        =~= diff_events(self.new@, self.current@));
                }
            }
            proof {
                assert(events@ + diff_from(self.new@, self.current@, rows as int) =~= events@);
                assert(events@ =~= diff_events(self.new@, self.current@));
            }
            match self.tracker.emit_event(&self.last_tracked, &self.last_stable_tracked) {
                Some(e) => {
                    events.push(e);
                    proof {
                        assert(events@ =~= diff_events(self.new@, self.current@) + opt_event_seq(
                            Some(e),
                        ));
                    }
                },
                None => {
                    proof {
                        assert(events@ =~= diff_events(self.new@, self.current@) + opt_event_seq(
                            None,
                        ));
                    }
                },
            }
            Some(events)
        } else {
            None
        }
    }
}

/// Whether two images are equal, element for element.
fn images_equal(a: &Vec<u32>, b: &Vec<u32>) -> (r: bool)
    ensures
        r == (a@ == b@),
{
    if a.len() != b.len() {
        return false;
    }
    for i in 0..a.len()
        invariant
            a@.len() == b@.len(),
            forall|j: int| 0 <= j < i ==> a@[j] == b@[j],
    {
        if a[i] != b[i] {
            return false;
        }
    }
    proof {
        assert(a@ =~= b@);
    }
    true
}

/// Overwrite `dst` with a copy of `src`.
fn set_image(dst: &mut Vec<u32>, src: &Vec<u32>)
    ensures
        final(dst)@ == src@,
{
    dst.clear();
    for i in 0..src.len()
        invariant
            dst@ == src@.take(i as int),
    {
        dst.push(src[i]);
        proof {
            assert(dst@ =~= src@.take(i + 1 as int));
        }
    }
    proof {
        assert(dst@ =~= src@);
    }
}

} // verus!
