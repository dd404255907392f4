//! When a surface renders.
//!
//! Damage marks a surface dirty; a dirty surface is rendered when its wake
//! fires. The wake is a single-shot signal: signalling it while it is
//! signalled does nothing, so that any number of invalidations between two
//! frames cost one frame.

use vstd::prelude::*;

verus! {

/// A single-shot wake: signalled or not, however often it was signalled.
#[derive(Clone, Copy, Debug, PartialEq, Eq, Structural)]
pub struct Ping {
    pub signalled: bool,
}

/// The scheduling state of one surface.
#[derive(Clone, Copy, Debug, PartialEq, Eq, Structural)]
pub struct FrameScheduler {
    /// A render is owed.
    pub dirty: bool,
    /// A frame is under way: its wake is scheduled, or its presentation has
    /// not completed yet.
    pub pending: bool,
    /// The wake of the surface.
    pub wake: Ping,
}

/// What can happen to the scheduling state of a surface.
#[derive(Clone, Copy, Debug, PartialEq, Eq, Structural)]
pub enum SchedEvent {
    /// The content of the surface changed.
    MarkDirty,
    /// The wake fired and a render was attempted.
    Wake,
    /// The display server is done with the last frame.
    PresentationComplete,
}

impl Ping {
    /// The wake after a signal.
    pub open spec fn signal(self) -> Ping {
        Ping { signalled: true }
    }

    /// Whether a signal now schedules a wake that was not scheduled yet.
    pub open spec fn arms(self) -> bool {
        !self.signalled
    }

    /// A wake that nobody has signalled.
    pub fn new() -> (ping: Ping)
        ensures
            !ping.signalled,
    {
        Ping { signalled: false }
    }

    /// Signals the wake. Returns whether this scheduled it: `false` means it
    /// was scheduled already and the signal changed nothing.
    pub fn ping(&mut self) -> (armed: bool)
        ensures
            *final(self) == old(self).signal(),
            armed == old(self).arms(),
    {
        let armed = !self.signalled;
        self.signalled = true;
        armed
    }

    /// Takes the signal away, as the event loop does when it delivers the
    /// wake. Returns whether there was one.
    pub fn take(&mut self) -> (fired: bool)
        ensures
            !final(self).signalled,
            fired == old(self).signalled,
    {
        let fired = self.signalled;
        self.signalled = false;
        fired
    }
}

impl FrameScheduler {
    /// The state of a surface that was just created: nothing is dirty, and the
    /// first frame is scheduled all the same.
    pub open spec fn created() -> FrameScheduler {
        FrameScheduler { dirty: false, pending: true, wake: Ping { signalled: true } }
    }

    /// Nothing owed, nothing under way.
    pub open spec fn is_idle(self) -> bool {
        !self.dirty && !self.pending
    }

    /// A render is owed and on its way.
    pub open spec fn is_scheduled(self) -> bool {
        self.dirty && self.pending
    }

    /// The state after damage: dirty, and a wake is scheduled unless a frame
    /// is under way already.
    pub open spec fn marked_dirty(self) -> FrameScheduler {
        FrameScheduler {
            dirty: true,
            pending: true,
            wake: if self.pending {
                self.wake
            } else {
                self.wake.signal()
            },
        }
    }

    /// The state once the event loop has taken the signal to deliver the wake.
    pub open spec fn wake_taken(self) -> FrameScheduler {
        FrameScheduler { wake: Ping { signalled: false }, ..self }
    }

    /// The state after a render attempt, however it ended: nothing is owed,
    /// and the frame counts as under way until its presentation completes.
    pub open spec fn frame_attempted(self) -> FrameScheduler {
        FrameScheduler { dirty: false, pending: true, ..self }
    }

    /// The state after the display server is done with a frame: with new damage
    /// the next wake is scheduled at once, without it the surface is idle.
    pub open spec fn presentation_completed(self) -> FrameScheduler {
        if self.dirty {
            FrameScheduler { wake: self.wake.signal(), ..self }
        } else {
            FrameScheduler { pending: false, ..self }
        }
    }

    /// The state after `event`.
    pub open spec fn step(self, event: SchedEvent) -> FrameScheduler {
        match event {
            SchedEvent::MarkDirty => self.marked_dirty(),
            SchedEvent::Wake => self.wake_taken().frame_attempted(),
            SchedEvent::PresentationComplete => self.presentation_completed(),
        }
    }

    /// Whether `event` schedules a wake that was not scheduled before it.
    pub open spec fn arms(self, event: SchedEvent) -> bool {
        !self.wake.signalled && self.step(event).wake.signalled
    }

    /// The state after the events in `trace`, first to last.
    pub open spec fn run(self, trace: Seq<SchedEvent>) -> FrameScheduler
        decreases trace.len(),
    {
        if trace.len() == 0 {
            self
        } else {
            self.run(trace.drop_last()).step(trace.last())
        }
    }

    /// How many wakes the events in `trace` schedule.
    pub open spec fn wakes_armed(self, trace: Seq<SchedEvent>) -> nat
        decreases trace.len(),
    {
        if trace.len() == 0 {
            0
        } else {
            let before = self.wakes_armed(trace.drop_last());
            if self.run(trace.drop_last()).arms(trace.last()) {
                before + 1
            } else {
                before
            }
        }
    }

    /// A dirty surface has a frame under way.
    pub open spec fn inv(self) -> bool {
        self.dirty ==> self.pending
    }

    /// The state of a surface that was just created.
    pub fn new() -> (scheduler: FrameScheduler)
        ensures
            scheduler == FrameScheduler::created(),
    {
        FrameScheduler { dirty: false, pending: true, wake: Ping { signalled: true } }
    }

    /// Records damage. Returns whether the caller has to signal the wake: only
    /// the first of a run of invalidations schedules one.
    pub fn mark_dirty(&mut self) -> (armed: bool)
        ensures
            *final(self) == old(self).marked_dirty(),
            armed == old(self).arms(SchedEvent::MarkDirty),
    {
        self.dirty = true;
        if !self.pending {
            self.pending = true;
            self.wake.ping()
        } else {
            false
        }
    }

    /// The wake fired: its signal is gone.
    pub fn take_wake(&mut self) -> (fired: bool)
        ensures
            *final(self) == old(self).wake_taken(),
            fired == old(self).wake.signalled,
    {
        self.wake.take()
    }

    /// A render was attempted: nothing is owed any more, whether it succeeded
    /// or not, and the frame stays under way.
    pub fn finish_frame(&mut self)
        ensures
            *final(self) == old(self).frame_attempted(),
    {
        self.dirty = false;
        self.pending = true;
    }

    /// The display server is done with a frame. Returns whether the caller has
    /// to signal the wake for the damage that came in meanwhile.
    pub fn on_presentation_complete(&mut self) -> (armed: bool)
        ensures
            *final(self) == old(self).presentation_completed(),
            armed == old(self).arms(SchedEvent::PresentationComplete),
    {
        if self.dirty {
            self.wake.ping()
        } else {
            self.pending = false;
            false
        }
    }
}

/// No event in `trace` is a wake.
pub open spec fn no_wake(trace: Seq<SchedEvent>) -> bool {
    forall|i: int| 0 <= i < trace.len() ==> #[trigger] trace[i] != SchedEvent::Wake
}

/// Every event in `trace` is the completion of a presentation.
pub open spec fn only_completions(trace: Seq<SchedEvent>) -> bool {
    forall|i: int| 0 <= i < trace.len() ==> #[trigger] trace[i] == SchedEvent::PresentationComplete
}

/// Some event in `trace` is damage.
pub open spec fn has_damage(trace: Seq<SchedEvent>) -> bool {
    exists|i: int| 0 <= i < trace.len() && #[trigger] trace[i] == SchedEvent::MarkDirty
}

/// `n` invalidations one after the other.
pub open spec fn damage_burst(n: nat) -> Seq<SchedEvent> {
    Seq::new(n, |i: int| SchedEvent::MarkDirty)
}

/// A dirty surface has a frame under way: this holds when a surface is created
/// and after every event.
pub proof fn lemma_inv_holds(state: FrameScheduler, event: SchedEvent)
    ensures
        FrameScheduler::created().inv(),
        state.inv() ==> state.step(event).inv(),
        state.step(SchedEvent::MarkDirty).is_scheduled(),
        state.is_idle() ==> state.arms(SchedEvent::MarkDirty) == !state.wake.signalled,
{
}

/// A run of invalidations schedules at most one wake, and schedules one only
/// if no frame was under way and none was scheduled; the surface ends up as
/// after a single invalidation.
pub proof fn lemma_mark_dirty_coalesces(state: FrameScheduler, n: nat)
    requires
        n >= 1,
    ensures
        state.run(damage_burst(n)) == state.marked_dirty(),
        state.wakes_armed(damage_burst(n)) == (if !state.pending && !state.wake.signalled {
            1nat
        } else {
            0nat
        }),
        state.wakes_armed(damage_burst(n)) <= 1,
    decreases n,
{
    let burst = damage_burst(n);
    let before = damage_burst((n - 1) as nat);
    assert(burst.drop_last() =~= before);
    assert(burst.last() == SchedEvent::MarkDirty);
    if n == 1 {
        assert(before.len() == 0);
        assert(state.run(before) == state);
        assert(state.wakes_armed(before) == 0);
    } else {
        lemma_mark_dirty_coalesces(state, (n - 1) as nat);
    }
}

/// Between two wakes at most one wake is scheduled, whatever damage and
/// completions come in; and one is scheduled exactly if the wake is signalled
/// at the end and was not at the start.
pub proof fn lemma_wakes_coalesce(state: FrameScheduler, trace: Seq<SchedEvent>)
    requires
        no_wake(trace),
    ensures
        state.wakes_armed(trace) <= 1,
        state.wakes_armed(trace) == 1 <==> !state.wake.signalled && state.run(
            trace,
        ).wake.signalled,
        state.wake.signalled ==> state.run(trace).wake.signalled,
    decreases trace.len(),
{
    if trace.len() > 0 {
        let before = trace.drop_last();
        assert(no_wake(before)) by {
            assert forall|i: int| 0 <= i < before.len() implies #[trigger] before[i]
                != SchedEvent::Wake by {
                assert(before[i] == trace[i]);
            }
        }
        lemma_wakes_coalesce(state, before);
        assert(trace.last() == trace[trace.len() - 1]);
    }
}

/// Damage is not lost: after any events that hold damage and no wake, the
/// surface is dirty with a frame under way, and its wake is signalled now or
/// will be when the presentation under way completes.
pub proof fn lemma_damage_is_rendered(state: FrameScheduler, trace: Seq<SchedEvent>)
    requires
        no_wake(trace),
        has_damage(trace),
    ensures
        state.run(trace).is_scheduled(),
        state.run(trace).wake.signalled || state.run(trace).step(
            SchedEvent::PresentationComplete,
        ).wake.signalled,
    decreases trace.len(),
{
    let before = trace.drop_last();
    let k = choose|i: int| 0 <= i < trace.len() && #[trigger] trace[i] == SchedEvent::MarkDirty;
    assert(trace.last() == trace[trace.len() - 1]);
    if trace.last() != SchedEvent::MarkDirty {
        assert(k < before.len());
        assert(before[k] == trace[k]);
        assert(no_wake(before)) by {
            assert forall|i: int| 0 <= i < before.len() implies #[trigger] before[i]
                != SchedEvent::Wake by {
                assert(before[i] == trace[i]);
            }
        }
        lemma_damage_is_rendered(state, before);
    }
}

/// After a wake nothing is owed and no wake is scheduled, and completions
/// alone schedule none: what was absorbed before the wake is not rendered a
/// second time.
pub proof fn lemma_wake_settles(state: FrameScheduler, after: Seq<SchedEvent>)
    requires
        only_completions(after),
    ensures
        !state.step(SchedEvent::Wake).dirty,
        !state.step(SchedEvent::Wake).wake.signalled,
        !state.step(SchedEvent::Wake).run(after).dirty,
        !state.step(SchedEvent::Wake).run(after).wake.signalled,
        state.step(SchedEvent::Wake).wakes_armed(after) == 0,
        after.len() > 0 ==> state.step(SchedEvent::Wake).run(after).is_idle(),
    decreases after.len(),
{
    if after.len() > 0 {
        let before = after.drop_last();
        assert(only_completions(before)) by {
            assert forall|i: int| 0 <= i < before.len() implies #[trigger] before[i]
                == SchedEvent::PresentationComplete by {
                assert(before[i] == after[i]);
            }
        }
        lemma_wake_settles(state, before);
        assert(after.last() == after[after.len() - 1]);
    }
}

/// Any damage that comes in between two wakes, in any number of invalidations
/// and mixed with completions in any way, is answered by exactly one render:
/// it schedules at most one wake, the surface stays due for a frame until
/// that wake fires, and once it has fired nothing is owed and nothing is
/// scheduled until there is damage again.
pub proof fn lemma_one_render_per_burst(
    state: FrameScheduler,
    burst: Seq<SchedEvent>,
    after: Seq<SchedEvent>,
)
    requires
        no_wake(burst),
        has_damage(burst),
        only_completions(after),
    ensures
        state.wakes_armed(burst) <= 1,
        state.run(burst).is_scheduled(),
        state.run(burst).wake.signalled || state.run(burst).step(
            SchedEvent::PresentationComplete,
        ).wake.signalled,
        !state.run(burst).step(SchedEvent::Wake).run(after).dirty,
        !state.run(burst).step(SchedEvent::Wake).run(after).wake.signalled,
        state.run(burst).step(SchedEvent::Wake).wakes_armed(after) == 0,
{
    lemma_wakes_coalesce(state, burst);
    lemma_damage_is_rendered(state, burst);
    lemma_wake_settles(state.run(burst), after);
}

} // verus!
