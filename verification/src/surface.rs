//! One render surface: a window, the output shown in it, and the frames
//! rendered to it.
//!
//! A render attempt is carried out by the caller: it acquires a buffer,
//! composes what is stale for the age of that buffer, and submits. What the
//! attempt came to is reported to [`Surface::render_output`], which says what
//! follows from it.

use crate::error::Error;
use crate::geometry::{Point, Rect, Size, WindowSize};
use crate::output::{
    lemma_modes_without_step, Mode, Output, OutputConfig, OutputView, PhysicalProperties, Subpixel,
    Transform,
};
use crate::scheduler::{FrameScheduler, SchedEvent};
use vstd::prelude::*;
use vstd::string::StringExecFns;

verus! {

/// Refresh rate of the one mode of a window's output, in millihertz.
pub const REFRESH: i32 = 60_000;

/// A window of the host display server, as far as the backend looks at it.
#[derive(Clone, Copy, Debug, PartialEq, Eq, Structural)]
pub struct Window {
    /// The identifier the display server gave to the window.
    pub id: u32,
    pub size: WindowSize,
    /// Code of the pixel format that the window presents.
    pub format: u32,
}

/// A pixel format together with one memory layout it can be stored in.
#[derive(Clone, Copy, Debug, PartialEq, Eq, Structural)]
pub struct Format {
    pub code: u32,
    pub modifier: u64,
}

/// A colour transformation for users who cannot tell some colours apart.
#[derive(Clone, Copy, Debug, PartialEq, Eq, Structural)]
pub enum ColorFilter {
    Greyscale,
    Protanopia,
    Deuteranopia,
    Tritanopia,
}

/// What is done to every frame before it is shown.
#[derive(Clone, Copy, Debug, PartialEq, Eq, Structural)]
pub struct ScreenFilter {
    pub inverted: bool,
    pub color_filter: Option<ColorFilter>,
}

/// How far a render attempt got.
#[derive(Debug)]
pub enum FrameAttempt {
    /// No buffer could be acquired.
    AcquireFailed,
    /// The buffer could not be bound as a render target.
    BindFailed,
    /// Composition failed.
    CompositionFailed,
    /// The composed buffer could not be submitted.
    SubmissionFailed,
    /// The frame was composed and submitted; `damage` is what composition
    /// had to redraw.
    Submitted { damage: Vec<Rect> },
}

/// The refresh rate that a presentation is reported with.
#[derive(Clone, Copy, Debug, PartialEq, Eq, Structural)]
pub enum Refresh {
    /// The output has no mode to take a rate from.
    Unknown,
    /// The rate of the current mode: a frame lasts 1000 / `millihertz` seconds.
    Fixed { millihertz: i32 },
}

/// How a frame was presented.
#[derive(Clone, Copy, Debug, PartialEq, Eq, Structural)]
pub struct FeedbackKind {
    pub vsync: bool,
    pub hw_clock: bool,
    pub hw_completion: bool,
    pub zero_copy: bool,
}

/// The record sent to every client that asked when its content was shown.
#[derive(Clone, Copy, Debug, PartialEq, Eq, Structural)]
pub struct PresentationFeedback {
    /// The output the frame was shown on.
    pub output: u64,
    /// When the frame was presented, on the clock of the session.
    pub presented_at: u64,
    pub refresh: Refresh,
    /// Counter of the presentation; the backend has none and reports 0.
    pub sequence: u64,
    pub kind: FeedbackKind,
}

/// What the caller has to do after a render attempt.
#[derive(Clone, Copy, Debug, PartialEq, Eq, Structural)]
pub enum FrameAction {
    /// Discard the buffers of the surface, so that the next one is fresh.
    ResetBuffers,
    /// Tell the clients shown on the output that a frame was sent.
    SendFrames(u64),
    /// Let the session reconsider which output is its primary one.
    UpdatePrimaryOutput(u64),
    /// Tell the clients shown on the output which buffer formats suit it.
    SendDmabufFeedback(u64),
    /// Deliver the record to the clients that asked for one.
    Presented(PresentationFeedback),
}

/// What follows from a render attempt.
#[derive(Debug)]
pub struct FrameReport {
    /// What the caller has to do, in this order.
    pub actions: Vec<FrameAction>,
    /// Whether a frame was shown, and if not, why.
    pub result: Result<(), Error>,
}

/// What became of a request to resize.
#[derive(Clone, Copy, Debug, PartialEq, Eq, Structural)]
pub struct Resized {
    /// The output has a new mode; `false` means the size was the current one
    /// and nothing happened.
    pub changed: bool,
    /// The caller has to signal the wake of the surface.
    pub wake: bool,
}

impl ScreenFilter {
    /// Frames are shown as they are.
    pub open spec fn off() -> ScreenFilter {
        ScreenFilter { inverted: false, color_filter: None }
    }
}

impl FrameAttempt {
    /// The attempt put a frame on the screen.
    pub open spec fn shown(self) -> bool {
        self is Submitted
    }

    /// The attempt put a frame on the screen and had something to redraw.
    pub open spec fn has_damage(self) -> bool {
        self matches FrameAttempt::Submitted { damage } && damage@.len() > 0
    }

    /// The attempt ended before a buffer was ready.
    pub open spec fn failed_to_allocate(self) -> bool {
        self is AcquireFailed || self is BindFailed
    }

    /// The attempt ended in composition or submission.
    pub open spec fn failed_to_render(self) -> bool {
        self is CompositionFailed || self is SubmissionFailed
    }

    /// What the attempt came to.
    pub open spec fn result(self) -> Result<(), Error> {
        match self {
            FrameAttempt::AcquireFailed => Err(Error::BufferUnavailable),
            FrameAttempt::BindFailed => Err(Error::BindFailed),
            FrameAttempt::CompositionFailed => Err(Error::RenderFailed),
            FrameAttempt::SubmissionFailed => Err(Error::SubmitFailed),
            FrameAttempt::Submitted { .. } => Ok(()),
        }
    }
}

/// Whether a presentation record is among `actions`.
pub open spec fn delivers_feedback(actions: Seq<FrameAction>) -> bool {
    exists|i: int| 0 <= i < actions.len() && #[trigger] actions[i] is Presented
}

/// Whether the buffers are to be discarded according to `actions`.
pub open spec fn resets_buffers(actions: Seq<FrameAction>) -> bool {
    exists|i: int| 0 <= i < actions.len() && #[trigger] actions[i] == FrameAction::ResetBuffers
}

/// Model of a [`Surface`].
pub struct SurfaceView {
    pub window: Window,
    pub output: OutputView,
    pub config: OutputConfig,
    pub scheduler: FrameScheduler,
    /// How many frames in a row the damage history covers: 0 after creation,
    /// after a change of mode and after a failed render.
    pub age: u32,
    pub screen_filter: ScreenFilter,
}

/// The mode of an output shown in a window of size `size`.
pub open spec fn window_mode(size: WindowSize) -> Mode {
    Mode { size: size.pixels(), refresh: REFRESH }
}

impl SurfaceView {
    /// The surface of a window that was just mapped, showing output `id`.
    pub open spec fn created(window: Window, id: u64, name: Seq<char>) -> SurfaceView {
        SurfaceView {
            window,
            output: OutputView {
                id,
                name,
                physical_size: Size { w: 0, h: 0 },
                subpixel: Subpixel::Unknown,
                make: "COSMIC"@,
                model: name,
                modes: seq![window_mode(window.size)],
                current_mode: Some(window_mode(window.size)),
                preferred_mode: Some(window_mode(window.size)),
                transform: Transform::Normal,
                scale: 1,
                location: Point { x: 0, y: 0 },
            },
            config: OutputConfig { mode_size: window.size.pixels(), mode_refresh: None },
            scheduler: FrameScheduler::created(),
            age: 0,
            screen_filter: ScreenFilter::off(),
        }
    }

    /// The output runs at the size of the window, and at nothing else.
    pub open spec fn wf(self) -> bool {
        self.output.runs_only(window_mode(self.window.size))
    }

    /// The age to compose at for a buffer of age `buffer_age`: a buffer that
    /// is older than the damage history reaches is composed in full, as a
    /// fresh one is.
    pub open spec fn composition_age(self, buffer_age: u8) -> u32 {
        if buffer_age as u32 <= self.age {
            buffer_age as u32
        } else {
            0
        }
    }

    /// The rate that a presentation on this surface is reported with.
    pub open spec fn refresh(self) -> Refresh {
        match self.output.current_mode {
            Some(mode) => Refresh::Fixed { millihertz: mode.refresh },
            None => Refresh::Unknown,
        }
    }

    /// The record of a presentation at `now`.
    pub open spec fn feedback(self, now: u64) -> PresentationFeedback {
        PresentationFeedback {
            output: self.output.id,
            presented_at: now,
            refresh: self.refresh(),
            sequence: 0,
            kind: FeedbackKind { vsync: true, hw_clock: false, hw_completion: false, zero_copy: false },
        }
    }

    /// What the caller has to do after `attempt`.
    pub open spec fn frame_actions(self, attempt: FrameAttempt, now: u64) -> Seq<FrameAction> {
        if attempt.failed_to_allocate() {
            Seq::empty()
        } else if attempt.failed_to_render() {
            seq![FrameAction::ResetBuffers]
        } else {
            let sent = seq![
                FrameAction::SendFrames(self.output.id),
                FrameAction::UpdatePrimaryOutput(self.output.id),
                FrameAction::SendDmabufFeedback(self.output.id),
            ];
            if attempt.has_damage() {
                sent.push(FrameAction::Presented(self.feedback(now)))
            } else {
                sent
            }
        }
    }

    /// The surface after `attempt`: a frame that was shown extends the damage
    /// history, a failed render empties it, and a failure to get a buffer
    /// leaves it alone.
    pub open spec fn rendered(self, attempt: FrameAttempt) -> SurfaceView {
        SurfaceView {
            age: if attempt.failed_to_allocate() {
                self.age
            } else if attempt.failed_to_render() {
                0
            } else if self.age < u32::MAX {
                (self.age + 1) as u32
            } else {
                self.age
            },
            ..self
        }
    }

    /// The surface after the scheduling event `event`.
    pub open spec fn scheduled(self, event: SchedEvent) -> SurfaceView {
        SurfaceView { scheduler: self.scheduler.step(event), ..self }
    }

    /// The surface after its wake fired and the render attempt came to
    /// `attempt`.
    pub open spec fn woken(self, attempt: FrameAttempt) -> SurfaceView {
        self.rendered(attempt).scheduled(SchedEvent::Wake)
    }

    /// The surface after the scheduling events in `trace`, first to last.
    pub open spec fn scheduled_all(self, trace: Seq<SchedEvent>) -> SurfaceView {
        SurfaceView { scheduler: self.scheduler.run(trace), ..self }
    }

    /// The surface after its window was resized to `size`: nothing changes if
    /// the output runs at that size already; otherwise the output runs at the
    /// new size only, the damage history is void, and the surface is dirty.
    pub open spec fn resized(self, size: WindowSize) -> SurfaceView {
        if self.output.current_mode matches Some(mode) && mode.size == size.pixels() {
            self
        } else {
            SurfaceView {
                window: Window { size, ..self.window },
                output: self.remoded(window_mode(size)),
                config: OutputConfig { mode_size: size.pixels(), ..self.config },
                scheduler: self.scheduler.marked_dirty(),
                age: 0,
                ..self
            }
        }
    }

    /// The output of the surface with `mode` in place of its current mode.
    pub open spec fn remoded(self, mode: Mode) -> OutputView {
        let dropped = match self.output.current_mode {
            Some(current) => self.output.without_mode(current),
            None => self.output,
        };
        dropped.with_state(Some(mode), None, None, None).with_preferred(mode)
    }
}

/// A surface registered with the backend.
#[derive(Debug)]
pub struct Surface {
    window: Window,
    output: Output,
    config: OutputConfig,
    scheduler: FrameScheduler,
    age: u32,
    screen_filter: ScreenFilter,
}

impl View for Surface {
    type V = SurfaceView;

    closed spec fn view(&self) -> SurfaceView {
        SurfaceView {
            window: self.window,
            output: self.output@,
            config: self.config,
            scheduler: self.scheduler,
            age: self.age,
            screen_filter: self.screen_filter,
        }
    }
}

/// The memory layouts in `formats` that go with the pixel format `fourcc`, in
/// the order they are listed.
pub open spec fn modifiers_for(formats: Seq<Format>, fourcc: u32) -> Seq<u64> {
    formats.filter_map(
        |format: Format|
            if format.code == fourcc {
                Some(format.modifier)
            } else {
                None
            },
    )
}

/// How [`modifiers_for`] goes through a list from its end.
pub proof fn lemma_modifiers_for_step(formats: Seq<Format>, fourcc: u32)
    ensures
        formats.len() == 0 ==> modifiers_for(formats, fourcc) == Seq::<u64>::empty(),
        formats.len() > 0 ==> modifiers_for(formats, fourcc) == if formats.last().code == fourcc {
            modifiers_for(formats.drop_last(), fourcc).push(formats.last().modifier)
        } else {
            modifiers_for(formats.drop_last(), fourcc)
        },
{
    reveal(Seq::filter_map);
    if formats.len() > 0 && formats.last().code == fourcc {
        let rest = modifiers_for(formats.drop_last(), fourcc);
        assert(rest + seq![formats.last().modifier] =~= rest.push(formats.last().modifier));
    }
}

/// Picks the memory layouts that a surface for a window of pixel format
/// `fourcc` can be created with, out of those that the renderer supports.
pub fn negotiate_modifiers(formats: &Vec<Format>, fourcc: u32) -> (modifiers: Vec<u64>)
    ensures
        modifiers@ == modifiers_for(formats@, fourcc),
{
    let mut modifiers: Vec<u64> = Vec::new();
    let mut i: usize = 0;
    proof {
        lemma_modifiers_for_step(formats@.take(0), fourcc);
    }
    while i < formats.len()
        invariant
            i <= formats@.len(),
            modifiers@ == modifiers_for(formats@.take(i as int), fourcc),
        decreases formats@.len() - i,
    {
        proof {
            lemma_modifiers_for_step(formats@.take(i + 1), fourcc);
            assert(formats@.take(i + 1).drop_last() =~= formats@.take(i as int));
        }
        if formats[i].code == fourcc {
            modifiers.push(formats[i].modifier);
        }
        i = i + 1;
    }
    proof {
        assert(formats@.take(formats@.len() as int) =~= formats@);
    }
    modifiers
}

impl Surface {
    /// The surface of the window `window`, which was just mapped, showing a new
    /// output `id` named `name`. The output runs at the size of the window and
    /// at 60 Hz; the first frame is scheduled.
    pub fn new(window: Window, id: u64, name: String) -> (surface: Surface)
        ensures
            surface@ == SurfaceView::created(window, id, name@),
            surface@.wf(),
    {
        let size = window.size.to_size();
        let physical = PhysicalProperties {
            size: Size { w: 0, h: 0 },
            subpixel: Subpixel::Unknown,
            make: String::from_str("COSMIC"),
            model: name.clone(),
        };
        let mode = Mode { size, refresh: REFRESH };
        let mut output = Output::new(id, name, physical);
        output.add_mode(mode);
        output.set_preferred(mode);
        output.change_current_state(
            Some(mode),
            Some(Transform::Normal),
            Some(1),
            Some(Point { x: 0, y: 0 }),
        );
        proof {
            let empty = Seq::<Mode>::empty();
            assert(!empty.contains(mode));
            assert(empty.push(mode) =~= seq![mode]);
            assert(seq![mode][0] == mode);
            assert(seq![mode].contains(mode));
        }
        Surface {
            window,
            output,
            config: OutputConfig { mode_size: size, mode_refresh: None },
            scheduler: FrameScheduler::new(),
            age: 0,
            screen_filter: ScreenFilter { inverted: false, color_filter: None },
        }
    }

    /// The window of the surface.
    pub fn window(&self) -> (window: Window)
        ensures
            window == self@.window,
    {
        self.window
    }

    /// The output shown on the surface.
    pub fn output(&self) -> (output: &Output)
        ensures
            output@ == self@.output,
    {
        &self.output
    }

    /// Gives up the surface for the output it showed.
    pub fn into_output(self) -> (output: Output)
        ensures
            output@ == self@.output,
    {
        self.output
    }

    /// The settings kept for the output.
    pub fn config(&self) -> (config: OutputConfig)
        ensures
            config == self@.config,
    {
        self.config
    }

    /// Whether a render is owed.
    pub fn is_dirty(&self) -> (dirty: bool)
        ensures
            dirty == self@.scheduler.dirty,
    {
        self.scheduler.dirty
    }

    /// Whether a frame is under way.
    pub fn is_pending(&self) -> (pending: bool)
        ensures
            pending == self@.scheduler.pending,
    {
        self.scheduler.pending
    }

    /// The scheduling state of the surface.
    pub fn scheduler(&self) -> (scheduler: FrameScheduler)
        ensures
            scheduler == self@.scheduler,
    {
        self.scheduler
    }

    /// How many frames in a row the damage history covers.
    pub fn age(&self) -> (age: u32)
        ensures
            age == self@.age,
    {
        self.age
    }

    /// The filter applied to the frames of the surface.
    pub fn screen_filter(&self) -> (filter: ScreenFilter)
        ensures
            filter == self@.screen_filter,
    {
        self.screen_filter
    }

    /// Replaces the settings kept for the output.
    pub fn set_config(&mut self, config: OutputConfig)
        ensures
            final(self)@ == (SurfaceView { config, ..old(self)@ }),
    {
        self.config = config;
    }

    /// Replaces the filter applied to the frames of the surface.
    pub fn set_screen_filter(&mut self, filter: ScreenFilter)
        ensures
            final(self)@ == (SurfaceView { screen_filter: filter, ..old(self)@ }),
    {
        self.screen_filter = filter;
    }

    /// Records damage. Returns whether the caller has to signal the wake.
    pub fn mark_dirty(&mut self) -> (armed: bool)
        ensures
            final(self)@ == old(self)@.scheduled(SchedEvent::MarkDirty),
            armed == old(self)@.scheduler.arms(SchedEvent::MarkDirty),
    {
        self.scheduler.mark_dirty()
    }

    /// The display server is done with a frame. Returns whether the caller has
    /// to signal the wake for damage that came in meanwhile.
    pub fn on_presentation_complete(&mut self) -> (armed: bool)
        ensures
            final(self)@ == old(self)@.scheduled(SchedEvent::PresentationComplete),
            armed == old(self)@.scheduler.arms(SchedEvent::PresentationComplete),
    {
        self.scheduler.on_presentation_complete()
    }

    /// The age at which the caller composes into a buffer of age
    /// `buffer_age`: 0 asks for the whole frame.
    pub fn composition_age(&self, buffer_age: u8) -> (age: u32)
        ensures
            age == self@.composition_age(buffer_age),
    {
        if buffer_age as u32 <= self.age {
            buffer_age as u32
        } else {
            0
        }
    }

    /// Takes the outcome of one render attempt, at time `now`.
    ///
    /// A frame that was shown is announced to the clients of the output, and
    /// its presentation is reported if and only if something was redrawn. A
    /// render that failed has the buffers discarded, so that the next frame
    /// is composed in full. A buffer that could not be had leaves everything
    /// as it is for the next wake. No failure goes further than the returned
    /// report.
    pub fn render_output(&mut self, attempt: &FrameAttempt, now: u64) -> (report: FrameReport)
        ensures
            final(self)@ == old(self)@.rendered(*attempt),
            report.actions@ == old(self)@.frame_actions(*attempt, now),
            report.result == attempt.result(),
            delivers_feedback(report.actions@) <==> attempt.has_damage(),
            resets_buffers(report.actions@) <==> attempt.failed_to_render(),
    {
        let mut actions: Vec<FrameAction> = Vec::new();
        let id = self.output.id();
        match attempt {
            FrameAttempt::AcquireFailed => {
                proof {
                    lemma_frame_actions(old(self)@, *attempt, now);
                }
                FrameReport { actions, result: Err(Error::BufferUnavailable) }
            },
            FrameAttempt::BindFailed => {
                proof {
                    lemma_frame_actions(old(self)@, *attempt, now);
                }
                FrameReport { actions, result: Err(Error::BindFailed) }
            },
            FrameAttempt::CompositionFailed => {
                actions.push(FrameAction::ResetBuffers);
                self.age = 0;
                proof {
                    lemma_frame_actions(old(self)@, *attempt, now);
                }
                FrameReport { actions, result: Err(Error::RenderFailed) }
            },
            FrameAttempt::SubmissionFailed => {
                actions.push(FrameAction::ResetBuffers);
                self.age = 0;
                proof {
                    lemma_frame_actions(old(self)@, *attempt, now);
                }
                FrameReport { actions, result: Err(Error::SubmitFailed) }
            },
            FrameAttempt::Submitted { damage } => {
                actions.push(FrameAction::SendFrames(id));
                actions.push(FrameAction::UpdatePrimaryOutput(id));
                actions.push(FrameAction::SendDmabufFeedback(id));
                if damage.len() > 0 {
                    let refresh = match self.output.current_mode() {
                        Some(mode) => Refresh::Fixed { millihertz: mode.refresh },
                        None => Refresh::Unknown,
                    };
                    actions.push(
                        FrameAction::Presented(
                            PresentationFeedback {
                                output: id,
                                presented_at: now,
                                refresh,
                                sequence: 0,
                                kind: FeedbackKind {
                                    vsync: true,
                                    hw_clock: false,
                                    hw_completion: false,
                                    zero_copy: false,
                                },
                            },
                        ),
                    );
                }
                if self.age < u32::MAX {
                    self.age = self.age + 1;
                }
                proof {
                    lemma_frame_actions(old(self)@, *attempt, now);
                    assert(actions@ =~= old(self)@.frame_actions(*attempt, now));
                }
                FrameReport { actions, result: Ok(()) }
            },
        }
    }

    /// The wake fired: its signal is gone. Returns whether there was one.
    pub fn take_wake(&mut self) -> (fired: bool)
        ensures
            final(self)@ == (SurfaceView {
                scheduler: old(self)@.scheduler.wake_taken(),
                ..old(self)@
            }),
            fired == old(self)@.scheduler.wake.signalled,
    {
        self.scheduler.take_wake()
    }

    /// Ends the service of a wake with the outcome of its render attempt:
    /// what [`Surface::render_output`] says of the attempt holds, and after
    /// it nothing is owed, whether a frame was shown or not.
    pub fn on_wake(&mut self, attempt: &FrameAttempt, now: u64) -> (report: FrameReport)
        ensures
            final(self)@ == (SurfaceView {
                scheduler: old(self)@.scheduler.frame_attempted(),
                ..old(self)@.rendered(*attempt)
            }),
            report.actions@ == old(self)@.frame_actions(*attempt, now),
            report.result == attempt.result(),
            delivers_feedback(report.actions@) <==> attempt.has_damage(),
            resets_buffers(report.actions@) <==> attempt.failed_to_render(),
    {
        let report = self.render_output(attempt, now);
        self.scheduler.finish_frame();
        report
    }

    /// The window was resized to `size`.
    ///
    /// Nothing happens if the output runs at that size already. Otherwise the
    /// output gets the new mode in place of the old, the damage history is
    /// void, and the surface is dirty; a wake is due unless a frame is under
    /// way.
    pub fn resize(&mut self, size: WindowSize) -> (resized: Resized)
        ensures
            final(self)@ == old(self)@.resized(size),
            resized.changed == !(old(self)@.output.current_mode matches Some(mode) && mode.size
                == size.pixels()),
            resized.wake == (resized.changed && old(self)@.scheduler.arms(SchedEvent::MarkDirty)),
            old(self)@.wf() ==> final(self)@.wf(),
    {
        let new_size = size.to_size();
        let current = self.output.current_mode();
        match current {
            Some(mode) => {
                if mode.size == new_size {
                    return Resized { changed: false, wake: false };
                }
                self.output.delete_mode(mode);
            },
            None => {},
        }
        let mode = Mode { size: new_size, refresh: REFRESH };
        self.config.mode_size = new_size;
        self.window.size = size;
        self.output.change_current_state(Some(mode), None, None, None);
        self.output.set_preferred(mode);
        self.age = 0;
        let wake = self.scheduler.mark_dirty();
        proof {
            if old(self)@.wf() {
                lemma_remoded_runs_only(old(self)@, mode);
            }
        }
        Resized { changed: true, wake }
    }
}

/// What [`SurfaceView::frame_actions`] holds: a presentation record exactly
/// when the attempt redrew something, and the order to discard the buffers
/// exactly when the render failed.
pub proof fn lemma_frame_actions(surface: SurfaceView, attempt: FrameAttempt, now: u64)
    ensures
        delivers_feedback(surface.frame_actions(attempt, now)) <==> attempt.has_damage(),
        resets_buffers(surface.frame_actions(attempt, now)) <==> attempt.failed_to_render(),
        attempt.has_damage() ==> surface.frame_actions(attempt, now).last()
            == FrameAction::Presented(surface.feedback(now)),
{
    let actions = surface.frame_actions(attempt, now);
    if attempt.has_damage() {
        assert(actions[3] is Presented);
    }
    if attempt.failed_to_render() {
        assert(actions[0] == FrameAction::ResetBuffers);
    }
}

/// A surface whose output runs at one mode only runs at `mode` only once that
/// mode has taken the place of the old.
pub proof fn lemma_remoded_runs_only(surface: SurfaceView, mode: Mode)
    requires
        surface.wf(),
    ensures
        surface.remoded(mode).runs_only(mode),
        surface.remoded(mode).wf(),
{
    let empty = Seq::<Mode>::empty();
    let current = window_mode(surface.window.size);
    lemma_modes_without_step(surface.output.modes, current);
    assert(surface.output.modes.drop_last() =~= empty);
    lemma_modes_without_step(empty, current);
    assert(!empty.contains(mode));
    assert(empty.push(mode) =~= seq![mode]);
    assert(seq![mode][0] == mode);
    assert(seq![mode].contains(mode));
}

/// A failed render does not end anything: the surface is as it was but for
/// an empty damage history, and whatever damage and completions follow, the
/// next render is composed in full, whatever age the buffer has that it gets;
/// with damage among them, that render is on its way.
pub proof fn lemma_failed_render_retries_in_full(
    surface: SurfaceView,
    failed: FrameAttempt,
    events: Seq<SchedEvent>,
    buffer_age: u8,
)
    requires
        failed.failed_to_render(),
        crate::scheduler::no_wake(events),
    ensures
        surface.woken(failed).age == 0,
        surface.woken(failed).window == surface.window,
        surface.woken(failed).output == surface.output,
        surface.woken(failed).config == surface.config,
        surface.woken(failed).screen_filter == surface.screen_filter,
        surface.wf() ==> surface.woken(failed).wf(),
        surface.woken(failed).scheduled_all(events).composition_age(buffer_age) == 0,
        crate::scheduler::has_damage(events) ==> {
            let next = surface.woken(failed).scheduled_all(events).scheduler;
            next.is_scheduled() && (next.wake.signalled || next.step(
                SchedEvent::PresentationComplete,
            ).wake.signalled)
        },
{
    if crate::scheduler::has_damage(events) {
        crate::scheduler::lemma_damage_is_rendered(surface.woken(failed).scheduler, events);
    }
}

/// The damage history grows by one with every frame that is shown, is left
/// alone when no buffer could be had, and is emptied by nothing but a failed
/// render or a change of mode.
pub proof fn lemma_age_is_monotonic(surface: SurfaceView, attempt: FrameAttempt, event: SchedEvent)
    ensures
        attempt.shown() ==> surface.rendered(attempt).age >= surface.age,
        attempt.shown() && surface.age < u32::MAX ==> surface.rendered(attempt).age == surface.age
            + 1,
        attempt.failed_to_allocate() ==> surface.rendered(attempt) == surface,
        attempt.failed_to_render() ==> surface.rendered(attempt).age == 0,
        surface.scheduled(event).age == surface.age,
        forall|size: WindowSize|
            (#[trigger] surface.resized(size)).age == surface.age || surface.resized(size).age == 0,
{
}

} // verus!
