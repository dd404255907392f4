//! The registry of the surfaces of a session, and what happens to them.
//!
//! A session holds one allocator for good and any number of surfaces, each
//! showing an output of its own. Outputs are told apart by an identity that
//! the registry gives out and never gives out again.

use crate::allocator::{Allocator, AllocatorSelection};
use crate::error::Error;
use crate::geometry::WindowSize;
use crate::output::{format_output_name, output_name, Output, OutputConfig, OutputView};
use crate::scheduler::SchedEvent;
use crate::surface::{
    negotiate_modifiers, Format, FrameAttempt, FrameReport, Resized, ScreenFilter, Surface,
    SurfaceView, Window,
};
use vstd::prelude::*;

verus! {

/// What can happen to the registry.
pub enum X11Op {
    /// A window was mapped.
    AddWindow(Window),
    /// The output was damaged.
    ScheduleRender(u64),
    /// The wake of the output fired.
    BeginRender(u64),
    /// The render attempt for the output came to an end.
    FinishRender(u64, FrameAttempt),
    /// The window was resized.
    Resize(u32, WindowSize),
    /// A frame of the window was presented.
    PresentationComplete(u32),
    /// The window was closed.
    Close(u32),
    /// The settings were applied, or only tested.
    ApplyConfig(bool),
    /// Settings were kept for the output.
    SetConfig(u64, OutputConfig),
    /// A filter was put on all surfaces.
    UpdateScreenFilter(ScreenFilter),
}

/// Model of an [`X11State`].
pub struct X11StateView {
    pub allocator: Allocator,
    /// The surfaces, in the order their windows were added.
    pub surfaces: Seq<SurfaceView>,
    /// The identity that the next output gets.
    pub next_output: u64,
}

impl X11StateView {
    /// A session without surfaces.
    pub open spec fn new(allocator: Allocator) -> X11StateView {
        X11StateView { allocator, surfaces: Seq::empty(), next_output: 0 }
    }

    /// Every surface is well formed, and no two outputs share an identity;
    /// the identities still to give out are above all that are in use.
    pub open spec fn wf(self) -> bool {
        &&& forall|i: int| 0 <= i < self.surfaces.len() ==> (#[trigger] self.surfaces[i]).wf()
        &&& forall|i: int|
            0 <= i < self.surfaces.len() ==> (#[trigger] self.surfaces[i]).output.id
                < self.next_output
        &&& forall|i: int, j: int|
            0 <= i < self.surfaces.len() && 0 <= j < self.surfaces.len() && i != j ==> (
            #[trigger] self.surfaces[i]).output.id != (#[trigger] self.surfaces[j]).output.id
    }

    /// Some surface shows the output `id`.
    pub open spec fn has_output(self, id: u64) -> bool {
        exists|i: int| 0 <= i < self.surfaces.len() && (#[trigger] self.surfaces[i]).output.id == id
    }

    /// Some surface belongs to the window `window`.
    pub open spec fn has_window(self, window: u32) -> bool {
        exists|i: int| 0 <= i < self.surfaces.len() && (#[trigger] self.surfaces[i]).window.id == window
    }

    /// The surface at `i` is the first that shows the output `id`.
    pub open spec fn first_output(self, id: u64, i: int) -> bool {
        &&& 0 <= i < self.surfaces.len()
        &&& self.surfaces[i].output.id == id
        &&& forall|j: int| 0 <= j < i ==> (#[trigger] self.surfaces[j]).output.id != id
    }

    /// The surface at `i` is the first that belongs to the window `window`.
    pub open spec fn first_window(self, window: u32, i: int) -> bool {
        &&& 0 <= i < self.surfaces.len()
        &&& self.surfaces[i].window.id == window
        &&& forall|j: int| 0 <= j < i ==> (#[trigger] self.surfaces[j]).window.id != window
    }

    /// Where the surface of the output `id` is, if there is one.
    pub open spec fn output_index(self, id: u64) -> int {
        choose|i: int| self.first_output(id, i)
    }

    /// Where the first surface of the window `window` is, if there is one.
    pub open spec fn window_index(self, window: u32) -> int {
        choose|i: int| self.first_window(window, i)
    }

    /// The registry with `surface` in place of the surface at `i`.
    pub open spec fn updated(self, i: int, surface: SurfaceView) -> X11StateView {
        X11StateView { surfaces: self.surfaces.update(i, surface), ..self }
    }

    /// The outputs of all surfaces, in the order of the surfaces.
    pub open spec fn outputs(self) -> Seq<OutputView> {
        Seq::new(self.surfaces.len(), |i: int| self.surfaces[i].output)
    }

    /// The registry after damage to the output `id`; an output that is not
    /// registered leaves it as it is.
    pub open spec fn render_scheduled(self, id: u64) -> X11StateView {
        if self.has_output(id) {
            let i = self.output_index(id);
            self.updated(i, self.surfaces[i].scheduled(SchedEvent::MarkDirty))
        } else {
            self
        }
    }

    /// The registry after the window `window` was added: a new surface at the
    /// end, showing a new output named after its position.
    pub open spec fn added(self, window: Window) -> X11StateView {
        X11StateView {
            surfaces: self.surfaces.push(
                SurfaceView::created(window, self.next_output, output_name(self.surfaces.len())),
            ),
            next_output: (self.next_output + 1) as u64,
            ..self
        }
    }

    /// The registry once the event loop has taken the signal of the wake of
    /// the output `id`.
    pub open spec fn wake_taken(self, id: u64) -> X11StateView {
        if self.has_output(id) {
            let i = self.output_index(id);
            self.updated(
                i,
                SurfaceView { scheduler: self.surfaces[i].scheduler.wake_taken(), ..self.surfaces[i] },
            )
        } else {
            self
        }
    }

    /// The registry after the render attempt for the output `id` came to
    /// `attempt`.
    pub open spec fn render_finished(self, id: u64, attempt: FrameAttempt) -> X11StateView {
        if self.has_output(id) {
            let i = self.output_index(id);
            self.updated(
                i,
                SurfaceView {
                    scheduler: self.surfaces[i].scheduler.frame_attempted(),
                    ..self.surfaces[i].rendered(attempt)
                },
            )
        } else {
            self
        }
    }

    /// The registry after the window `window` was resized to `size`.
    pub open spec fn resized(self, window: u32, size: WindowSize) -> X11StateView {
        if self.has_window(window) {
            let i = self.window_index(window);
            self.updated(i, self.surfaces[i].resized(size))
        } else {
            self
        }
    }

    /// The registry after a frame of the window `window` was presented.
    pub open spec fn presentation_completed(self, window: u32) -> X11StateView {
        if self.has_window(window) {
            let i = self.window_index(window);
            self.updated(i, self.surfaces[i].scheduled(SchedEvent::PresentationComplete))
        } else {
            self
        }
    }

    /// The registry after the window `window` was closed: its surfaces are
    /// gone, the others are as they were and in the order they were.
    pub open spec fn closed(self, window: u32) -> X11StateView {
        X11StateView { surfaces: surfaces_without_window(self.surfaces, window), ..self }
    }

    /// The outputs that go when the window `window` is closed.
    pub open spec fn closed_outputs(self, window: u32) -> Seq<OutputView> {
        outputs_of_window(self.surfaces, window)
    }

    /// The settings kept for the first output ask for the size of its window.
    pub open spec fn config_matches(self) -> bool {
        self.surfaces[0].config.mode_size == self.surfaces[0].window.size.pixels()
    }

    /// The registry after the settings were applied: settings that ask for
    /// another size than that of the window are put back to it, unless this
    /// was only a test.
    pub open spec fn config_applied(self, test_only: bool) -> X11StateView {
        if self.config_matches() || test_only {
            self
        } else {
            self.updated(
                0,
                SurfaceView {
                    config: OutputConfig {
                        mode_size: self.surfaces[0].window.size.pixels(),
                        mode_refresh: None,
                    },
                    ..self.surfaces[0]
                },
            )
        }
    }

    /// The registry with `filter` on every surface.
    pub open spec fn filtered(self, filter: ScreenFilter) -> X11StateView {
        X11StateView {
            surfaces: Seq::new(
                self.surfaces.len(),
                |i: int| SurfaceView { screen_filter: filter, ..self.surfaces[i] },
            ),
            ..self
        }
    }

    /// The registry with `config` kept for the output `id`.
    pub open spec fn configured(self, id: u64, config: OutputConfig) -> X11StateView {
        if self.has_output(id) {
            let i = self.output_index(id);
            self.updated(i, SurfaceView { config, ..self.surfaces[i] })
        } else {
            self
        }
    }

    /// The registry after damage to each of the outputs `ids`, first to last.
    pub open spec fn all_scheduled(self, ids: Seq<u64>) -> X11StateView
        decreases ids.len(),
    {
        if ids.len() == 0 {
            self
        } else {
            self.all_scheduled(ids.drop_last()).render_scheduled(ids.last())
        }
    }

    /// Those of the outputs `ids` whose wake is scheduled by damage to each of
    /// them, first to last.
    pub open spec fn armed_by(self, ids: Seq<u64>) -> Seq<u64>
        decreases ids.len(),
    {
        if ids.len() == 0 {
            Seq::empty()
        } else {
            let rest = self.armed_by(ids.drop_last());
            if self.all_scheduled(ids.drop_last()).arms_output(ids.last()) {
                rest.push(ids.last())
            } else {
                rest
            }
        }
    }

    /// Whether `op` can be asked for: a window can be added while there is an
    /// identity left for its output, and settings can be applied once there
    /// is a surface.
    pub open spec fn admits(self, op: X11Op) -> bool {
        match op {
            X11Op::AddWindow(_) => self.next_output < u64::MAX,
            X11Op::ApplyConfig(_) => self.surfaces.len() > 0,
            _ => true,
        }
    }

    /// The registry after `op`.
    pub open spec fn apply(self, op: X11Op) -> X11StateView {
        match op {
            X11Op::AddWindow(window) => self.added(window),
            X11Op::ScheduleRender(id) => self.render_scheduled(id),
            X11Op::BeginRender(id) => self.wake_taken(id),
            X11Op::FinishRender(id, attempt) => self.render_finished(id, attempt),
            X11Op::Resize(window, size) => self.resized(window, size),
            X11Op::PresentationComplete(window) => self.presentation_completed(window),
            X11Op::Close(window) => self.closed(window),
            X11Op::ApplyConfig(test_only) => self.config_applied(test_only),
            X11Op::SetConfig(id, config) => self.configured(id, config),
            X11Op::UpdateScreenFilter(filter) => self.filtered(filter),
        }
    }

    /// The registry after the operations in `ops`, first to last.
    pub open spec fn run(self, ops: Seq<X11Op>) -> X11StateView
        decreases ops.len(),
    {
        if ops.len() == 0 {
            self
        } else {
            self.run(ops.drop_last()).apply(ops.last())
        }
    }

    /// Each of the operations in `ops` can be asked for when its turn comes.
    pub open spec fn admits_all(self, ops: Seq<X11Op>) -> bool
        decreases ops.len(),
    {
        if ops.len() == 0 {
            true
        } else {
            self.admits_all(ops.drop_last()) && self.run(ops.drop_last()).admits(ops.last())
        }
    }

    /// Whether `op` has a frame rendered for the output `id`: it is the wake
    /// or the end of a render attempt of that output, and the output is
    /// registered.
    pub open spec fn renders(self, op: X11Op, id: u64) -> bool {
        self.has_output(id) && match op {
            X11Op::BeginRender(output) => output == id,
            X11Op::FinishRender(output, _) => output == id,
            _ => false,
        }
    }

    /// The output `id` was registered once and is not any more.
    pub open spec fn retired(self, id: u64) -> bool {
        id < self.next_output && !self.has_output(id)
    }

    /// Whether damage to the output `id` schedules a wake.
    pub open spec fn arms_output(self, id: u64) -> bool {
        self.has_output(id) && self.surfaces[self.output_index(id)].scheduler.arms(
            SchedEvent::MarkDirty,
        )
    }
}

/// The surfaces in `surfaces` that do not belong to the window `window`, in
/// their order.
pub open spec fn surfaces_without_window(surfaces: Seq<SurfaceView>, window: u32) -> Seq<
    SurfaceView,
> {
    surfaces.filter(|surface: SurfaceView| surface.window.id != window)
}

/// The outputs of the surfaces in `surfaces` that belong to the window
/// `window`, in the order of the surfaces.
pub open spec fn outputs_of_window(surfaces: Seq<SurfaceView>, window: u32) -> Seq<OutputView> {
    surfaces.filter_map(
        |surface: SurfaceView|
            if surface.window.id == window {
                Some(surface.output)
            } else {
                None
            },
    )
}

/// The views of `outputs`, in their order.
pub open spec fn output_views(outputs: Seq<Output>) -> Seq<OutputView> {
    Seq::new(outputs.len(), |i: int| outputs[i]@)
}

/// The identities of `outputs`, in their order.
pub open spec fn output_ids(outputs: Seq<Output>) -> Seq<u64> {
    Seq::new(outputs.len(), |i: int| outputs[i]@.id)
}

/// The views of `surfaces`, in their order.
pub open spec fn surface_views(surfaces: Seq<Surface>) -> Seq<SurfaceView> {
    Seq::new(surfaces.len(), |i: int| surfaces[i]@)
}

/// The state of the backend: the allocator of the session and the surfaces
/// that are registered.
#[derive(Debug)]
pub struct X11State {
    allocator: Allocator,
    surfaces: Vec<Surface>,
    next_output: u64,
}

impl View for X11State {
    type V = X11StateView;

    closed spec fn view(&self) -> X11StateView {
        X11StateView {
            allocator: self.allocator,
            surfaces: surface_views(self.surfaces@),
            next_output: self.next_output,
        }
    }
}

/// Builds the session on the allocator that the selection adopted.
///
/// Fails with `Error::NoBackendAvailable` when no candidate came up; the
/// caller then has to give up starting.
pub fn init_backend(selection: AllocatorSelection) -> (result: Result<X11State, Error>)
    ensures
        match result {
            Ok(state) => selection@.chosen == Some(state@.allocator) && state@
                == X11StateView::new(state@.allocator) && state@.wf(),
            Err(error) => selection@.chosen is None && error == Error::NoBackendAvailable,
        },
{
    match selection.finish() {
        Ok(allocator) => Ok(X11State::new(allocator)),
        Err(error) => Err(error),
    }
}

impl X11State {
    /// A session on `allocator`, without surfaces.
    pub fn new(allocator: Allocator) -> (state: X11State)
        ensures
            state@ == X11StateView::new(allocator),
            state@.wf(),
    {
        let state = X11State { allocator, surfaces: Vec::new(), next_output: 0 };
        assert(state@.surfaces =~= Seq::<SurfaceView>::empty());
        state
    }

    /// The allocator of the session.
    pub fn allocator(&self) -> (allocator: Allocator)
        ensures
            allocator == self@.allocator,
    {
        self.allocator
    }

    /// Where the surface of the output `id` is.
    pub fn find_output(&self, id: u64) -> (found: Option<usize>)
        ensures
            match found {
                Some(i) => self@.has_output(id) && self@.output_index(id) == i
                    && self@.first_output(id, i as int),
                None => !self@.has_output(id),
            },
    {
        let mut i: usize = 0;
        while i < self.surfaces.len()
            invariant
                i <= self.surfaces@.len(),
                forall|j: int| 0 <= j < i ==> (#[trigger] self@.surfaces[j]).output.id != id,
            decreases self.surfaces@.len() - i,
        {
            if self.surfaces[i].output().id() == id {
                proof {
                    lemma_first_output_unique(self@, id, i as int, i as int);
                }
                return Some(i);
            }
            i = i + 1;
        }
        None
    }

    /// Where the first surface of the window `window` is.
    pub fn find_window(&self, window: u32) -> (found: Option<usize>)
        ensures
            match found {
                Some(i) => self@.has_window(window) && self@.window_index(window) == i
                    && self@.first_window(window, i as int),
                None => !self@.has_window(window),
            },
    {
        let mut i: usize = 0;
        while i < self.surfaces.len()
            invariant
                i <= self.surfaces@.len(),
                forall|j: int| 0 <= j < i ==> (#[trigger] self@.surfaces[j]).window.id != window,
            decreases self.surfaces@.len() - i,
        {
            if self.surfaces[i].window().id == window {
                proof {
                    lemma_first_window_unique(self@, window, i as int, i as int);
                }
                return Some(i);
            }
            i = i + 1;
        }
        None
    }

    /// How many outputs the session has created so far.
    pub fn outputs_created(&self) -> (count: u64)
        ensures
            count == self@.next_output,
    {
        self.next_output
    }

    /// How many surfaces are registered.
    pub fn len(&self) -> (len: usize)
        ensures
            len == self@.surfaces.len(),
    {
        self.surfaces.len()
    }

    /// The allocator and the memory layouts to create the surface of a window
    /// with: the layouts, out of those in `supported`, of the pixel format
    /// `fourcc` that the window presents.
    pub fn surface_request(&self, fourcc: u32, supported: &Vec<Format>) -> (request: (
        Allocator,
        Vec<u64>,
    ))
        ensures
            request.0 == self@.allocator,
            request.1@ == crate::surface::modifiers_for(supported@, fourcc),
    {
        (self.allocator, negotiate_modifiers(supported, fourcc))
    }

    /// Registers the surface of the window `window`, which was just mapped.
    ///
    /// The surface shows a new output, which is returned. It is not dirty and
    /// its first frame is scheduled all the same: the caller signals the wake
    /// of the new surface once.
    pub fn add_window(&mut self, window: Window) -> (output: Output)
        requires
            old(self)@.next_output < u64::MAX,
        ensures
            final(self)@ == old(self)@.added(window),
            old(self)@.wf() ==> final(self)@.wf() && !old(self)@.has_output(output@.id),
            output@ == final(self)@.surfaces.last().output,
            output@.id == old(self)@.next_output,
    {
        let name = format_output_name(self.surfaces.len());
        let surface = Surface::new(window, self.next_output, name);
        let output = surface.output().duplicate();
        self.next_output = self.next_output + 1;
        self.surfaces.push(surface);
        proof {
            assert(self@.surfaces =~= old(self)@.surfaces.push(surface@));
            if old(self)@.wf() && old(self)@.has_output(output@.id) {
                let k = choose|k: int|
                    0 <= k < old(self)@.surfaces.len() && (#[trigger] old(self)@.surfaces[k]).output.id
                        == output@.id;
                assert(false);
            }
        }
        output
    }

    /// The outputs of all surfaces, in the order their windows were added.
    pub fn all_outputs(&self) -> (outputs: Vec<Output>)
        ensures
            output_views(outputs@) == self@.outputs(),
    {
        let mut outputs: Vec<Output> = Vec::new();
        let mut i: usize = 0;
        while i < self.surfaces.len()
            invariant
                i <= self.surfaces@.len(),
                outputs@.len() == i,
                forall|j: int| 0 <= j < i ==> (#[trigger] outputs@[j])@ == self@.outputs()[j],
            decreases self.surfaces@.len() - i,
        {
            outputs.push(self.surfaces[i].output().duplicate());
            i = i + 1;
        }
        assert(output_views(outputs@) =~= self@.outputs());
        outputs
    }

    /// The surfaces, in the order their windows were added.
    pub fn surfaces(&self) -> (surfaces: &Vec<Surface>)
        ensures
            surface_views(surfaces@) == self@.surfaces,
    {
        &self.surfaces
    }

    /// Marks the output dirty and has it rendered at the next wake.
    ///
    /// Returns whether the caller has to signal the wake of the surface: while
    /// a frame is under way the damage is absorbed and `false` is returned.
    /// `Error::NotFound` when the output is not registered; nothing changes
    /// then.
    pub fn schedule_render(&mut self, output: &Output) -> (result: Result<bool, Error>)
        ensures
            final(self)@ == old(self)@.render_scheduled(output@.id),
            old(self)@.wf() ==> final(self)@.wf(),
            result == (if old(self)@.has_output(output@.id) {
                Ok::<bool, Error>(old(self)@.arms_output(output@.id))
            } else {
                Err::<bool, Error>(Error::NotFound)
            }),
    {
        match self.find_output(output.id()) {
            Some(i) => {
                let armed = self.surfaces[i].mark_dirty();
                proof {
                    assert(self@.surfaces =~= old(self)@.surfaces.update(
                        i as int,
                        old(self)@.surfaces[i as int].scheduled(SchedEvent::MarkDirty),
                    ));
                }
                Ok(armed)
            },
            None => Err(Error::NotFound),
        }
    }

    /// The output shown in the window `window`, if the window is registered.
    pub fn output_for_window(&self, window: u32) -> (output: Option<Output>)
        ensures
            match output {
                Some(found) => self@.has_window(window) && found@
                    == self@.surfaces[self@.window_index(window)].output,
                None => !self@.has_window(window),
            },
    {
        match self.find_window(window) {
            Some(i) => {
                Some(self.surfaces[i].output().duplicate())
            },
            None => None,
        }
    }

    /// The settings kept for `output`, if it is registered.
    pub fn config(&self, output: &Output) -> (config: Option<OutputConfig>)
        ensures
            config == (if self@.has_output(output@.id) {
                Some(self@.surfaces[self@.output_index(output@.id)].config)
            } else {
                None
            }),
    {
        match self.find_output(output.id()) {
            Some(i) => {
                Some(self.surfaces[i].config())
            },
            None => None,
        }
    }

    /// Keeps `config` for `output`. `Error::NotFound` when the output is not
    /// registered; nothing changes then.
    pub fn set_config(&mut self, output: &Output, config: OutputConfig) -> (result: Result<
        (),
        Error,
    >)
        ensures
            final(self)@ == old(self)@.configured(output@.id, config),
            old(self)@.wf() ==> final(self)@.wf(),
            result == (if old(self)@.has_output(output@.id) {
                Ok::<(), Error>(())
            } else {
                Err::<(), Error>(Error::NotFound)
            }),
    {
        match self.find_output(output.id()) {
            Some(i) => {
                self.surfaces[i].set_config(config);
                proof {
                    assert(self@.surfaces =~= old(self)@.surfaces.update(
                        i as int,
                        SurfaceView { config, ..old(self)@.surfaces[i as int] },
                    ));
                }
                Ok(())
            },
            None => Err(Error::NotFound),
        }
    }

    /// The wake of `output` fired: the caller is about to attempt a render.
    ///
    /// Returns the window to render to. `None` when the output is not
    /// registered any more: the wake is then void, nothing is rendered and
    /// nothing changes.
    pub fn begin_render(&mut self, output: &Output) -> (window: Option<Window>)
        ensures
            final(self)@ == old(self)@.wake_taken(output@.id),
            old(self)@.wf() ==> final(self)@.wf(),
            window == (if old(self)@.has_output(output@.id) {
                Some(old(self)@.surfaces[old(self)@.output_index(output@.id)].window)
            } else {
                None
            }),
    {
        match self.find_output(output.id()) {
            Some(i) => {
                self.surfaces[i].take_wake();
                proof {
                    assert(self@.surfaces =~= old(self)@.surfaces.update(
                        i as int,
                        SurfaceView {
                            scheduler: old(self)@.surfaces[i as int].scheduler.wake_taken(),
                            ..old(self)@.surfaces[i as int]
                        },
                    ));
                }
                Some(self.surfaces[i].window())
            },
            None => None,
        }
    }

    /// The age at which the caller composes the frame of `output` into a
    /// buffer of age `buffer_age`; 0 asks for the whole frame.
    pub fn composition_age(&self, output: &Output, buffer_age: u8) -> (age: Option<u32>)
        ensures
            age == (if self@.has_output(output@.id) {
                Some(self@.surfaces[self@.output_index(output@.id)].composition_age(buffer_age))
            } else {
                None
            }),
    {
        match self.find_output(output.id()) {
            Some(i) => {
                Some(self.surfaces[i].composition_age(buffer_age))
            },
            None => None,
        }
    }

    /// Ends the service of the wake of `output` with the outcome of the
    /// render attempt, at time `now`.
    ///
    /// Returns what [`Surface::on_wake`] says of the attempt. `None` when the
    /// output is not registered; nothing changes then.
    pub fn finish_render(&mut self, output: &Output, attempt: &FrameAttempt, now: u64) -> (report:
        Option<FrameReport>)
        ensures
            final(self)@ == old(self)@.render_finished(output@.id, *attempt),
            old(self)@.wf() ==> final(self)@.wf(),
            match report {
                Some(report) => {
                    &&& old(self)@.has_output(output@.id)
                    &&& report.actions@ == old(self)@.surfaces[old(self)@.output_index(
                        output@.id,
                    )].frame_actions(*attempt, now)
                    &&& report.result == attempt.result()
                    &&& crate::surface::delivers_feedback(report.actions@) <==> attempt.has_damage()
                    &&& crate::surface::resets_buffers(report.actions@)
                        <==> attempt.failed_to_render()
                },
                None => !old(self)@.has_output(output@.id),
            },
    {
        match self.find_output(output.id()) {
            Some(i) => {
                let report = self.surfaces[i].on_wake(attempt, now);
                proof {
                    assert(self@.surfaces =~= old(self)@.surfaces.update(
                        i as int,
                        SurfaceView {
                            scheduler: old(self)@.surfaces[i as int].scheduler.frame_attempted(),
                            ..old(self)@.surfaces[i as int].rendered(*attempt)
                        },
                    ));
                }
                Some(report)
            },
            None => None,
        }
    }

    /// The window `window` was resized to `size`.
    ///
    /// Nothing happens if its output runs at that size already. Otherwise the
    /// output gets the new mode and the surface is dirty; see
    /// [`Surface::resize`]. `Error::NotFound` when the window is not
    /// registered; nothing changes then.
    pub fn resize(&mut self, window: u32, size: WindowSize) -> (result: Result<Resized, Error>)
        ensures
            final(self)@ == old(self)@.resized(window, size),
            old(self)@.wf() ==> final(self)@.wf(),
            match result {
                Ok(resized) => {
                    let surface = old(self)@.surfaces[old(self)@.window_index(window)];
                    &&& old(self)@.has_window(window)
                    &&& resized.changed == (surface.resized(size) != surface)
                    &&& resized.wake == (resized.changed && surface.scheduler.arms(
                        SchedEvent::MarkDirty,
                    ))
                },
                Err(error) => error == Error::NotFound && !old(self)@.has_window(window),
            },
    {
        match self.find_window(window) {
            Some(i) => {
                let resized = self.surfaces[i].resize(size);
                proof {
                    assert(self@.surfaces =~= old(self)@.surfaces.update(
                        i as int,
                        old(self)@.surfaces[i as int].resized(size),
                    ));
                    let before = old(self)@.surfaces[i as int];
                    if resized.changed {
                        assert(before.resized(size).scheduler.dirty);
                        assert(before.resized(size).age == 0);
                    }
                }
                Ok(resized)
            },
            None => Err(Error::NotFound),
        }
    }

    /// The display server is done with a frame of the window `window`, or
    /// asks for its content again.
    ///
    /// Returns whether the caller has to signal the wake of the surface:
    /// damage that came in while the frame was under way gets its render now.
    /// `Error::NotFound` when the window is not registered; nothing changes
    /// then.
    pub fn on_presentation_complete(&mut self, window: u32) -> (result: Result<bool, Error>)
        ensures
            final(self)@ == old(self)@.presentation_completed(window),
            old(self)@.wf() ==> final(self)@.wf(),
            result == (if old(self)@.has_window(window) {
                Ok::<bool, Error>(
                    old(self)@.surfaces[old(self)@.window_index(window)].scheduler.arms(
                        SchedEvent::PresentationComplete,
                    ),
                )
            } else {
                Err::<bool, Error>(Error::NotFound)
            }),
    {
        match self.find_window(window) {
            Some(i) => {
                let armed = self.surfaces[i].on_presentation_complete();
                proof {
                    assert(self@.surfaces =~= old(self)@.surfaces.update(
                        i as int,
                        old(self)@.surfaces[i as int].scheduled(SchedEvent::PresentationComplete),
                    ));
                }
                Ok(armed)
            },
            None => Err(Error::NotFound),
        }
    }

    /// The window `window` was closed.
    ///
    /// Its surfaces leave the registry, and the outputs they showed are
    /// returned, in the order of the surfaces, for the caller to unmap the
    /// window, drop the wake of each and tell the session. None of them is
    /// found in the registry again. `Error::NotFound` when the window is not
    /// registered; nothing changes then.
    pub fn close(&mut self, window: u32) -> (result: Result<Vec<Output>, Error>)
        ensures
            final(self)@ == old(self)@.closed(window),
            !final(self)@.has_window(window),
            old(self)@.wf() ==> final(self)@.wf(),
            match result {
                Ok(removed) => {
                    &&& old(self)@.has_window(window)
                    &&& output_views(removed@) == old(self)@.closed_outputs(window)
                    &&& old(self)@.wf() ==> forall|k: int|
                        0 <= k < removed@.len() ==> !final(self)@.has_output(
                            (#[trigger] removed@[k])@.id,
                        )
                },
                Err(error) => error == Error::NotFound && !old(self)@.has_window(window)
                    && final(self)@ == old(self)@,
            },
    {
        let mut removed: Vec<Output> = Vec::new();
        let mut i: usize = 0;
        proof {
            lemma_close_step(old(self)@.surfaces.take(0), window);
            assert(self@.surfaces.take(0) =~= Seq::<SurfaceView>::empty());
            assert(output_views(removed@) =~= Seq::<OutputView>::empty());
            assert(self@.surfaces.skip(0) =~= old(self)@.surfaces.skip(0));
        }
        while i < self.surfaces.len()
            invariant
                i <= self.surfaces@.len(),
                self.surfaces@.len() + removed@.len() == old(self)@.surfaces.len(),
                self@.surfaces.take(i as int) == surfaces_without_window(
                    old(self)@.surfaces.take(i + removed@.len()),
                    window,
                ),
                self@.surfaces.skip(i as int) == old(self)@.surfaces.skip(i + removed@.len()),
                output_views(removed@) == outputs_of_window(
                    old(self)@.surfaces.take(i + removed@.len()),
                    window,
                ),
                self@.allocator == old(self)@.allocator,
                self@.next_output == old(self)@.next_output,
            decreases self.surfaces@.len() - i,
        {
            let ghost done = i + removed@.len();
            let ghost before = self@.surfaces;
            let ghost gone = output_views(removed@);
            proof {
                assert(before[i as int] == before.skip(i as int)[0]);
                assert(before[i as int] == old(self)@.surfaces[done]);
                lemma_close_step(old(self)@.surfaces.take(done + 1), window);
                assert(old(self)@.surfaces.take(done + 1).drop_last() =~= old(self)@.surfaces.take(
                    done,
                ));
            }
            if self.surfaces[i].window().id == window {
                let surface = self.surfaces.remove(i);
                removed.push(surface.into_output());
                proof {
                    assert(self@.surfaces =~= before.remove(i as int));
                    assert(self@.surfaces.take(i as int) =~= before.take(i as int));
                    assert forall|k: int| 0 <= k < self@.surfaces.len() - i implies self@.surfaces.skip(
                        i as int,
                    )[k] == old(self)@.surfaces.skip(done + 1)[k] by {
                        assert(before.skip(i as int)[k + 1] == old(self)@.surfaces.skip(done)[k + 1]);
                    }
                    assert(self@.surfaces.skip(i as int) =~= old(self)@.surfaces.skip(done + 1));
                    assert(output_views(removed@) =~= gone.push(before[i as int].output));
                }
            } else {
                i = i + 1;
                proof {
                    assert(self@.surfaces.take(i as int) =~= before.take(i - 1).push(
                        before[i - 1],
                    ));
                    assert forall|k: int| 0 <= k < self@.surfaces.len() - i implies self@.surfaces.skip(
                        i as int,
                    )[k] == old(self)@.surfaces.skip(done + 1)[k] by {
                        assert(before.skip(i - 1)[k + 1] == old(self)@.surfaces.skip(done)[k + 1]);
                    }
                    assert(self@.surfaces.skip(i as int) =~= old(self)@.surfaces.skip(done + 1));
                }
            }
        }
        proof {
            assert(self@.surfaces.take(i as int) =~= self@.surfaces);
            assert(old(self)@.surfaces.take(old(self)@.surfaces.len() as int) =~= old(
                self,
            )@.surfaces);
            lemma_close_outcome(old(self)@, window);
            assert(output_views(removed@) == old(self)@.closed_outputs(window));
            if old(self)@.wf() {
                lemma_close_wf(old(self)@, window);
                assert forall|k: int| 0 <= k < removed@.len() implies !self@.has_output(
                    (#[trigger] removed@[k])@.id,
                ) by {
                    assert(output_views(removed@)[k] == removed@[k]@);
                }
            }
        }
        if removed.len() == 0 {
            Err(Error::NotFound)
        } else {
            Ok(removed)
        }
    }

    /// Holds the settings kept for the first output against its window.
    ///
    /// A window cannot be given a size: settings that ask for another size
    /// than the window has are refused with `Error::CannotSetWindowSize`,
    /// and put back to the size of the window unless `test_only` is set.
    pub fn apply_config_for_outputs(&mut self, test_only: bool) -> (result: Result<(), Error>)
        requires
            old(self)@.surfaces.len() > 0,
        ensures
            final(self)@ == old(self)@.config_applied(test_only),
            old(self)@.wf() ==> final(self)@.wf(),
            result == (if old(self)@.config_matches() {
                Ok::<(), Error>(())
            } else {
                Err::<(), Error>(Error::CannotSetWindowSize)
            }),
    {
        let size = self.surfaces[0].window().size.to_size();
        let config = self.surfaces[0].config();
        if config.mode_size != size {
            if !test_only {
                self.surfaces[0].set_config(OutputConfig { mode_size: size, mode_refresh: None });
                proof {
                    assert(self@.surfaces =~= old(self)@.surfaces.update(
                        0,
                        SurfaceView {
                            config: OutputConfig { mode_size: size, mode_refresh: None },
                            ..old(self)@.surfaces[0]
                        },
                    ));
                }
            }
            Err(Error::CannotSetWindowSize)
        } else {
            Ok(())
        }
    }

    /// Puts `screen_filter` on every surface. This cannot fail.
    pub fn update_screen_filter(&mut self, screen_filter: &ScreenFilter) -> (result: Result<
        (),
        Error,
    >)
        ensures
            final(self)@ == old(self)@.filtered(*screen_filter),
            old(self)@.wf() ==> final(self)@.wf(),
            result is Ok,
    {
        let mut i: usize = 0;
        while i < self.surfaces.len()
            invariant
                i <= self.surfaces@.len(),
                self@.surfaces.len() == old(self)@.surfaces.len(),
                forall|j: int|
                    0 <= j < i ==> #[trigger] self@.surfaces[j] == (SurfaceView {
                        screen_filter: *screen_filter,
                        ..old(self)@.surfaces[j]
                    }),
                forall|j: int|
                    i <= j < self@.surfaces.len() ==> #[trigger] self@.surfaces[j] == old(
                        self,
                    )@.surfaces[j],
                self@.allocator == old(self)@.allocator,
                self@.next_output == old(self)@.next_output,
            decreases self.surfaces@.len() - i,
        {
            let ghost before = self@.surfaces;
            self.surfaces[i].set_screen_filter(*screen_filter);
            proof {
                assert(self@.surfaces =~= before.update(
                    i as int,
                    SurfaceView { screen_filter: *screen_filter, ..before[i as int] },
                ));
            }
            i = i + 1;
        }
        proof {
            assert(self@.surfaces =~= old(self)@.filtered(*screen_filter).surfaces);
        }
        Ok(())
    }

    /// Input arrived: every output in `outputs` is marked dirty, as by
    /// [`X11State::schedule_render`]; outputs that are not registered are
    /// passed over.
    ///
    /// Returns the outputs whose wake the caller has to signal, in the order
    /// of `outputs`.
    pub fn process_x11_event(&mut self, outputs: &Vec<Output>) -> (armed: Vec<u64>)
        ensures
            final(self)@ == old(self)@.all_scheduled(output_ids(outputs@)),
            armed@ == old(self)@.armed_by(output_ids(outputs@)),
            old(self)@.wf() ==> final(self)@.wf(),
    {
        let ghost ids = output_ids(outputs@);
        let mut armed: Vec<u64> = Vec::new();
        let mut i: usize = 0;
        while i < outputs.len()
            invariant
                i <= outputs@.len(),
                ids == output_ids(outputs@),
                self@ == old(self)@.all_scheduled(ids.take(i as int)),
                armed@ == old(self)@.armed_by(ids.take(i as int)),
                old(self)@.wf() ==> self@.wf(),
            decreases outputs@.len() - i,
        {
            proof {
                assert(ids.take(i + 1).drop_last() =~= ids.take(i as int));
                assert(ids.take(i + 1).last() == outputs@[i as int]@.id);
            }
            match self.schedule_render(&outputs[i]) {
                Ok(true) => {
                    armed.push(outputs[i].id());
                },
                _ => {},
            }
            i = i + 1;
        }
        proof {
            assert(ids.take(outputs@.len() as int) =~= ids);
        }
        armed
    }
}


/// An output has one first surface at most.
pub proof fn lemma_first_output_unique(state: X11StateView, id: u64, i: int, k: int)
    requires
        state.first_output(id, i),
        state.first_output(id, k),
    ensures
        i == k,
        state.has_output(id),
        state.output_index(id) == i,
{
    if i < k {
        assert(state.surfaces[i].output.id != id);
    }
    if k < i {
        assert(state.surfaces[k].output.id != id);
    }
    let c = state.output_index(id);
    if c < i {
        assert(state.surfaces[c].output.id != id);
    }
    if i < c {
        assert(state.surfaces[i].output.id != id);
    }
}

/// A window has one first surface at most.
pub proof fn lemma_first_window_unique(state: X11StateView, window: u32, i: int, k: int)
    requires
        state.first_window(window, i),
        state.first_window(window, k),
    ensures
        i == k,
        state.has_window(window),
        state.window_index(window) == i,
{
    if i < k {
        assert(state.surfaces[i].window.id != window);
    }
    if k < i {
        assert(state.surfaces[k].window.id != window);
    }
    let c = state.window_index(window);
    if c < i {
        assert(state.surfaces[c].window.id != window);
    }
    if i < c {
        assert(state.surfaces[i].window.id != window);
    }
}

/// How [`surfaces_without_window`] and [`outputs_of_window`] go through a
/// list from its end.
pub proof fn lemma_close_step(surfaces: Seq<SurfaceView>, window: u32)
    ensures
        surfaces.len() == 0 ==> surfaces_without_window(surfaces, window) == Seq::<
            SurfaceView,
        >::empty() && outputs_of_window(surfaces, window) == Seq::<OutputView>::empty(),
        surfaces.len() > 0 && surfaces.last().window.id == window ==> surfaces_without_window(
            surfaces,
            window,
        ) == surfaces_without_window(surfaces.drop_last(), window) && outputs_of_window(
            surfaces,
            window,
        ) == outputs_of_window(surfaces.drop_last(), window).push(surfaces.last().output),
        surfaces.len() > 0 && surfaces.last().window.id != window ==> surfaces_without_window(
            surfaces,
            window,
        ) == surfaces_without_window(surfaces.drop_last(), window).push(surfaces.last())
            && outputs_of_window(surfaces, window) == outputs_of_window(
            surfaces.drop_last(),
            window,
        ),
{
    reveal(Seq::filter);
    reveal(Seq::filter_map);
    if surfaces.len() == 0 {
        assert(surfaces_without_window(surfaces, window) =~= Seq::<SurfaceView>::empty());
    } else if surfaces.last().window.id == window {
        let rest = outputs_of_window(surfaces.drop_last(), window);
        assert(rest + seq![surfaces.last().output] =~= rest.push(surfaces.last().output));
    }
}

/// What closing a window leaves: every surface that stays was there before
/// and belongs to another window, every surface of another window stays, and
/// every output that goes belonged to a surface of the window.
pub proof fn lemma_close_members(surfaces: Seq<SurfaceView>, window: u32)
    ensures
        forall|k: int|
            0 <= k < surfaces_without_window(surfaces, window).len() ==> (
            #[trigger] surfaces_without_window(surfaces, window)[k]).window.id != window
                && surfaces.contains(surfaces_without_window(surfaces, window)[k]),
        forall|i: int|
            0 <= i < surfaces.len() && (#[trigger] surfaces[i]).window.id != window
                ==> surfaces_without_window(surfaces, window).contains(surfaces[i]),
        forall|k: int|
            0 <= k < outputs_of_window(surfaces, window).len() ==> exists|i: int|
                0 <= i < surfaces.len() && (#[trigger] surfaces[i]).window.id == window
                    && surfaces[i].output == #[trigger] outputs_of_window(surfaces, window)[k],
        surfaces_without_window(surfaces, window).len() + outputs_of_window(surfaces, window).len()
            == surfaces.len(),
    decreases surfaces.len(),
{
    lemma_close_step(surfaces, window);
    let kept = surfaces_without_window(surfaces, window);
    let gone = outputs_of_window(surfaces, window);
    if surfaces.len() > 0 {
        let front = surfaces.drop_last();
        let last = surfaces.last();
        lemma_close_members(front, window);
        let front_kept = surfaces_without_window(front, window);
        let front_gone = outputs_of_window(front, window);
        assert forall|k: int| 0 <= k < kept.len() implies (#[trigger] kept[k]).window.id != window
            && surfaces.contains(kept[k]) by {
            if k < front_kept.len() {
                assert(kept[k] == front_kept[k]);
                let i = choose|i: int| 0 <= i < front.len() && front[i] == front_kept[k];
                assert(surfaces[i] == kept[k]);
            } else {
                assert(surfaces[surfaces.len() - 1] == kept[k]);
            }
        }
        assert forall|i: int|
            0 <= i < surfaces.len() && (#[trigger] surfaces[i]).window.id != window implies kept.contains(
            surfaces[i],
        ) by {
            if i < front.len() {
                assert(front[i] == surfaces[i]);
                assert(front_kept.contains(front[i]));
                let k = choose|k: int| 0 <= k < front_kept.len() && front_kept[k] == front[i];
                assert(kept[k] == surfaces[i]);
            } else {
                assert(kept[kept.len() - 1] == surfaces[i]);
            }
        }
        assert forall|k: int| 0 <= k < gone.len() implies exists|i: int|
            0 <= i < surfaces.len() && (#[trigger] surfaces[i]).window.id == window
                && surfaces[i].output == #[trigger] gone[k] by {
            if k < front_gone.len() {
                assert(gone[k] == front_gone[k]);
                let i = choose|i: int|
                    0 <= i < front.len() && (#[trigger] front[i]).window.id == window
                        && front[i].output == front_gone[k];
                assert(surfaces[i] == front[i]);
            } else {
                assert(surfaces[surfaces.len() - 1].output == gone[k]);
            }
        }
    }
}

/// Closing a window leaves a well-formed registry in which neither the
/// window nor any output that went with it is found.
pub proof fn lemma_close_wf(state: X11StateView, window: u32)
    requires
        state.wf(),
    ensures
        state.closed(window).wf(),
        !state.closed(window).has_window(window),
        forall|k: int|
            0 <= k < state.closed_outputs(window).len() ==> !state.closed(window).has_output(
                (#[trigger] state.closed_outputs(window)[k]).id,
            ),
        forall|id: u64| #[trigger] state.closed(window).has_output(id) ==> state.has_output(id),
{
    let kept = surfaces_without_window(state.surfaces, window);
    let gone = outputs_of_window(state.surfaces, window);
    lemma_close_members(state.surfaces, window);
    lemma_kept_in_order(state.surfaces, window);
    let after = state.closed(window);
    assert forall|k: int| 0 <= k < kept.len() implies (#[trigger] kept[k]).wf() && kept[k].output.id
        < state.next_output by {
        let i = choose|i: int| 0 <= i < state.surfaces.len() && state.surfaces[i] == kept[k];
        assert(state.surfaces[i].wf());
    }
    assert forall|a: int, b: int| 0 <= a < kept.len() && 0 <= b < kept.len() && a != b implies (
    #[trigger] kept[a]).output.id != (#[trigger] kept[b]).output.id by {
        let ia = origin(state.surfaces, window, a);
        let ib = origin(state.surfaces, window, b);
        assert(state.surfaces[ia] == kept[a] && state.surfaces[ib] == kept[b]);
        assert(ia != ib);
    }
    lemma_close_outcome(state, window);
    assert forall|k: int| 0 <= k < gone.len() implies !after.has_output((#[trigger] gone[k]).id) by {
        let i = choose|i: int|
            0 <= i < state.surfaces.len() && (#[trigger] state.surfaces[i]).window.id == window
                && state.surfaces[i].output == gone[k];
        if after.has_output(gone[k].id) {
            let a = choose|a: int| 0 <= a < kept.len() && (#[trigger] kept[a]).output.id == gone[k].id;
            let ia = origin(state.surfaces, window, a);
            assert(state.surfaces[ia] == kept[a]);
            assert(ia != i);
            assert(false);
        }
    }
    assert forall|id: u64| #[trigger] after.has_output(id) implies state.has_output(id) by {
        let a = choose|a: int| 0 <= a < kept.len() && (#[trigger] kept[a]).output.id == id;
        let ia = origin(state.surfaces, window, a);
        assert(state.surfaces[ia].output.id == id);
    }
}

/// After closing a window no surface belongs to it. Closing a window that has
/// no surface changes nothing and yields no output; closing one that has
/// yields an output.
pub proof fn lemma_close_outcome(state: X11StateView, window: u32)
    ensures
        !state.closed(window).has_window(window),
        !state.has_window(window) ==> state.closed(window) == state && state.closed_outputs(
            window,
        ).len() == 0,
        state.has_window(window) ==> state.closed_outputs(window).len() > 0,
{
    let kept = surfaces_without_window(state.surfaces, window);
    let gone = outputs_of_window(state.surfaces, window);
    lemma_close_members(state.surfaces, window);
    if state.closed(window).has_window(window) {
        let k = choose|k: int| 0 <= k < kept.len() && (#[trigger] kept[k]).window.id == window;
        assert(false);
    }
    if !state.has_window(window) {
        lemma_close_nothing(state.surfaces, window);
    } else {
        let i = choose|i: int|
            0 <= i < state.surfaces.len() && (#[trigger] state.surfaces[i]).window.id == window;
        if gone.len() == 0 {
            assert(kept.len() == state.surfaces.len());
            lemma_kept_all(state.surfaces, window);
            assert(false);
        }
    }
}

/// Where in `surfaces` the surface that is at `k` after closing `window` was.
pub open spec fn origin(surfaces: Seq<SurfaceView>, window: u32, k: int) -> int
    decreases surfaces.len(),
{
    if surfaces.len() == 0 {
        0
    } else if k < surfaces_without_window(surfaces.drop_last(), window).len() {
        origin(surfaces.drop_last(), window, k)
    } else {
        surfaces.len() - 1
    }
}

/// Closing a window keeps the other surfaces in their order: each is found
/// where [`origin`] says, and a later one was later before.
pub proof fn lemma_kept_in_order(surfaces: Seq<SurfaceView>, window: u32)
    ensures
        forall|k: int|
            0 <= k < surfaces_without_window(surfaces, window).len() ==> 0 <= #[trigger] origin(
                surfaces,
                window,
                k,
            ) < surfaces.len() && surfaces[origin(surfaces, window, k)] == surfaces_without_window(
                surfaces,
                window,
            )[k],
        forall|a: int, b: int|
            0 <= a < b < surfaces_without_window(surfaces, window).len() ==> #[trigger] origin(
                surfaces,
                window,
                a,
            ) < #[trigger] origin(surfaces, window, b),
    decreases surfaces.len(),
{
    lemma_close_step(surfaces, window);
    if surfaces.len() > 0 {
        let front = surfaces.drop_last();
        lemma_kept_in_order(front, window);
        let kept = surfaces_without_window(surfaces, window);
        let front_kept = surfaces_without_window(front, window);
        assert forall|k: int| 0 <= k < kept.len() implies 0 <= #[trigger] origin(surfaces, window, k)
            < surfaces.len() && surfaces[origin(surfaces, window, k)] == kept[k] by {
            if k < front_kept.len() {
                assert(front[origin(front, window, k)] == front_kept[k]);
            }
        }
        assert forall|a: int, b: int| 0 <= a < b < kept.len() implies #[trigger] origin(
            surfaces,
            window,
            a,
        ) < #[trigger] origin(surfaces, window, b) by {
            if b < front_kept.len() {
                assert(origin(front, window, a) < origin(front, window, b));
            } else {
                assert(0 <= origin(front, window, a) < front.len());
            }
        }
    }
}

/// Closing a window that has no surface changes nothing.
pub proof fn lemma_close_nothing(surfaces: Seq<SurfaceView>, window: u32)
    requires
        forall|i: int| 0 <= i < surfaces.len() ==> (#[trigger] surfaces[i]).window.id != window,
    ensures
        surfaces_without_window(surfaces, window) == surfaces,
        outputs_of_window(surfaces, window).len() == 0,
    decreases surfaces.len(),
{
    lemma_close_step(surfaces, window);
    if surfaces.len() > 0 {
        let front = surfaces.drop_last();
        assert forall|i: int| 0 <= i < front.len() implies (#[trigger] front[i]).window.id
            != window by {
            assert(front[i] == surfaces[i]);
        }
        lemma_close_nothing(front, window);
        assert(surfaces[surfaces.len() - 1].window.id != window);
        assert(front.push(surfaces.last()) =~= surfaces);
    }
}

/// If closing a window removes nothing, no surface belonged to it.
pub proof fn lemma_kept_all(surfaces: Seq<SurfaceView>, window: u32)
    requires
        surfaces_without_window(surfaces, window).len() == surfaces.len(),
    ensures
        forall|i: int| 0 <= i < surfaces.len() ==> (#[trigger] surfaces[i]).window.id != window,
    decreases surfaces.len(),
{
    lemma_close_step(surfaces, window);
    if surfaces.len() > 0 {
        let front = surfaces.drop_last();
        lemma_close_members(front, window);
        lemma_kept_all(front, window);
        assert forall|i: int| 0 <= i < surfaces.len() implies (#[trigger] surfaces[i]).window.id
            != window by {
            if i < front.len() {
                assert(front[i] == surfaces[i]);
            }
        }
    }
}

/// An operation on one surface leaves a well-formed registry well formed as
/// long as it leaves the identity of the output alone and the surface well
/// formed.
pub proof fn lemma_updated_wf(state: X11StateView, i: int, surface: SurfaceView)
    requires
        state.wf(),
        0 <= i < state.surfaces.len(),
        surface.wf(),
        surface.output.id == state.surfaces[i].output.id,
    ensures
        state.updated(i, surface).wf(),
        forall|id: u64| state.updated(i, surface).has_output(id) <==> state.has_output(id),
        state.updated(i, surface).next_output == state.next_output,
{
    let after = state.updated(i, surface);
    assert forall|id: u64| after.has_output(id) <==> state.has_output(id) by {
        if after.has_output(id) {
            let k = choose|k: int|
                0 <= k < after.surfaces.len() && (#[trigger] after.surfaces[k]).output.id == id;
            assert(state.surfaces[k].output.id == id);
        }
        if state.has_output(id) {
            let k = choose|k: int|
                0 <= k < state.surfaces.len() && (#[trigger] state.surfaces[k]).output.id == id;
            assert(after.surfaces[k].output.id == id);
        }
    }
    assert forall|a: int, b: int|
        0 <= a < after.surfaces.len() && 0 <= b < after.surfaces.len() && a != b implies (
    #[trigger] after.surfaces[a]).output.id != (#[trigger] after.surfaces[b]).output.id by {
        assert(after.surfaces[a].output.id == state.surfaces[a].output.id);
        assert(after.surfaces[b].output.id == state.surfaces[b].output.id);
    }
    assert forall|k: int| 0 <= k < after.surfaces.len() implies (#[trigger] after.surfaces[k]).wf()
        && after.surfaces[k].output.id < after.next_output by {
        assert(after.surfaces[k].output.id == state.surfaces[k].output.id);
        if k != i {
            assert(state.surfaces[k].wf());
        }
    }
}

/// Where the registry says an output or a window is, it is.
pub proof fn lemma_index_is_first(state: X11StateView, id: u64, window: u32)
    ensures
        state.has_output(id) ==> state.first_output(id, state.output_index(id)),
        state.has_window(window) ==> state.first_window(window, state.window_index(window)),
{
    if state.has_output(id) {
        let k = choose|k: int|
            0 <= k < state.surfaces.len() && (#[trigger] state.surfaces[k]).output.id == id;
        lemma_first_below(state, id, k);
    }
    if state.has_window(window) {
        let k = choose|k: int|
            0 <= k < state.surfaces.len() && (#[trigger] state.surfaces[k]).window.id == window;
        lemma_first_window_below(state, window, k);
    }
}

/// A surface that shows the output `id` has a first such surface at or
/// before it.
pub proof fn lemma_first_below(state: X11StateView, id: u64, k: int)
    requires
        0 <= k < state.surfaces.len(),
        state.surfaces[k].output.id == id,
    ensures
        exists|i: int| 0 <= i <= k && state.first_output(id, i),
    decreases k,
{
    if exists|j: int| 0 <= j < k && (#[trigger] state.surfaces[j]).output.id == id {
        let j = choose|j: int| 0 <= j < k && (#[trigger] state.surfaces[j]).output.id == id;
        lemma_first_below(state, id, j);
        let i = choose|i: int| 0 <= i <= j && state.first_output(id, i);
        assert(0 <= i <= k && state.first_output(id, i));
    } else {
        assert(state.first_output(id, k));
    }
}

/// A surface of the window `window` has a first such surface at or before
/// it.
pub proof fn lemma_first_window_below(state: X11StateView, window: u32, k: int)
    requires
        0 <= k < state.surfaces.len(),
        state.surfaces[k].window.id == window,
    ensures
        exists|i: int| 0 <= i <= k && state.first_window(window, i),
    decreases k,
{
    if exists|j: int| 0 <= j < k && (#[trigger] state.surfaces[j]).window.id == window {
        let j = choose|j: int| 0 <= j < k && (#[trigger] state.surfaces[j]).window.id == window;
        lemma_first_window_below(state, window, j);
        let i = choose|i: int| 0 <= i <= j && state.first_window(window, i);
        assert(0 <= i <= k && state.first_window(window, i));
    } else {
        assert(state.first_window(window, k));
    }
}

/// Whatever happens to a well-formed registry leaves it well formed; no
/// identity is given out twice, and an output is registered afterwards only
/// if it was before or is the one that was just added.
pub proof fn lemma_apply_wf(state: X11StateView, op: X11Op)
    requires
        state.wf(),
        state.admits(op),
    ensures
        state.apply(op).wf(),
        state.apply(op).next_output >= state.next_output,
        state.apply(op).allocator == state.allocator,
        forall|id: u64|
            #[trigger] state.apply(op).has_output(id) ==> state.has_output(id) || (op is AddWindow
                && id == state.next_output),
{
    let after = state.apply(op);
    match op {
        X11Op::AddWindow(window) => {
            let surface = SurfaceView::created(
                window,
                state.next_output,
                output_name(state.surfaces.len()),
            );
            let mode = crate::surface::window_mode(window.size);
            assert(surface.wf());
            assert forall|k: int| 0 <= k < after.surfaces.len() implies (
            #[trigger] after.surfaces[k]).wf() && after.surfaces[k].output.id
                < after.next_output by {
                if k < state.surfaces.len() {
                    assert(state.surfaces[k].wf());
                }
            }
            assert forall|a: int, b: int|
                0 <= a < after.surfaces.len() && 0 <= b < after.surfaces.len() && a
                    != b implies (#[trigger] after.surfaces[a]).output.id != (
            #[trigger] after.surfaces[b]).output.id by {
                if a < state.surfaces.len() {
                    assert(state.surfaces[a].output.id < state.next_output);
                }
                if b < state.surfaces.len() {
                    assert(state.surfaces[b].output.id < state.next_output);
                }
            }
            assert forall|id: u64| #[trigger] after.has_output(id) implies state.has_output(id)
                || id == state.next_output by {
                let k = choose|k: int|
                    0 <= k < after.surfaces.len() && (#[trigger] after.surfaces[k]).output.id == id;
                if k < state.surfaces.len() {
                    assert(state.surfaces[k].output.id == id);
                }
            }
        },
        X11Op::ScheduleRender(id) => {
            lemma_index_is_first(state, id, 0);
            if state.has_output(id) {
                let i = state.output_index(id);
                assert(state.surfaces[i].wf());
                lemma_updated_wf(state, i, state.surfaces[i].scheduled(SchedEvent::MarkDirty));
            }
        },
        X11Op::BeginRender(id) => {
            lemma_index_is_first(state, id, 0);
            if state.has_output(id) {
                let i = state.output_index(id);
                assert(state.surfaces[i].wf());
                lemma_updated_wf(
                    state,
                    i,
                    SurfaceView {
                        scheduler: state.surfaces[i].scheduler.wake_taken(),
                        ..state.surfaces[i]
                    },
                );
            }
        },
        X11Op::FinishRender(id, attempt) => {
            lemma_index_is_first(state, id, 0);
            if state.has_output(id) {
                let i = state.output_index(id);
                assert(state.surfaces[i].wf());
                lemma_updated_wf(
                    state,
                    i,
                    SurfaceView {
                        scheduler: state.surfaces[i].scheduler.frame_attempted(),
                        ..state.surfaces[i].rendered(attempt)
                    },
                );
            }
        },
        X11Op::Resize(window, size) => {
            lemma_index_is_first(state, 0, window);
            if state.has_window(window) {
                let i = state.window_index(window);
                assert(state.surfaces[i].wf());
                crate::surface::lemma_remoded_runs_only(
                    state.surfaces[i],
                    crate::surface::window_mode(size),
                );
                lemma_updated_wf(state, i, state.surfaces[i].resized(size));
            }
        },
        X11Op::PresentationComplete(window) => {
            lemma_index_is_first(state, 0, window);
            if state.has_window(window) {
                let i = state.window_index(window);
                assert(state.surfaces[i].wf());
                lemma_updated_wf(
                    state,
                    i,
                    state.surfaces[i].scheduled(SchedEvent::PresentationComplete),
                );
            }
        },
        X11Op::Close(window) => {
            lemma_close_wf(state, window);
        },
        X11Op::ApplyConfig(test_only) => {
            assert(state.surfaces[0].wf());
            if !(state.config_matches() || test_only) {
                lemma_updated_wf(
                    state,
                    0,
                    SurfaceView {
                        config: OutputConfig {
                            mode_size: state.surfaces[0].window.size.pixels(),
                            mode_refresh: None,
                        },
                        ..state.surfaces[0]
                    },
                );
            }
        },
        X11Op::SetConfig(id, config) => {
            lemma_index_is_first(state, id, 0);
            if state.has_output(id) {
                let i = state.output_index(id);
                assert(state.surfaces[i].wf());
                lemma_updated_wf(state, i, SurfaceView { config, ..state.surfaces[i] });
            }
        },
        X11Op::UpdateScreenFilter(filter) => {
            assert forall|k: int| 0 <= k < after.surfaces.len() implies (
            #[trigger] after.surfaces[k]).wf() && after.surfaces[k].output.id
                < after.next_output by {
                assert(state.surfaces[k].wf());
            }
            assert forall|a: int, b: int|
                0 <= a < after.surfaces.len() && 0 <= b < after.surfaces.len() && a
                    != b implies (#[trigger] after.surfaces[a]).output.id != (
            #[trigger] after.surfaces[b]).output.id by {
                assert(state.surfaces[a].output.id != state.surfaces[b].output.id);
            }
            assert forall|id: u64| #[trigger] after.has_output(id) implies state.has_output(id) by {
                let k = choose|k: int|
                    0 <= k < after.surfaces.len() && (#[trigger] after.surfaces[k]).output.id == id;
                assert(state.surfaces[k].output.id == id);
            }
        },
    }
}

/// Closing a window retires the outputs of its surfaces.
pub proof fn lemma_close_retires(state: X11StateView, window: u32, k: int)
    requires
        state.wf(),
        0 <= k < state.closed_outputs(window).len(),
    ensures
        state.closed(window).retired(state.closed_outputs(window)[k].id),
        !state.closed(window).has_window(window),
{
    lemma_close_wf(state, window);
    lemma_close_members(state.surfaces, window);
    let gone = state.closed_outputs(window);
    let i = choose|i: int|
        0 <= i < state.surfaces.len() && (#[trigger] state.surfaces[i]).window.id == window
            && state.surfaces[i].output == gone[k];
    assert(state.surfaces[i].output.id < state.next_output);
}

/// A retired output stays retired whatever happens, and nothing that happens
/// renders a frame for it: its wake, should it still fire, changes nothing.
pub proof fn lemma_retired_stays(state: X11StateView, op: X11Op, id: u64)
    requires
        state.wf(),
        state.admits(op),
        state.retired(id),
    ensures
        state.apply(op).retired(id),
        !state.renders(op, id),
        state.wake_taken(id) == state,
        forall|attempt: FrameAttempt| #[trigger] state.render_finished(id, attempt) == state,
        state.render_scheduled(id) == state,
{
    lemma_apply_wf(state, op);
    if state.apply(op).has_output(id) {
        assert(state.has_output(id) || id == state.next_output);
    }
}

/// After a window was closed, no frame is rendered for an output that went
/// with it, and neither the output nor the window is found in the registry,
/// whatever happens afterwards, short of the window being added anew.
pub proof fn lemma_no_render_after_close(
    state: X11StateView,
    window: u32,
    k: int,
    ops: Seq<X11Op>,
)
    requires
        state.wf(),
        0 <= k < state.closed_outputs(window).len(),
        state.closed(window).admits_all(ops),
    ensures
        state.closed(window).run(ops).wf(),
        state.closed(window).run(ops).retired(state.closed_outputs(window)[k].id),
        forall|i: int|
            0 <= i < ops.len() ==> !state.closed(window).run(ops.take(i)).renders(
                #[trigger] ops[i],
                state.closed_outputs(window)[k].id,
            ),
    decreases ops.len(),
{
    let id = state.closed_outputs(window)[k].id;
    let start = state.closed(window);
    lemma_close_retires(state, window, k);
    lemma_close_wf(state, window);
    if ops.len() > 0 {
        let before = ops.drop_last();
        lemma_no_render_after_close(state, window, k, before);
        lemma_apply_wf(start.run(before), ops.last());
        lemma_retired_stays(start.run(before), ops.last(), id);
        assert forall|i: int| 0 <= i < ops.len() implies !start.run(ops.take(i)).renders(
            #[trigger] ops[i],
            id,
        ) by {
            if i < before.len() {
                assert(ops.take(i) =~= before.take(i));
                assert(ops[i] == before[i]);
            } else {
                assert(ops.take(i) =~= before);
            }
        }
    }
}

/// A failed render leaves the session running: every surface is still
/// registered, the registry is well formed, and the surface whose render
/// failed composes its next frame in full, whatever age the buffer has that
/// it gets.
pub proof fn lemma_render_failure_is_contained(
    state: X11StateView,
    id: u64,
    failed: FrameAttempt,
    buffer_age: u8,
)
    requires
        state.wf(),
        state.has_output(id),
        failed.failed_to_render(),
    ensures
        ({
            let after = state.wake_taken(id).render_finished(id, failed);
            &&& after.wf()
            &&& after.surfaces.len() == state.surfaces.len()
            &&& after.allocator == state.allocator
            &&& forall|other: u64| after.has_output(other) <==> state.has_output(other)
            &&& after.output_index(id) == state.output_index(id)
            &&& after.surfaces[after.output_index(id)] == state.surfaces[state.output_index(
                id,
            )].woken(failed)
            &&& after.surfaces[after.output_index(id)].composition_age(buffer_age) == 0
            &&& forall|j: int|
                0 <= j < state.surfaces.len() && j != state.output_index(id)
                    ==> #[trigger] after.surfaces[j] == state.surfaces[j]
        }),
{
    lemma_index_is_first(state, id, 0);
    let i = state.output_index(id);
    let taken = state.wake_taken(id);
    let taken_surface = SurfaceView {
        scheduler: state.surfaces[i].scheduler.wake_taken(),
        ..state.surfaces[i]
    };
    assert(state.surfaces[i].wf());
    lemma_updated_wf(state, i, taken_surface);
    assert(taken.first_output(id, i)) by {
        assert forall|j: int| 0 <= j < i implies (#[trigger] taken.surfaces[j]).output.id != id by {
            assert(state.surfaces[j].output.id != id);
        }
    }
    lemma_first_output_unique(taken, id, i, i);
    let after = taken.render_finished(id, failed);
    let done_surface = SurfaceView {
        scheduler: taken_surface.scheduler.frame_attempted(),
        ..taken_surface.rendered(failed)
    };
    lemma_updated_wf(taken, i, done_surface);
    assert(after.first_output(id, i)) by {
        assert forall|j: int| 0 <= j < i implies (#[trigger] after.surfaces[j]).output.id != id by {
            assert(state.surfaces[j].output.id != id);
        }
    }
    lemma_first_output_unique(after, id, i, i);
    assert(done_surface == state.surfaces[i].woken(failed));
}

} // verus!
