use cosmic_comp::allocator::{Allocator, AllocatorSelection, DeviceFd, Probe, ProbeFailure};
use cosmic_comp::error::{Error, ErrorClass};
use cosmic_comp::geometry::{Point, Rect, Size, WindowSize};
use cosmic_comp::output::{format_output_name, Mode, OutputConfig, Subpixel, Transform};
use cosmic_comp::scheduler::{FrameScheduler, Ping};
use cosmic_comp::surface::{
    ColorFilter, FeedbackKind, Format, FrameAction, FrameAttempt, PresentationFeedback, Refresh,
    Resized, ScreenFilter, Window,
};
use cosmic_comp::x11::{init_backend, X11State};

const XRGB8888: u32 = 0x3432_5258;
const ARGB8888: u32 = 0x3432_5241;

fn session() -> X11State {
    X11State::new(Allocator::Gbm(DeviceFd { fd: 3 }))
}

fn window(id: u32, w: u16, h: u16) -> Window {
    Window { id, size: WindowSize { w, h }, format: XRGB8888 }
}

fn full(w: i32, h: i32) -> Vec<Rect> {
    vec![Rect { loc: Point { x: 0, y: 0 }, size: Size { w, h } }]
}

fn flags(dirty: bool, pending: bool, signalled: bool) -> FrameScheduler {
    FrameScheduler { dirty, pending, wake: Ping { signalled } }
}

fn vsync() -> FeedbackKind {
    FeedbackKind { vsync: true, hw_clock: false, hw_completion: false, zero_copy: false }
}

/// Brings the only surface of `state` to rest: first frame shown and presented.
fn settle(state: &mut X11State, output: &cosmic_comp::output::Output, window: u32) {
    assert!(state.begin_render(output).is_some());
    let report = state
        .finish_render(output, &FrameAttempt::Submitted { damage: full(800, 600) }, 1)
        .unwrap();
    assert_eq!(report.result, Ok(()));
    assert_eq!(state.on_presentation_complete(window), Ok(false));
    assert_eq!(state.surfaces()[0].scheduler(), flags(false, false, false));
}

#[test]
fn resize_to_the_current_size_does_nothing() {
    let mut state = session();
    let output = state.add_window(window(7, 800, 600));
    settle(&mut state, &output, 7);
    let age = state.surfaces()[0].age();

    assert_eq!(
        state.resize(7, WindowSize { w: 800, h: 600 }),
        Ok(Resized { changed: false, wake: false })
    );
    assert_eq!(state.surfaces()[0].scheduler(), flags(false, false, false));
    assert_eq!(state.surfaces()[0].age(), age);
    assert_eq!(
        state.surfaces()[0].output().current_mode(),
        Some(Mode { size: Size { w: 800, h: 600 }, refresh: 60_000 })
    );

    assert_eq!(
        state.resize(7, WindowSize { w: 1024, h: 768 }),
        Ok(Resized { changed: true, wake: true })
    );
    let surface = &state.surfaces()[0];
    assert!(surface.is_dirty());
    assert_eq!(surface.scheduler(), flags(true, true, true));
    assert_eq!(surface.age(), 0);
    assert_eq!(surface.window().size, WindowSize { w: 1024, h: 768 });
    let mode = Mode { size: Size { w: 1024, h: 768 }, refresh: 60_000 };
    assert_eq!(surface.output().current_mode(), Some(mode));
    assert_eq!(surface.output().preferred_mode(), Some(mode));
    assert_eq!(surface.output().modes().clone(), vec![mode]);
    assert_eq!(surface.config().mode_size, Size { w: 1024, h: 768 });

    // The wake is scheduled once: another resize while it is pending asks for none.
    assert_eq!(
        state.resize(7, WindowSize { w: 640, h: 480 }),
        Ok(Resized { changed: true, wake: false })
    );
    assert_eq!(state.surfaces()[0].scheduler(), flags(true, true, true));
}

#[test]
fn a_new_surface_renders_without_damage() {
    let mut state = session();
    let output = state.add_window(window(7, 800, 600));
    assert_eq!(state.len(), 1);
    let surface = &state.surfaces()[0];
    assert!(!surface.is_dirty());
    assert!(surface.is_pending());
    assert_eq!(surface.scheduler(), flags(false, true, true));
    assert_eq!(surface.age(), 0);

    // The first wake fires although nothing was ever marked dirty.
    assert_eq!(state.begin_render(&output), Some(window(7, 800, 600)));
    assert_eq!(state.composition_age(&output, 0), Some(0));
    assert_eq!(state.composition_age(&output, 2), Some(0));
    let report = state
        .finish_render(&output, &FrameAttempt::Submitted { damage: full(800, 600) }, 42)
        .unwrap();
    assert_eq!(report.result, Ok(()));
    assert_eq!(
        report.actions,
        vec![
            FrameAction::SendFrames(0),
            FrameAction::UpdatePrimaryOutput(0),
            FrameAction::SendDmabufFeedback(0),
            FrameAction::Presented(PresentationFeedback {
                output: 0,
                presented_at: 42,
                refresh: Refresh::Fixed { millihertz: 60_000 },
                sequence: 0,
                kind: vsync(),
            }),
        ]
    );
    let surface = &state.surfaces()[0];
    assert_eq!(surface.scheduler(), flags(false, true, false));
    assert_eq!(surface.age(), 1);
}

#[test]
fn a_new_output_is_described_by_its_window() {
    let mut state = session();
    let first = state.add_window(window(7, 800, 600));
    let second = state.add_window(window(9, 1280, 720));
    assert_eq!(first.id(), 0);
    assert_eq!(second.id(), 1);
    assert_eq!(first.name().as_str(), "X11-0");
    assert_eq!(second.name().as_str(), "X11-1");
    assert_eq!(second.physical_properties().make.as_str(), "COSMIC");
    assert_eq!(second.physical_properties().model.as_str(), "X11-1");
    assert_eq!(second.physical_properties().size, Size { w: 0, h: 0 });
    assert_eq!(second.physical_properties().subpixel, Subpixel::Unknown);
    let mode = Mode { size: Size { w: 1280, h: 720 }, refresh: 60_000 };
    assert_eq!(second.modes().clone(), vec![mode]);
    assert_eq!(second.current_mode(), Some(mode));
    assert_eq!(second.preferred_mode(), Some(mode));
    assert_eq!(second.current_transform(), Transform::Normal);
    assert_eq!(second.current_scale(), 1);
    assert_eq!(second.current_location(), Point { x: 0, y: 0 });
    assert_eq!(
        state.config(&second),
        Some(OutputConfig { mode_size: Size { w: 1280, h: 720 }, mode_refresh: None })
    );
    assert_eq!(state.outputs_created(), 2);
    let all = state.all_outputs();
    assert_eq!(all.len(), 2);
    assert_eq!(all[0].id(), 0);
    assert_eq!(all[1].id(), 1);
    assert_eq!(all[1].name().as_str(), "X11-1");
    assert_eq!(state.output_for_window(9).unwrap().id(), 1);
    assert!(state.output_for_window(8).is_none());
}

#[test]
fn output_names_count_in_decimal() {
    assert_eq!(format_output_name(0).as_str(), "X11-0");
    assert_eq!(format_output_name(9).as_str(), "X11-9");
    assert_eq!(format_output_name(10).as_str(), "X11-10");
    assert_eq!(format_output_name(407).as_str(), "X11-407");
    assert_eq!(format_output_name(65536).as_str(), "X11-65536");
}

#[test]
fn a_name_follows_the_position_and_an_identity_is_never_reused() {
    let mut state = session();
    let a = state.add_window(window(1, 10, 10));
    let b = state.add_window(window(2, 10, 10));
    assert_eq!(state.close(1).unwrap().len(), 1);
    let c = state.add_window(window(3, 10, 10));
    assert_eq!(b.name().as_str(), "X11-1");
    assert_eq!(c.name().as_str(), "X11-1");
    assert_eq!((a.id(), b.id(), c.id()), (0, 1, 2));
    assert_eq!(state.schedule_render(&a), Err(Error::NotFound));
}

#[test]
fn invalidations_between_two_wakes_cost_one_frame() {
    let mut state = session();
    let output = state.add_window(window(7, 800, 600));
    settle(&mut state, &output, 7);

    // Idle: the first invalidation schedules the wake, the others are absorbed.
    assert_eq!(state.schedule_render(&output), Ok(true));
    assert_eq!(state.schedule_render(&output), Ok(false));
    assert_eq!(state.schedule_render(&output), Ok(false));
    assert_eq!(state.surfaces()[0].scheduler(), flags(true, true, true));

    // The wake fires once and renders once.
    assert!(state.begin_render(&output).is_some());
    state.finish_render(&output, &FrameAttempt::Submitted { damage: full(8, 8) }, 2).unwrap();
    assert_eq!(state.surfaces()[0].scheduler(), flags(false, true, false));

    // Damage while the frame is under way waits for the presentation.
    assert_eq!(state.schedule_render(&output), Ok(false));
    assert_eq!(state.schedule_render(&output), Ok(false));
    assert_eq!(state.surfaces()[0].scheduler(), flags(true, true, false));
    assert_eq!(state.on_presentation_complete(7), Ok(true));
    // A second completion finds the wake signalled and schedules nothing.
    assert_eq!(state.on_presentation_complete(7), Ok(false));
    assert_eq!(state.surfaces()[0].scheduler(), flags(true, true, true));

    assert!(state.begin_render(&output).is_some());
    state.finish_render(&output, &FrameAttempt::Submitted { damage: Vec::new() }, 3).unwrap();
    assert_eq!(state.on_presentation_complete(7), Ok(false));
    assert_eq!(state.surfaces()[0].scheduler(), flags(false, false, false));
}

#[test]
fn feedback_is_sent_only_for_damage() {
    let mut state = session();
    let output = state.add_window(window(7, 800, 600));
    state.begin_render(&output);
    let report = state
        .finish_render(&output, &FrameAttempt::Submitted { damage: Vec::new() }, 5)
        .unwrap();
    assert_eq!(report.result, Ok(()));
    assert_eq!(
        report.actions,
        vec![
            FrameAction::SendFrames(0),
            FrameAction::UpdatePrimaryOutput(0),
            FrameAction::SendDmabufFeedback(0),
        ]
    );
    assert_eq!(state.surfaces()[0].age(), 1);
}

#[test]
fn a_failed_render_resets_the_buffers_and_the_session_goes_on() {
    let mut state = session();
    let output = state.add_window(window(7, 800, 600));
    let other = state.add_window(window(8, 100, 100));
    settle(&mut state, &output, 7);
    for now in 2..5u64 {
        state.schedule_render(&output).unwrap();
        state.begin_render(&output);
        state.finish_render(&output, &FrameAttempt::Submitted { damage: full(1, 1) }, now);
        state.on_presentation_complete(7).unwrap();
    }
    assert_eq!(state.surfaces()[0].age(), 4);
    assert_eq!(state.composition_age(&output, 2), Some(2));
    assert_eq!(state.composition_age(&output, 4), Some(4));
    assert_eq!(state.composition_age(&output, 5), Some(0));

    state.schedule_render(&output).unwrap();
    state.begin_render(&output);
    let report = state.finish_render(&output, &FrameAttempt::CompositionFailed, 9).unwrap();
    assert_eq!(report.result, Err(Error::RenderFailed));
    assert_eq!(report.actions, vec![FrameAction::ResetBuffers]);
    assert_eq!(Error::RenderFailed.class(), ErrorClass::Render);
    assert!(!Error::RenderFailed.is_fatal());
    assert_eq!(state.len(), 2);
    assert_eq!(state.surfaces()[0].age(), 0);
    assert_eq!(state.surfaces()[0].scheduler(), flags(false, true, false));
    assert_eq!(state.surfaces()[1].scheduler(), flags(false, true, true));

    // The next cycle composes in full whatever the buffer claims.
    assert_eq!(state.schedule_render(&output), Ok(false));
    assert_eq!(state.on_presentation_complete(7), Ok(true));
    assert!(state.begin_render(&output).is_some());
    assert_eq!(state.composition_age(&output, 3), Some(0));
    assert_eq!(state.composition_age(&output, 0), Some(0));
    let report = state
        .finish_render(&output, &FrameAttempt::Submitted { damage: full(800, 600) }, 10)
        .unwrap();
    assert_eq!(report.result, Ok(()));
    assert_eq!(state.surfaces()[0].age(), 1);
    assert_eq!(state.composition_age(&other, 1), Some(0));

    state.begin_render(&output);
    let report = state.finish_render(&output, &FrameAttempt::SubmissionFailed, 11).unwrap();
    assert_eq!(report.result, Err(Error::SubmitFailed));
    assert_eq!(report.actions, vec![FrameAction::ResetBuffers]);
    assert_eq!(state.surfaces()[0].age(), 0);
}

#[test]
fn a_missing_buffer_leaves_the_damage_history_alone() {
    let mut state = session();
    let output = state.add_window(window(7, 800, 600));
    settle(&mut state, &output, 7);
    assert_eq!(state.surfaces()[0].age(), 1);
    state.schedule_render(&output).unwrap();
    state.begin_render(&output);
    let report = state.finish_render(&output, &FrameAttempt::AcquireFailed, 2).unwrap();
    assert_eq!(report.result, Err(Error::BufferUnavailable));
    assert!(report.actions.is_empty());
    assert_eq!(Error::BufferUnavailable.class(), ErrorClass::Allocation);
    assert_eq!(state.surfaces()[0].age(), 1);
    assert_eq!(state.surfaces()[0].scheduler(), flags(false, true, false));
    state.begin_render(&output);
    let report = state.finish_render(&output, &FrameAttempt::BindFailed, 3).unwrap();
    assert_eq!(report.result, Err(Error::BindFailed));
    assert!(report.actions.is_empty());
    assert_eq!(state.surfaces()[0].age(), 1);
}

#[test]
fn a_closed_window_is_gone_and_its_wake_is_void() {
    let mut state = session();
    let a = state.add_window(window(7, 800, 600));
    let b = state.add_window(window(8, 640, 480));
    let removed = state.close(7).unwrap();
    assert_eq!(removed.len(), 1);
    assert_eq!(removed[0].id(), a.id());
    assert_eq!(removed[0].name().as_str(), "X11-0");
    assert_eq!(state.len(), 1);
    assert_eq!(state.surfaces()[0].window().id, 8);
    assert_eq!(state.all_outputs()[0].id(), b.id());

    // The wake that was scheduled for the first frame fires into nothing.
    assert_eq!(state.begin_render(&a), None);
    assert_eq!(state.composition_age(&a, 0), None);
    assert!(state
        .finish_render(&a, &FrameAttempt::Submitted { damage: full(1, 1) }, 1)
        .is_none());
    assert_eq!(state.schedule_render(&a), Err(Error::NotFound));
    assert_eq!(state.resize(7, WindowSize { w: 1, h: 1 }), Err(Error::NotFound));
    assert_eq!(state.on_presentation_complete(7), Err(Error::NotFound));
    assert_eq!(state.close(7).unwrap_err(), Error::NotFound);
    assert!(state.output_for_window(7).is_none());
    assert_eq!(state.config(&a), None);
    assert_eq!(
        state.set_config(&a, OutputConfig { mode_size: Size { w: 1, h: 1 }, mode_refresh: None }),
        Err(Error::NotFound)
    );
    assert_eq!(Error::NotFound.class(), ErrorClass::Lookup);
    assert_eq!(state.len(), 1);
    assert_eq!(state.surfaces()[0].scheduler(), flags(false, true, true));
}

#[test]
fn closing_takes_every_surface_of_the_window() {
    let mut state = session();
    let a = state.add_window(window(7, 1, 1));
    let b = state.add_window(window(8, 2, 2));
    let c = state.add_window(window(7, 3, 3));
    let removed = state.close(7).unwrap();
    assert_eq!(removed.iter().map(|o| o.id()).collect::<Vec<_>>(), vec![a.id(), c.id()]);
    assert_eq!(state.len(), 1);
    assert_eq!(state.all_outputs()[0].id(), b.id());
}

#[test]
fn settings_cannot_resize_a_window() {
    let mut state = session();
    let output = state.add_window(window(7, 800, 600));
    assert_eq!(state.apply_config_for_outputs(false), Ok(()));
    assert_eq!(state.apply_config_for_outputs(true), Ok(()));

    let asked = OutputConfig { mode_size: Size { w: 1920, h: 1080 }, mode_refresh: Some(144_000) };
    assert_eq!(state.set_config(&output, asked), Ok(()));
    assert_eq!(state.apply_config_for_outputs(true), Err(Error::CannotSetWindowSize));
    assert_eq!(state.config(&output), Some(asked));
    assert_eq!(state.apply_config_for_outputs(false), Err(Error::CannotSetWindowSize));
    assert_eq!(
        state.config(&output),
        Some(OutputConfig { mode_size: Size { w: 800, h: 600 }, mode_refresh: None })
    );
    assert_eq!(state.apply_config_for_outputs(false), Ok(()));
    assert_eq!(Error::CannotSetWindowSize.message(), "Cannot set window size");
}

#[test]
fn a_screen_filter_reaches_every_surface() {
    let mut state = session();
    state.add_window(window(7, 800, 600));
    state.add_window(window(8, 800, 600));
    assert_eq!(
        state.surfaces()[0].screen_filter(),
        ScreenFilter { inverted: false, color_filter: None }
    );
    let filter = ScreenFilter { inverted: true, color_filter: Some(ColorFilter::Tritanopia) };
    assert_eq!(state.update_screen_filter(&filter), Ok(()));
    assert_eq!(state.surfaces()[0].screen_filter(), filter);
    assert_eq!(state.surfaces()[1].screen_filter(), filter);
    assert_eq!(session().update_screen_filter(&filter), Ok(()));
}

#[test]
fn input_marks_every_listed_output_dirty() {
    let mut state = session();
    let a = state.add_window(window(7, 800, 600));
    let b = state.add_window(window(8, 800, 600));
    let gone = state.add_window(window(9, 800, 600));
    state.close(9).unwrap();
    settle(&mut state, &a, 7);

    let listed = vec![b.duplicate(), gone.duplicate(), a.duplicate(), a.duplicate()];
    let armed = state.process_x11_event(&listed);
    // `b` has its first frame pending, `gone` is not registered, `a` was idle.
    assert_eq!(armed, vec![a.id()]);
    assert_eq!(state.surfaces()[0].scheduler(), flags(true, true, true));
    assert_eq!(state.surfaces()[1].scheduler(), flags(true, true, true));
    assert_eq!(state.process_x11_event(&listed), Vec::<u64>::new());
    assert_eq!(state.process_x11_event(&Vec::new()), Vec::<u64>::new());
}

#[test]
fn modifiers_are_those_of_the_format_of_the_window() {
    let state = session();
    let supported = vec![
        Format { code: ARGB8888, modifier: 1 },
        Format { code: XRGB8888, modifier: 0 },
        Format { code: XRGB8888, modifier: 0x0100_0000_0000_0002 },
        Format { code: ARGB8888, modifier: 0 },
        Format { code: XRGB8888, modifier: 0 },
    ];
    let (allocator, modifiers) = state.surface_request(XRGB8888, &supported);
    assert_eq!(allocator, Allocator::Gbm(DeviceFd { fd: 3 }));
    assert_eq!(modifiers, vec![0, 0x0100_0000_0000_0002, 0]);
    assert_eq!(state.surface_request(0, &supported).1, Vec::<u64>::new());
    assert_eq!(state.surface_request(XRGB8888, &Vec::new()).1, Vec::<u64>::new());
}

#[test]
fn a_session_is_built_on_the_adopted_allocator() {
    let mut selection = AllocatorSelection::new(AllocatorSelection::default_order());
    selection.record(Probe::Unavailable(ProbeFailure::NoDevices));
    selection.record(Probe::Ready(Allocator::Gbm(DeviceFd { fd: 11 })));
    let state = init_backend(selection).unwrap();
    assert_eq!(state.allocator(), Allocator::Gbm(DeviceFd { fd: 11 }));
    assert_eq!(state.len(), 0);
    assert!(state.all_outputs().is_empty());

    let mut selection = AllocatorSelection::new(AllocatorSelection::default_order());
    selection.record(Probe::Unavailable(ProbeFailure::InstanceFailed));
    selection.record(Probe::Unavailable(ProbeFailure::GbmDeviceFailed));
    assert_eq!(init_backend(selection).unwrap_err(), Error::NoBackendAvailable);

    // A selection that was given up on before any candidate was ready has no allocator.
    let selection = AllocatorSelection::new(AllocatorSelection::default_order());
    assert_eq!(init_backend(selection).unwrap_err(), Error::NoBackendAvailable);
}
