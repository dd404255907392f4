use cosmic_comp::geometry::{Point, Rect, Size};
use cosmic_comp::overlap::{
    overlap_with, take_snapshot, Identifier, Layer, LayerInfo, LayerOverlap,
    LayerOverlapNotificationDataInternal, OverlapEvent, OverlapNotifyState, OverlapSnapshot,
    ToplevelEntry, ToplevelInfo, IDENTIFIER_LEN,
};

fn rect(x: i32, y: i32, w: i32, h: i32) -> Rect {
    Rect { loc: Point { x, y }, size: Size { w, h } }
}

fn show(events: &[OverlapEvent]) -> Vec<String> {
    events.iter().map(|event| format!("{:?}", event)).collect()
}

fn toplevels(snapshot: &OverlapSnapshot) -> Vec<(u64, Rect)> {
    snapshot.toplevel_overlaps().iter().map(|e| (e.toplevel, e.region)).collect()
}

fn layers(snapshot: &OverlapSnapshot) -> Vec<(String, LayerOverlap)> {
    snapshot.layer_overlaps().iter().map(|e| (e.identifier.clone(), e.overlap)).collect()
}

#[test]
fn an_identifier_is_thirty_two_letters_and_digits() {
    let a = Identifier::default();
    let b = Identifier::default();
    assert_eq!(IDENTIFIER_LEN, 32);
    assert_eq!(a.0.chars().count(), 32);
    assert_eq!(a.0.len(), 32);
    assert!(a.0.chars().all(|c| c.is_ascii_alphanumeric()));
    assert!(b.0.chars().all(|c| c.is_ascii_alphanumeric()));
    assert_ne!(a.0, b.0);
}

#[test]
fn a_handle_is_noted_once() {
    let mut snapshot = OverlapSnapshot::new();
    snapshot.add_toplevel(&vec![4, 5], rect(0, 0, 10, 10));
    snapshot.add_toplevel(&vec![6], rect(1, 1, 1, 1));
    snapshot.add_toplevel(&vec![5, 7, 7], rect(2, 2, 2, 2));
    snapshot.add_toplevel(&Vec::new(), rect(9, 9, 9, 9));
    assert_eq!(
        toplevels(&snapshot),
        vec![
            (4, rect(0, 0, 10, 10)),
            (5, rect(2, 2, 2, 2)),
            (6, rect(1, 1, 1, 1)),
            (7, rect(2, 2, 2, 2)),
        ]
    );
    assert_eq!(
        snapshot.toplevel_overlaps()[0],
        ToplevelEntry { toplevel: 4, region: rect(0, 0, 10, 10) }
    );
}

#[test]
fn a_layer_is_noted_once() {
    let mut snapshot = OverlapSnapshot::new();
    snapshot.add_layer("panel".to_string(), true, Layer::Top, rect(0, 0, 10, 10));
    snapshot.add_layer("dock".to_string(), false, Layer::Bottom, rect(1, 1, 1, 1));
    snapshot.add_layer("panel".to_string(), false, Layer::Overlay, rect(2, 2, 2, 2));
    assert_eq!(
        layers(&snapshot),
        vec![
            (
                "panel".to_string(),
                LayerOverlap { exclusive: false, layer: Layer::Overlay, region: rect(2, 2, 2, 2) }
            ),
            (
                "dock".to_string(),
                LayerOverlap { exclusive: false, layer: Layer::Bottom, region: rect(1, 1, 1, 1) }
            ),
        ]
    );
    assert!(snapshot.toplevel_overlaps().is_empty());
}

#[test]
fn an_overlap_is_seen_from_the_other_surface() {
    let watched = rect(100, 0, 200, 40);
    assert_eq!(overlap_with(watched, rect(150, 20, 500, 500)), Some(rect(0, 0, 150, 20)));
    assert_eq!(overlap_with(watched, rect(0, 0, 120, 100)), Some(rect(100, 0, 20, 40)));
    assert_eq!(overlap_with(watched, rect(0, 40, 500, 500)), None);
    assert_eq!(overlap_with(watched, watched), Some(rect(0, 0, 200, 40)));
}

#[test]
fn a_snapshot_lists_what_lies_over_the_surface() {
    let watched = rect(0, 0, 1920, 40);
    let windows = vec![
        ToplevelInfo { handles: vec![1, 2], geometry: Some(rect(100, 20, 800, 600)) },
        ToplevelInfo { handles: vec![3], geometry: Some(rect(100, 400, 800, 600)) },
        ToplevelInfo { handles: vec![4], geometry: None },
        ToplevelInfo { handles: Vec::new(), geometry: Some(rect(0, 0, 10, 10)) },
        ToplevelInfo { handles: vec![5], geometry: Some(rect(1900, 0, 100, 100)) },
    ];
    let others = vec![
        LayerInfo {
            identifier: "dock".to_string(),
            exclusive: true,
            layer: Layer::Top,
            geometry: rect(0, 30, 64, 1000),
        },
        LayerInfo {
            identifier: "osd".to_string(),
            exclusive: false,
            layer: Layer::Overlay,
            geometry: rect(0, 500, 64, 100),
        },
    ];
    let snapshot = take_snapshot(watched, &windows, &others);
    assert_eq!(
        toplevels(&snapshot),
        vec![(1, rect(0, 0, 800, 20)), (2, rect(0, 0, 800, 20)), (5, rect(0, 0, 20, 40))]
    );
    assert_eq!(
        layers(&snapshot),
        vec![(
            "dock".to_string(),
            LayerOverlap { exclusive: true, layer: Layer::Top, region: rect(0, 0, 64, 10) }
        )]
    );
    let empty = take_snapshot(watched, &Vec::new(), &Vec::new());
    assert!(empty.toplevel_overlaps().is_empty());
    assert!(empty.layer_overlaps().is_empty());
}

#[test]
fn a_new_watcher_is_told_of_everything() {
    let mut data = LayerOverlapNotificationDataInternal::new();
    assert!(show(&data.add_notification(70)).is_empty());
    let mut snapshot = OverlapSnapshot::new();
    snapshot.add_toplevel(&vec![4, 5], rect(0, 0, 10, 10));
    snapshot.add_layer("panel".to_string(), true, Layer::Top, rect(1, 2, 3, 4));
    snapshot.add_layer("dock".to_string(), false, Layer::Background, rect(5, 6, 7, 8));
    data.update_snapshot(snapshot);
    let events = data.add_notification(71);
    assert_eq!(
        show(&events),
        show(&[
            OverlapEvent::ToplevelEnter { toplevel: 4, region: rect(0, 0, 10, 10) },
            OverlapEvent::ToplevelEnter { toplevel: 5, region: rect(0, 0, 10, 10) },
            OverlapEvent::LayerEnter {
                identifier: "panel".to_string(),
                exclusive: 1,
                layer: Layer::Top,
                region: rect(1, 2, 3, 4),
            },
            OverlapEvent::LayerEnter {
                identifier: "dock".to_string(),
                exclusive: 0,
                layer: Layer::Background,
                region: rect(5, 6, 7, 8),
            },
        ])
    );
    assert_eq!(data.active_notifications().clone(), vec![70, 71]);
}

#[test]
fn a_new_snapshot_tells_what_changed() {
    let mut data = LayerOverlapNotificationDataInternal::new();
    data.add_notification(70);
    let mut first = OverlapSnapshot::new();
    first.add_toplevel(&vec![1, 2], rect(0, 0, 10, 10));
    first.add_layer("panel".to_string(), true, Layer::Top, rect(1, 2, 3, 4));
    first.add_layer("dock".to_string(), false, Layer::Bottom, rect(5, 6, 7, 8));
    let events = data.update_snapshot(first);
    assert_eq!(
        show(&events),
        show(&[
            OverlapEvent::ToplevelEnter { toplevel: 1, region: rect(0, 0, 10, 10) },
            OverlapEvent::ToplevelEnter { toplevel: 2, region: rect(0, 0, 10, 10) },
            OverlapEvent::LayerEnter {
                identifier: "panel".to_string(),
                exclusive: 1,
                layer: Layer::Top,
                region: rect(1, 2, 3, 4),
            },
            OverlapEvent::LayerEnter {
                identifier: "dock".to_string(),
                exclusive: 0,
                layer: Layer::Bottom,
                region: rect(5, 6, 7, 8),
            },
        ])
    );

    let mut second = OverlapSnapshot::new();
    second.add_toplevel(&vec![3], rect(9, 9, 9, 9));
    second.add_toplevel(&vec![2], rect(7, 7, 7, 7));
    second.add_layer("dock".to_string(), false, Layer::Bottom, rect(0, 0, 1, 1));
    second.add_layer("osd".to_string(), false, Layer::Overlay, rect(2, 2, 2, 2));
    let events = data.update_snapshot(second);
    assert_eq!(
        show(&events),
        show(&[
            // Toplevel 1 is gone; toplevel 2 stays and nothing is said of its new region.
            OverlapEvent::ToplevelLeave { toplevel: 1 },
            OverlapEvent::ToplevelEnter { toplevel: 3, region: rect(9, 9, 9, 9) },
            // The leave is sent for the layer that still overlaps, none for the one that went.
            OverlapEvent::LayerLeave { identifier: "dock".to_string() },
            OverlapEvent::LayerEnter {
                identifier: "osd".to_string(),
                exclusive: 0,
                layer: Layer::Overlay,
                region: rect(2, 2, 2, 2),
            },
        ])
    );
    assert_eq!(toplevels(data.last_snapshot()), vec![(3, rect(9, 9, 9, 9)), (2, rect(7, 7, 7, 7))]);

    let events = data.update_snapshot(OverlapSnapshot::new());
    assert_eq!(
        show(&events),
        show(&[
            OverlapEvent::ToplevelLeave { toplevel: 3 },
            OverlapEvent::ToplevelLeave { toplevel: 2 },
        ])
    );
    assert!(show(&data.update_snapshot(OverlapSnapshot::new())).is_empty());
}

#[test]
fn dead_watchers_are_forgotten() {
    let mut data = LayerOverlapNotificationDataInternal::new();
    assert!(!data.has_active_notifications(&vec![1, 2, 3]));
    data.add_notification(1);
    data.add_notification(2);
    data.add_notification(3);
    assert!(data.has_active_notifications(&vec![3, 1, 9]));
    assert_eq!(data.active_notifications().clone(), vec![1, 3]);
    assert!(data.has_active_notifications(&vec![3, 3]));
    assert_eq!(data.active_notifications().clone(), vec![3]);
    assert!(!data.has_active_notifications(&Vec::new()));
    assert!(data.active_notifications().is_empty());
}

#[test]
fn a_refresh_looks_only_where_someone_watches() {
    let watched = rect(0, 0, 100, 100);
    let windows = vec![ToplevelInfo { handles: vec![1], geometry: Some(rect(50, 50, 100, 100)) }];
    let mut data = LayerOverlapNotificationDataInternal::new();
    data.add_notification(8);

    // The only watcher is dead: nothing is looked at.
    let events = OverlapNotifyState::refresh(&mut data, &vec![9], watched, &windows, &Vec::new());
    assert!(events.is_empty());
    assert!(data.last_snapshot().toplevel_overlaps().is_empty());

    data.add_notification(9);
    let events = OverlapNotifyState::refresh(&mut data, &vec![9], watched, &windows, &Vec::new());
    assert_eq!(
        show(&events),
        show(&[OverlapEvent::ToplevelEnter { toplevel: 1, region: rect(0, 0, 50, 50) }])
    );
    let events = OverlapNotifyState::refresh(&mut data, &vec![9], watched, &windows, &Vec::new());
    assert!(events.is_empty());
    let events = OverlapNotifyState::refresh(&mut data, &vec![9], watched, &Vec::new(), &Vec::new());
    assert_eq!(show(&events), show(&[OverlapEvent::ToplevelLeave { toplevel: 1 }]));
}

#[test]
fn instances_are_bound_and_destroyed() {
    let mut state = OverlapNotifyState::new();
    assert!(state.instances().is_empty());
    state.bind(3);
    state.bind(4);
    state.bind(3);
    assert_eq!(state.instances().clone(), vec![3, 4, 3]);
    state.destroyed(3);
    assert_eq!(state.instances().clone(), vec![4]);
    state.destroyed(5);
    assert_eq!(state.instances().clone(), vec![4]);
}
