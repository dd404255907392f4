use cosmic_comp::geometry::{Point, Rect, Size};
use cosmic_comp::menu::{
    best_candidate, check_submenu_fits, duplicate_items, menu_position, submenu_position,
    ButtonState, ContextMenu, Element, Item, ItemBounds, Length, MenuAction, MenuGrab, Message,
    PointerAction, Row,
};

fn rect(x: i32, y: i32, w: i32, h: i32) -> Rect {
    Rect { loc: Point { x, y }, size: Size { w, h } }
}

fn bounds(x: i32, y: i32, width: i32, height: i32) -> ItemBounds {
    ItemBounds { x, y, width, height }
}

fn title(item: &Item) -> &str {
    match item {
        Item::Separator => "",
        Item::Submenu { title, .. } => title,
        Item::Entry { title, .. } => title,
    }
}

fn sample_items() -> Vec<Item> {
    vec![
        Item::new("Minimize".to_string(), 1).shortcut(Some("Super+H".to_string())),
        Item::Separator,
        Item::new_submenu(
            "Move to".to_string(),
            vec![Item::new("Left".to_string(), 10), Item::new("Right".to_string(), 11)],
        ),
        Item::new("Sticky".to_string(), 2).toggled(true).disabled(true),
    ]
}

#[test]
fn a_new_entry_is_plain() {
    match Item::new("Close".to_string(), 7) {
        Item::Entry { title, shortcut, on_press, toggled, submenu, disabled } => {
            assert_eq!(title, "Close");
            assert_eq!(shortcut, None);
            assert_eq!(on_press, 7);
            assert!(!toggled);
            assert!(!submenu);
            assert!(!disabled);
        }
        other => panic!("{:?}", other),
    }
}

#[test]
fn builders_change_one_property_of_an_entry() {
    let item = Item::new("Close".to_string(), 7)
        .shortcut(Some("Alt+F4".to_string()))
        .toggled(true)
        .disabled(true);
    match item {
        Item::Entry { title, shortcut, on_press, toggled, submenu, disabled } => {
            assert_eq!(title, "Close");
            assert_eq!(shortcut.as_deref(), Some("Alt+F4"));
            assert_eq!(on_press, 7);
            assert!(toggled);
            assert!(!submenu);
            assert!(disabled);
        }
        other => panic!("{:?}", other),
    }
    let item = Item::new("Close".to_string(), 7)
        .shortcut(Some("Alt+F4".to_string()))
        .shortcut(None)
        .toggled(true)
        .toggled(false);
    assert!(matches!(
        item,
        Item::Entry { shortcut: None, toggled: false, disabled: false, .. }
    ));
}

#[test]
fn builders_leave_other_items_alone() {
    assert!(matches!(
        Item::Separator.shortcut(Some("x".to_string())).toggled(true).disabled(true),
        Item::Separator
    ));
    let sub = Item::new_submenu("More".to_string(), vec![Item::Separator])
        .shortcut(Some("x".to_string()))
        .toggled(true)
        .disabled(true);
    match sub {
        Item::Submenu { title, items } => {
            assert_eq!(title, "More");
            assert_eq!(items.len(), 1);
            assert!(matches!(items[0], Item::Separator));
        }
        other => panic!("{:?}", other),
    }
}

#[test]
fn a_copy_holds_the_same_items() {
    let items = sample_items();
    let copies = duplicate_items(&items);
    assert_eq!(copies.len(), 4);
    assert_eq!(format!("{:?}", copies), format!("{:?}", items));
    let copy = items[2].duplicate();
    match copy {
        Item::Submenu { title, items } => {
            assert_eq!(title, "Move to");
            assert_eq!(items.iter().map(title_of).collect::<Vec<_>>(), vec!["Left", "Right"]);
        }
        other => panic!("{:?}", other),
    }
}

fn title_of(item: &Item) -> String {
    title(item).to_string()
}

#[test]
fn pressing_an_entry_activates_it() {
    let mut menu = ContextMenu::new(sample_items());
    assert!(!menu.selected());
    assert_eq!(menu.items().len(), 4);
    assert_eq!(menu.update(Message::ItemPressed(1)), MenuAction::Nothing);
    assert_eq!(menu.update(Message::ItemPressed(2)), MenuAction::Nothing);
    assert_eq!(menu.update(Message::ItemPressed(4)), MenuAction::Nothing);
    assert!(!menu.selected());
    assert_eq!(menu.update(Message::ItemPressed(0)), MenuAction::Activate(1));
    assert!(menu.selected());
    // A disabled entry is activated all the same if it is pressed.
    assert_eq!(menu.update(Message::ItemPressed(3)), MenuAction::Activate(2));
    assert_eq!(menu.update(Message::ItemPressed(1)), MenuAction::Nothing);
    assert!(menu.selected());
}

#[test]
fn an_entry_with_a_menu_opens_and_closes_it() {
    let mut menu = ContextMenu::new(sample_items());
    let line = bounds(0, 48, 180, 24);
    assert_eq!(
        menu.update(Message::cursor_entered(2, line)),
        MenuAction::OpenSubmenu { index: 2, bounds: line }
    );
    assert_eq!(menu.update(Message::cursor_left(2, line)), MenuAction::CloseSubmenu);
    assert_eq!(menu.update(Message::ItemEntered(0, line)), MenuAction::Nothing);
    assert_eq!(menu.update(Message::ItemLeft(0, line)), MenuAction::Nothing);
    assert_eq!(menu.update(Message::ItemEntered(1, line)), MenuAction::Nothing);
    assert_eq!(menu.update(Message::ItemEntered(9, line)), MenuAction::Nothing);
    assert_eq!(menu.update(Message::ItemLeft(9, line)), MenuAction::Nothing);
    assert!(!menu.selected());
    assert_eq!(Message::cursor_entered(3, line), Message::ItemEntered(3, line));
    assert_eq!(Message::cursor_left(3, line), Message::ItemLeft(3, line));
}

#[test]
fn a_menu_opens_where_it_shows_most() {
    let output = rect(0, 0, 1920, 1080);
    let size = Size { w: 200, h: 300 };
    // Room on all sides: below and right of the pointer.
    assert_eq!(menu_position(Point { x: 500, y: 500 }, size, output), Point { x: 500, y: 500 });
    // Near the right edge: flipped to the left.
    assert_eq!(menu_position(Point { x: 1900, y: 500 }, size, output), Point { x: 1700, y: 500 });
    // Near the bottom edge: flipped up.
    assert_eq!(menu_position(Point { x: 500, y: 1000 }, size, output), Point { x: 500, y: 700 });
    // In the bottom right corner: flipped both ways.
    assert_eq!(
        menu_position(Point { x: 1900, y: 1000 }, size, output),
        Point { x: 1700, y: 700 }
    );
    // Off the output altogether, nothing shows anywhere: the first place is taken.
    assert_eq!(
        menu_position(Point { x: 5000, y: 5000 }, size, output),
        Point { x: 5000, y: 5000 }
    );
}

#[test]
fn the_first_of_equally_good_places_is_taken() {
    let output = rect(0, 0, 1000, 1000);
    let same = vec![rect(10, 10, 5, 5), rect(20, 20, 5, 5), rect(30, 30, 5, 5)];
    assert_eq!(best_candidate(&same, output), 0);
    let later = vec![rect(-3, 0, 5, 5), rect(20, 20, 5, 5), rect(30, 30, 5, 5)];
    assert_eq!(best_candidate(&later, output), 1);
    let shown_last = vec![rect(-30, 0, 5, 5), rect(-20, 20, 5, 5), rect(995, 30, 5, 5)];
    assert_eq!(best_candidate(&shown_last, output), 2);
    let none = vec![rect(-30, 0, 5, 5), rect(-20, 20, 5, 5)];
    assert_eq!(best_candidate(&none, output), 0);
}

#[test]
fn a_further_menu_opens_beside_the_line_of_its_item() {
    let output = rect(0, 0, 1920, 1080);
    let size = Size { w: 150, h: 200 };
    let line = bounds(0, 48, 180, 24);
    assert!(check_submenu_fits(line, size));
    // Room to the right, going down from the line.
    assert_eq!(
        submenu_position(Point { x: 100, y: 100 }, line, size, output),
        Point { x: 280, y: 148 }
    );
    // No room below: going up, so that the menu ends with the line.
    assert_eq!(
        submenu_position(Point { x: 100, y: 900 }, line, size, output),
        Point { x: 280, y: 900 + 48 + 24 - 200 }
    );
    // No room to the right: to the left of the menu.
    assert_eq!(
        submenu_position(Point { x: 1700, y: 100 }, line, size, output),
        Point { x: 1550, y: 148 }
    );
    assert_eq!(
        submenu_position(Point { x: 1700, y: 900 }, line, size, output),
        Point { x: 1550, y: 772 }
    );
}

#[test]
fn sizes_that_do_not_fit_the_arithmetic_are_told_apart() {
    assert!(check_submenu_fits(bounds(0, 0, 0, 0), Size { w: 0, h: 0 }));
    assert!(!check_submenu_fits(bounds(0, i32::MAX, 0, 1), Size { w: 0, h: 0 }));
    assert!(!check_submenu_fits(bounds(0, i32::MAX, 0, 1), Size { w: 0, h: 1 }));
    assert!(!check_submenu_fits(bounds(0, i32::MIN, 0, 0), Size { w: 0, h: 1 }));
    assert!(!check_submenu_fits(bounds(0, 0, 0, 0), Size { w: i32::MIN, h: 0 }));
    assert!(check_submenu_fits(bounds(0, i32::MAX, 0, 0), Size { w: i32::MAX, h: i32::MAX }));
}

#[test]
fn a_grab_starts_with_one_menu() {
    let grab = MenuGrab::new(Point { x: 1900, y: 10 }, Size { w: 200, h: 100 }, rect(0, 0, 1920, 1080));
    assert_eq!(
        grab.elements().clone(),
        vec![Element {
            position: Point { x: 1700, y: 10 },
            size: Size { w: 200, h: 100 },
            pointer_entered: false
        }]
    );
}

#[test]
fn the_pointer_enters_moves_over_and_leaves_menus() {
    let output = rect(0, 0, 1920, 1080);
    let mut grab = MenuGrab::new(Point { x: 100, y: 100 }, Size { w: 200, h: 100 }, output);
    let place = grab.push_submenu(bounds(0, 30, 200, 20), Size { w: 100, h: 100 }, output);
    assert_eq!(place, Point { x: 300, y: 130 });
    assert_eq!(grab.elements().len(), 2);

    assert_eq!(grab.motion(Point { x: 50, y: 50 }), Vec::<PointerAction>::new());
    assert_eq!(grab.motion(Point { x: 150, y: 150 }), vec![PointerAction::Enter(0)]);
    assert_eq!(grab.motion(Point { x: 151, y: 150 }), vec![PointerAction::Motion(0)]);
    // Straight on to the further menu: it is entered, the first one is not left.
    assert_eq!(grab.motion(Point { x: 350, y: 150 }), vec![PointerAction::Enter(1)]);
    assert!(grab.elements()[0].pointer_entered);
    assert!(grab.elements()[1].pointer_entered);
    // Off all menus: every entered menu is left, in order.
    assert_eq!(
        grab.motion(Point { x: 0, y: 0 }),
        vec![PointerAction::Leave(0), PointerAction::Leave(1)]
    );
    assert!(!grab.elements()[0].pointer_entered);
    assert!(!grab.elements()[1].pointer_entered);
    assert_eq!(grab.motion(Point { x: 0, y: 0 }), Vec::<PointerAction>::new());

    let closed = grab.pop_submenu().unwrap();
    assert_eq!(closed.position, Point { x: 300, y: 130 });
    assert_eq!(grab.elements().len(), 1);
    assert!(grab.pop_submenu().is_some());
    assert!(grab.pop_submenu().is_none());
    assert_eq!(grab.motion(Point { x: 150, y: 150 }), Vec::<PointerAction>::new());
}

#[test]
fn the_first_of_two_menus_under_the_pointer_gets_it() {
    let output = rect(0, 0, 1920, 1080);
    let mut grab = MenuGrab::new(Point { x: 100, y: 100 }, Size { w: 200, h: 100 }, output);
    // The further menu would not fit on the right and goes left, over the first one.
    let wide = rect(0, 0, 350, 1080);
    grab.push_submenu(bounds(0, 0, 200, 20), Size { w: 100, h: 100 }, wide);
    assert_eq!(grab.elements()[1].position, Point { x: 0, y: 100 });
    grab.push_submenu(bounds(0, 0, 0, 0), Size { w: 50, h: 50 }, output);
    assert_eq!(grab.elements()[2].position, Point { x: 0, y: 100 });
    assert_eq!(grab.motion(Point { x: 10, y: 110 }), vec![PointerAction::Enter(1)]);
    assert!(!grab.elements()[2].pointer_entered);
}

#[test]
fn buttons_end_the_grab_or_reach_the_menus() {
    let output = rect(0, 0, 1920, 1080);
    let mut grab = MenuGrab::new(Point { x: 100, y: 100 }, Size { w: 200, h: 100 }, output);
    grab.push_submenu(bounds(0, 30, 200, 20), Size { w: 100, h: 100 }, output);

    // Away from all menus: a press ends the grab, a release does nothing.
    let outcome = grab.button(ButtonState::Pressed);
    assert!(outcome.targets.is_empty());
    assert!(outcome.unset_grab);
    assert!(!outcome.forward);
    let outcome = grab.button(ButtonState::Released);
    assert!(outcome.targets.is_empty());
    assert!(!outcome.unset_grab);
    assert!(!outcome.forward);

    // Over a menu: a press reaches it and goes on, a release reaches it and ends the grab.
    grab.motion(Point { x: 350, y: 150 });
    let outcome = grab.button(ButtonState::Pressed);
    assert_eq!(outcome.targets, vec![1]);
    assert!(!outcome.unset_grab);
    assert!(outcome.forward);
    let outcome = grab.button(ButtonState::Released);
    assert_eq!(outcome.targets, vec![1]);
    assert!(outcome.unset_grab);
    assert!(!outcome.forward);

    grab.motion(Point { x: 150, y: 150 });
    assert_eq!(grab.button(ButtonState::Pressed).targets, vec![0, 1]);
}

#[test]
fn a_menu_is_drawn_line_by_line() {
    let mut menu = ContextMenu::new(sample_items());
    assert_eq!(menu.row_width(), None);
    let layout = menu.layout();
    assert_eq!(layout.width, Length::Shrink);
    assert_eq!(layout.title_width, Length::Shrink);
    assert_eq!(layout.rows.len(), 4);
    match &layout.rows[0] {
        Row::Entry { index, title, shortcut, checked, dimmed, on_press } => {
            assert_eq!(*index, 0);
            assert_eq!(title, "Minimize");
            assert_eq!(shortcut.as_deref(), Some("Super+H"));
            assert!(!checked);
            assert!(!dimmed);
            assert_eq!(*on_press, Some(Message::ItemPressed(0)));
        }
        other => panic!("{:?}", other),
    }
    assert!(matches!(layout.rows[1], Row::Divider));
    match &layout.rows[2] {
        Row::Submenu { index, title } => {
            assert_eq!(*index, 2);
            assert_eq!(title, "Move to");
        }
        other => panic!("{:?}", other),
    }
    match &layout.rows[3] {
        Row::Entry { index, title, shortcut, checked, dimmed, on_press } => {
            assert_eq!(*index, 3);
            assert_eq!(title, "Sticky");
            assert_eq!(*shortcut, None);
            assert!(checked);
            assert!(dimmed);
            // A disabled entry cannot be pressed.
            assert_eq!(*on_press, None);
        }
        other => panic!("{:?}", other),
    }

    menu.set_row_width(Some(212));
    assert_eq!(menu.row_width(), Some(212));
    let layout = menu.layout();
    assert_eq!(layout.width, Length::Fixed(212));
    assert_eq!(layout.title_width, Length::Fill);
    assert_eq!(layout.rows.len(), 4);
    assert!(ContextMenu::new(Vec::new()).layout().rows.is_empty());
}
