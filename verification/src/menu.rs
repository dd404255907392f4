//! Context menus: what they hold, where they open, and what the pointer does
//! to them.
//!
//! A menu is a column of items; an item can open a further menu beside it.
//! While a menu is up it grabs the pointer: the menus that are open are the
//! elements of the grab, the first one opened first.

use crate::geometry::{Point, Rect, Size};
use vstd::prelude::*;

verus! {

/// One line of a menu.
#[derive(Debug)]
pub enum Item {
    /// A line between groups of entries.
    Separator,
    /// An entry that opens a further menu.
    Submenu { title: String, items: Vec<Item> },
    /// An entry that can be chosen.
    Entry {
        title: String,
        /// The keys that do the same, to show beside the title.
        shortcut: Option<String>,
        /// The caller's name for what choosing the entry does.
        on_press: u64,
        /// Whether the entry shows a check mark.
        toggled: bool,
        submenu: bool,
        /// Whether the entry is greyed out.
        disabled: bool,
    },
}

/// Model of an [`Item`].
pub enum ItemView {
    Separator,
    Submenu { title: Seq<char>, items: Seq<ItemView> },
    Entry {
        title: Seq<char>,
        shortcut: Option<Seq<char>>,
        on_press: u64,
        toggled: bool,
        submenu: bool,
        disabled: bool,
    },
}

/// The model of `item`.
pub open spec fn item_view(item: Item) -> ItemView
    decreases item,
{
    match item {
        Item::Separator => ItemView::Separator,
        Item::Submenu { title, items } => ItemView::Submenu {
            title: title@,
            items: item_views(items@),
        },
        Item::Entry { title, shortcut, on_press, toggled, submenu, disabled } => ItemView::Entry {
            title: title@,
            shortcut: shortcut_view(shortcut),
            on_press,
            toggled,
            submenu,
            disabled,
        },
    }
}

/// The models of `items`, in their order.
pub open spec fn item_views(items: Seq<Item>) -> Seq<ItemView>
    decreases items,
{
    if items.len() == 0 {
        Seq::empty()
    } else {
        item_views(items.drop_last()).push(item_view(items.last()))
    }
}

impl View for Item {
    type V = ItemView;

    open spec fn view(&self) -> ItemView {
        item_view(*self)
    }
}

/// The models of a list of items are the models of its items, one for one.
pub proof fn lemma_item_views(items: Seq<Item>)
    ensures
        item_views(items).len() == items.len(),
        forall|i: int| 0 <= i < items.len() ==> #[trigger] item_views(items)[i] == items[i]@,
    decreases items.len(),
{
    if items.len() > 0 {
        lemma_item_views(items.drop_last());
        assert forall|i: int| 0 <= i < items.len() implies #[trigger] item_views(items)[i]
            == items[i]@ by {
            if i < items.len() - 1 {
                assert(items.drop_last()[i] == items[i]);
            }
        }
    }
}

/// A list of items with one more item has the models of the list and the
/// model of that item.
pub proof fn lemma_item_views_push(items: Seq<Item>, item: Item)
    ensures
        item_views(items.push(item)) == item_views(items).push(item@),
{
    assert(items.push(item).drop_last() =~= items);
}

impl ItemView {
    /// The item with `shortcut` shown beside it, if it is an entry that can be
    /// chosen; any other item as it is.
    pub open spec fn with_shortcut(self, shortcut: Option<Seq<char>>) -> ItemView {
        match self {
            ItemView::Entry { title, shortcut: _, on_press, toggled, submenu, disabled } => {
                ItemView::Entry { title, shortcut, on_press, toggled, submenu, disabled }
            },
            other => other,
        }
    }

    /// The item with its check mark set to `toggled`, if it is an entry that
    /// can be chosen; any other item as it is.
    pub open spec fn with_toggled(self, toggled: bool) -> ItemView {
        match self {
            ItemView::Entry { title, shortcut, on_press, toggled: _, submenu, disabled } => {
                ItemView::Entry { title, shortcut, on_press, toggled, submenu, disabled }
            },
            other => other,
        }
    }

    /// The item greyed out or not, if it is an entry that can be chosen; any
    /// other item as it is.
    pub open spec fn with_disabled(self, disabled: bool) -> ItemView {
        match self {
            ItemView::Entry { title, shortcut, on_press, toggled, submenu, disabled: _ } => {
                ItemView::Entry { title, shortcut, on_press, toggled, submenu, disabled }
            },
            other => other,
        }
    }
}

/// The view of a shortcut.
pub open spec fn shortcut_view(shortcut: Option<String>) -> Option<Seq<char>> {
    match shortcut {
        Some(keys) => Some(keys@),
        None => None,
    }
}

impl Item {
    /// An entry titled `title` that does `on_press` when chosen.
    pub fn new(title: String, on_press: u64) -> (item: Item)
        ensures
            item@ == (ItemView::Entry {
                title: title@,
                shortcut: None,
                on_press,
                toggled: false,
                submenu: false,
                disabled: false,
            }),
    {
        Item::Entry {
            title,
            shortcut: None,
            on_press,
            toggled: false,
            submenu: false,
            disabled: false,
        }
    }

    /// An entry titled `title` that opens a menu of `items`.
    pub fn new_submenu(title: String, items: Vec<Item>) -> (item: Item)
        ensures
            item@ == (ItemView::Submenu { title: title@, items: item_views(items@) }),
    {
        Item::Submenu { title, items }
    }

    /// The item with `shortcut` shown beside it, if it is an entry that can be
    /// chosen; any other item as it is.
    pub fn shortcut(self, shortcut: Option<String>) -> (item: Item)
        ensures
            item@ == self@.with_shortcut(shortcut_view(shortcut)),
    {
        match self {
            Item::Entry { title, shortcut: _, on_press, toggled, submenu, disabled } => {
                Item::Entry { title, shortcut, on_press, toggled, submenu, disabled }
            },
            other => other,
        }
    }

    /// The item with its check mark set to `toggled`, if it is an entry that
    /// can be chosen; any other item as it is.
    pub fn toggled(self, toggled: bool) -> (item: Item)
        ensures
            item@ == self@.with_toggled(toggled),
    {
        match self {
            Item::Entry { title, shortcut, on_press, toggled: _, submenu, disabled } => {
                Item::Entry { title, shortcut, on_press, toggled, submenu, disabled }
            },
            other => other,
        }
    }

    /// The item greyed out or not, if it is an entry that can be chosen; any
    /// other item as it is.
    pub fn disabled(self, disabled: bool) -> (item: Item)
        ensures
            item@ == self@.with_disabled(disabled),
    {
        match self {
            Item::Entry { title, shortcut, on_press, toggled, submenu, disabled: _ } => {
                Item::Entry { title, shortcut, on_press, toggled, submenu, disabled }
            },
            other => other,
        }
    }

    /// A copy of the item, with copies of the items of its menu.
    pub fn duplicate(&self) -> (copy: Item)
        ensures
            copy@ == self@,
        decreases self,
    {
        match self {
            Item::Separator => Item::Separator,
            Item::Submenu { title, items } => {
                let copies = duplicate_items(items);
                Item::Submenu { title: title.clone(), items: copies }
            },
            Item::Entry { title, shortcut, on_press, toggled, submenu, disabled } => {
                let keys = match shortcut {
                    Some(keys) => Some(keys.clone()),
                    None => None,
                };
                Item::Entry {
                    title: title.clone(),
                    shortcut: keys,
                    on_press: *on_press,
                    toggled: *toggled,
                    submenu: *submenu,
                    disabled: *disabled,
                }
            },
        }
    }
}

/// Copies of `items`, in their order.
pub fn duplicate_items(items: &Vec<Item>) -> (copies: Vec<Item>)
    ensures
        item_views(copies@) == item_views(items@),
    decreases items,
{
    let mut copies: Vec<Item> = Vec::new();
    let mut i: usize = 0;
    while i < items.len()
        invariant
            i <= items@.len(),
            copies@.len() == i,
            item_views(copies@) == item_views(items@.take(i as int)),
        decreases items@.len() - i,
    {
        let ghost before = copies@;
        copies.push(items[i].duplicate());
        proof {
            lemma_item_views_push(before, copies@[i as int]);
            lemma_item_views_push(items@.take(i as int), items@[i as int]);
            assert(items@.take(i + 1) =~= items@.take(i as int).push(items@[i as int]));
        }
        i = i + 1;
    }
    assert(items@.take(items@.len() as int) =~= items@);
    copies
}

/// Where the line of an item lies in its menu, in whole pixels.
#[derive(Clone, Copy, Debug, PartialEq, Eq, Structural)]
pub struct ItemBounds {
    pub x: i32,
    pub y: i32,
    pub width: i32,
    pub height: i32,
}

/// What the pointer did to an item of a menu.
#[derive(Clone, Copy, Debug, PartialEq, Eq, Structural)]
pub enum Message {
    /// The pointer came onto the item at this position.
    ItemEntered(usize, ItemBounds),
    /// The item at this position was pressed.
    ItemPressed(usize),
    /// The pointer left the item at this position.
    ItemLeft(usize, ItemBounds),
}

/// What a menu asks for in answer to a [`Message`].
#[derive(Clone, Copy, Debug, PartialEq, Eq, Structural)]
pub enum MenuAction {
    Nothing,
    /// Do what the chosen entry stands for.
    Activate(u64),
    /// Open the menu of the item at `index` beside its line.
    OpenSubmenu { index: usize, bounds: ItemBounds },
    /// Close the menu that was opened last.
    CloseSubmenu,
}

impl Message {
    /// The message for the pointer coming onto item `idx`.
    pub fn cursor_entered(idx: usize, bounds: ItemBounds) -> (message: Message)
        ensures
            message == Message::ItemEntered(idx, bounds),
    {
        Message::ItemEntered(idx, bounds)
    }

    /// The message for the pointer leaving item `idx`.
    pub fn cursor_left(idx: usize, bounds: ItemBounds) -> (message: Message)
        ensures
            message == Message::ItemLeft(idx, bounds),
    {
        Message::ItemLeft(idx, bounds)
    }
}

/// What `items` asks for in answer to `message`: pressing an entry activates
/// it, coming onto an entry with a menu opens that menu, leaving such an
/// entry closes the menu opened last. Anything else, and any position that
/// no item is at, asks for nothing.
pub open spec fn menu_answer(items: Seq<ItemView>, message: Message) -> MenuAction {
    match message {
        Message::ItemPressed(idx) => if idx < items.len() && items[idx as int] is Entry {
            MenuAction::Activate(items[idx as int]->on_press)
        } else {
            MenuAction::Nothing
        },
        Message::ItemEntered(idx, bounds) => if idx < items.len() && items[idx as int] is Submenu {
            MenuAction::OpenSubmenu { index: idx, bounds }
        } else {
            MenuAction::Nothing
        },
        Message::ItemLeft(idx, _) => if idx < items.len() && items[idx as int] is Submenu {
            MenuAction::CloseSubmenu
        } else {
            MenuAction::Nothing
        },
    }
}

/// Model of a [`ContextMenu`].
pub struct ContextMenuView {
    /// The items, top to bottom.
    pub items: Seq<ItemView>,
    /// Whether an entry was chosen.
    pub selected: bool,
    /// The width that every line is laid out at, once the menu was measured.
    pub row_width: Option<i32>,
}

/// A menu that is shown.
#[derive(Debug)]
pub struct ContextMenu {
    items: Vec<Item>,
    selected: bool,
    row_width: Option<i32>,
}

impl View for ContextMenu {
    type V = ContextMenuView;

    closed spec fn view(&self) -> ContextMenuView {
        ContextMenuView {
            items: item_views(self.items@),
            selected: self.selected,
            row_width: self.row_width,
        }
    }
}

/// How wide something is laid out.
#[derive(Clone, Copy, Debug, PartialEq, Eq, Structural)]
pub enum Length {
    /// As wide as its content.
    Shrink,
    /// As wide as there is room.
    Fill,
    /// This many pixels.
    Fixed(i32),
}

/// One line of a menu as it is drawn.
#[derive(Debug)]
pub enum Row {
    /// A thin line.
    Divider,
    /// A title with an arrow that points to the further menu.
    Submenu { index: usize, title: String },
    /// A title with what goes with it.
    Entry {
        index: usize,
        title: String,
        /// The keys to show at the right, if any.
        shortcut: Option<String>,
        /// Whether a check mark is drawn before the title.
        checked: bool,
        /// Whether the title is drawn faintly.
        dimmed: bool,
        /// What pressing the line sends; a line that sends nothing cannot be
        /// pressed.
        on_press: Option<Message>,
    },
}

/// Model of a [`Row`].
pub enum RowView {
    Divider,
    Submenu { index: usize, title: Seq<char> },
    Entry {
        index: usize,
        title: Seq<char>,
        shortcut: Option<Seq<char>>,
        checked: bool,
        dimmed: bool,
        on_press: Option<Message>,
    },
}

impl View for Row {
    type V = RowView;

    open spec fn view(&self) -> RowView {
        match self {
            Row::Divider => RowView::Divider,
            Row::Submenu { index, title } => RowView::Submenu { index: *index, title: title@ },
            Row::Entry { index, title, shortcut, checked, dimmed, on_press } => RowView::Entry {
                index: *index,
                title: title@,
                shortcut: shortcut_view(*shortcut),
                checked: *checked,
                dimmed: *dimmed,
                on_press: *on_press,
            },
        }
    }
}

/// A menu as it is drawn.
#[derive(Debug)]
pub struct MenuLayout {
    /// How wide every line is.
    pub width: Length,
    /// How wide the title within a line is.
    pub title_width: Length,
    /// The lines, top to bottom.
    pub rows: Vec<Row>,
}

/// The models of `rows`, in their order.
pub open spec fn row_views(rows: Seq<Row>) -> Seq<RowView> {
    Seq::new(rows.len(), |i: int| rows[i]@)
}

/// The line that the item `item` at position `index` is drawn as: a
/// separator as a divider, an entry with a menu by its title, and an entry
/// that can be chosen with its check mark and its shortcut, faint and not to
/// be pressed if it is disabled.
pub open spec fn row_of(item: ItemView, index: usize) -> RowView {
    match item {
        ItemView::Separator => RowView::Divider,
        ItemView::Submenu { title, .. } => RowView::Submenu { index, title },
        ItemView::Entry { title, shortcut, toggled, disabled, .. } => RowView::Entry {
            index,
            title,
            shortcut,
            checked: toggled,
            dimmed: disabled,
            on_press: if disabled {
                None
            } else {
                Some(Message::ItemPressed(index))
            },
        },
    }
}

/// The lines that `items` are drawn as, top to bottom.
pub open spec fn rows_of(items: Seq<ItemView>) -> Seq<RowView> {
    Seq::new(items.len(), |i: int| row_of(items[i], i as usize))
}

/// How wide the lines of a menu are: as wide as it was measured to be, and as
/// wide as their content while it was not.
pub open spec fn width_of(row_width: Option<i32>) -> Length {
    match row_width {
        Some(width) => Length::Fixed(width),
        None => Length::Shrink,
    }
}

/// How wide the title within a line is: it takes the room that a line of
/// fixed width leaves.
pub open spec fn title_width_of(row_width: Option<i32>) -> Length {
    match row_width {
        Some(_) => Length::Fill,
        None => Length::Shrink,
    }
}

impl ContextMenu {
    /// A menu of `items` in which nothing was chosen yet.
    pub fn new(items: Vec<Item>) -> (menu: ContextMenu)
        ensures
            menu@ == (ContextMenuView {
                items: item_views(items@),
                selected: false,
                row_width: None,
            }),
    {
        ContextMenu { items, selected: false, row_width: None }
    }

    /// The width that every line is laid out at, if the menu was measured.
    pub fn row_width(&self) -> (row_width: Option<i32>)
        ensures
            row_width == self@.row_width,
    {
        self.row_width
    }

    /// Lays every line out at `row_width` from now on.
    pub fn set_row_width(&mut self, row_width: Option<i32>)
        ensures
            final(self)@ == (ContextMenuView { row_width, ..old(self)@ }),
    {
        self.row_width = row_width;
    }

    /// The menu as it is drawn: one line for each item.
    pub fn layout(&self) -> (layout: MenuLayout)
        ensures
            layout.width == width_of(self@.row_width),
            layout.title_width == title_width_of(self@.row_width),
            row_views(layout.rows@) == rows_of(self@.items),
    {
        let (width, title_width) = match self.row_width {
            Some(measured) => (Length::Fixed(measured), Length::Fill),
            None => (Length::Shrink, Length::Shrink),
        };
        let mut rows: Vec<Row> = Vec::new();
        let mut i: usize = 0;
        proof {
            lemma_item_views(self.items@);
        }
        while i < self.items.len()
            invariant
                i <= self.items@.len(),
                rows@.len() == i,
                item_views(self.items@).len() == self.items@.len(),
                forall|j: int|
                    0 <= j < self.items@.len() ==> #[trigger] item_views(self.items@)[j]
                        == self.items@[j]@,
                forall|j: int|
                    0 <= j < i ==> (#[trigger] rows@[j])@ == row_of(self.items@[j]@, j as usize),
            decreases self.items@.len() - i,
        {
            let row = match &self.items[i] {
                Item::Separator => Row::Divider,
                Item::Submenu { title, .. } => Row::Submenu { index: i, title: title.clone() },
                Item::Entry { title, shortcut, toggled, disabled, .. } => Row::Entry {
                    index: i,
                    title: title.clone(),
                    shortcut: match shortcut {
                        Some(keys) => Some(keys.clone()),
                        None => None,
                    },
                    checked: *toggled,
                    dimmed: *disabled,
                    on_press: if *disabled {
                        None
                    } else {
                        Some(Message::ItemPressed(i))
                    },
                },
            };
            rows.push(row);
            i = i + 1;
        }
        proof {
            assert(row_views(rows@) =~= rows_of(self@.items));
        }
        MenuLayout { width, title_width, rows }
    }

    /// The items of the menu, top to bottom.
    pub fn items(&self) -> (items: &Vec<Item>)
        ensures
            item_views(items@) == self@.items,
    {
        &self.items
    }

    /// Whether an entry of the menu was chosen.
    pub fn selected(&self) -> (selected: bool)
        ensures
            selected == self@.selected,
    {
        self.selected
    }

    /// Takes what the pointer did to an item and says what is to be done.
    /// The menu counts as chosen from once an entry was activated.
    pub fn update(&mut self, message: Message) -> (action: MenuAction)
        ensures
            action == menu_answer(old(self)@.items, message),
            final(self)@ == (ContextMenuView {
                selected: old(self)@.selected || action is Activate,
                ..old(self)@
            }),
    {
        proof {
            lemma_item_views(self.items@);
        }
        match message {
            Message::ItemPressed(idx) => {
                if idx < self.items.len() {
                    if let Item::Entry { on_press, .. } = &self.items[idx] {
                        let id = *on_press;
                        self.selected = true;
                        return MenuAction::Activate(id);
                    }
                }
                MenuAction::Nothing
            },
            Message::ItemEntered(idx, bounds) => {
                if idx < self.items.len() {
                    if let Item::Submenu { .. } = &self.items[idx] {
                        return MenuAction::OpenSubmenu { index: idx, bounds };
                    }
                }
                MenuAction::Nothing
            },
            Message::ItemLeft(idx, _) => {
                if idx < self.items.len() {
                    if let Item::Submenu { .. } = &self.items[idx] {
                        return MenuAction::CloseSubmenu;
                    }
                }
                MenuAction::Nothing
            },
        }
    }
}

/// How much of `candidate` lies on `output`: its area there, or nothing if it
/// lies off the output altogether.
pub open spec fn visible_area(output: Rect, candidate: Rect) -> Option<int> {
    match output.spec_intersection(candidate) {
        Some(shared) => Some(shared.spec_area()),
        None => None,
    }
}

/// `a` shows less than `b`: nothing is less than any area.
pub open spec fn shows_less(a: Option<int>, b: Option<int>) -> bool {
    match (a, b) {
        (None, Some(_)) => true,
        (Some(x), Some(y)) => x < y,
        _ => false,
    }
}

/// The candidate at `best` shows the most of all on `output`, and is the
/// first that does.
pub open spec fn is_best(candidates: Seq<Rect>, output: Rect, best: int) -> bool {
    &&& 0 <= best < candidates.len()
    &&& forall|j: int|
        0 <= j < candidates.len() ==> !shows_less(
            visible_area(output, candidates[best]),
            visible_area(output, #[trigger] candidates[j]),
        )
    &&& forall|j: int|
        0 <= j < best ==> shows_less(
            visible_area(output, #[trigger] candidates[j]),
            visible_area(output, candidates[best]),
        )
}

/// Exec form of [`visible_area`].
fn area_on(output: Rect, candidate: Rect) -> (area: Option<i64>)
    ensures
        match area {
            Some(a) => visible_area(output, candidate) == Some(a as int),
            None => visible_area(output, candidate) is None,
        },
{
    match output.intersection(candidate) {
        Some(shared) => Some(shared.area()),
        None => None,
    }
}

/// Exec form of [`shows_less`].
fn less(a: Option<i64>, b: Option<i64>) -> (r: bool)
    ensures
        r == shows_less(
            match a {
                Some(x) => Some(x as int),
                None => None,
            },
            match b {
                Some(y) => Some(y as int),
                None => None,
            },
        ),
{
    match (a, b) {
        (None, Some(_)) => true,
        (Some(x), Some(y)) => x < y,
        _ => false,
    }
}

/// Which of `candidates` to open a menu at: the one that shows the most on
/// `output`, the earlier one of two that show the same.
pub fn best_candidate(candidates: &Vec<Rect>, output: Rect) -> (best: usize)
    requires
        candidates@.len() > 0,
    ensures
        is_best(candidates@, output, best as int),
{
    let mut best: usize = 0;
    let mut best_area = area_on(output, candidates[0]);
    let mut i: usize = 1;
    while i < candidates.len()
        invariant
            1 <= i <= candidates@.len(),
            best < i,
            match best_area {
                Some(a) => visible_area(output, candidates@[best as int]) == Some(a as int),
                None => visible_area(output, candidates@[best as int]) is None,
            },
            forall|j: int|
                0 <= j < i ==> !shows_less(
                    visible_area(output, candidates@[best as int]),
                    visible_area(output, #[trigger] candidates@[j]),
                ),
            forall|j: int|
                0 <= j < best ==> shows_less(
                    visible_area(output, #[trigger] candidates@[j]),
                    visible_area(output, candidates@[best as int]),
                ),
        decreases candidates@.len() - i,
    {
        let area = area_on(output, candidates[i]);
        if less(best_area, area) {
            best = i;
            best_area = area;
        }
        i = i + 1;
    }
    best
}

/// The places to open a menu of size `size` for the pointer at `position`,
/// in order of preference: below and right of the pointer, left of it, above
/// it, above and left of it.
pub open spec fn menu_candidates(position: Point, size: Size) -> Seq<Rect> {
    seq![
        Rect { loc: position, size },
        Rect { loc: position.spec_relative_to(Point { x: size.w, y: 0 }), size },
        Rect { loc: position.spec_relative_to(Point { x: 0, y: size.h }), size },
        Rect { loc: position.spec_relative_to(Point { x: size.w, y: size.h }), size },
    ]
}

/// Whether the places for a further menu can be computed in `i32`.
pub open spec fn submenu_fits(bounds: ItemBounds, size: Size) -> bool {
    &&& i32::MIN <= bounds.y + bounds.height <= i32::MAX
    &&& i32::MIN <= bounds.y + bounds.height - size.h <= i32::MAX
    &&& size.w > i32::MIN
}

/// The places to open a further menu of size `size` for the item whose line
/// is `bounds` in the menu at `position`, in order of preference: right of
/// the menu going down from the line, right going up, left going down, left
/// going up.
pub open spec fn submenu_candidates(position: Point, bounds: ItemBounds, size: Size) -> Seq<Rect> {
    let up = (bounds.y + bounds.height - size.h) as i32;
    seq![
        Rect { loc: position.spec_offset(Point { x: bounds.width, y: bounds.y }), size },
        Rect { loc: position.spec_offset(Point { x: bounds.width, y: up }), size },
        Rect { loc: position.spec_offset(Point { x: (-size.w) as i32, y: bounds.y }), size },
        Rect { loc: position.spec_offset(Point { x: (-size.w) as i32, y: up }), size },
    ]
}

/// The corner of the candidate that shows the most of all on `output`, the
/// first of those that do.
pub open spec fn best_place(candidates: Seq<Rect>, output: Rect) -> Point {
    candidates[choose|best: int| is_best(candidates, output, best)].loc
}

/// Where to open a menu of size `size` for the pointer at `position` on
/// `output`: the place of [`menu_candidates`] that shows the most.
pub fn menu_position(position: Point, size: Size, output: Rect) -> (place: Point)
    ensures
        place == best_place(menu_candidates(position, size), output),
{
    let mut candidates: Vec<Rect> = Vec::new();
    candidates.push(Rect { loc: position, size });
    candidates.push(Rect { loc: position.relative_to(Point { x: size.w, y: 0 }), size });
    candidates.push(Rect { loc: position.relative_to(Point { x: 0, y: size.h }), size });
    candidates.push(Rect { loc: position.relative_to(Point { x: size.w, y: size.h }), size });
    assert(candidates@ =~= menu_candidates(position, size));
    let best = best_candidate(&candidates, output);
    proof {
        lemma_best_is_unique(
            candidates@,
            output,
            best as int,
            choose|b: int| is_best(candidates@, output, b),
        );
    }
    candidates[best].loc
}

/// Whether the places for a further menu can be computed in `i32`.
pub fn check_submenu_fits(bounds: ItemBounds, size: Size) -> (fits: bool)
    ensures
        fits == submenu_fits(bounds, size),
{
    let down: i64 = bounds.y as i64 + bounds.height as i64;
    let up: i64 = down - size.h as i64;
    down >= i32::MIN as i64 && down <= i32::MAX as i64 && up >= i32::MIN as i64 && up
        <= i32::MAX as i64 && size.w > i32::MIN
}

/// Where to open a further menu of size `size` for the item whose line is
/// `bounds` in the menu at `position` on `output`: the place of
/// [`submenu_candidates`] that shows the most.
pub fn submenu_position(position: Point, bounds: ItemBounds, size: Size, output: Rect) -> (place:
    Point)
    requires
        submenu_fits(bounds, size),
    ensures
        place == best_place(submenu_candidates(position, bounds, size), output),
{
    let up: i32 = bounds.y + bounds.height - size.h;
    let left: i32 = -size.w;
    let mut candidates: Vec<Rect> = Vec::new();
    candidates.push(Rect { loc: position.offset(Point { x: bounds.width, y: bounds.y }), size });
    candidates.push(Rect { loc: position.offset(Point { x: bounds.width, y: up }), size });
    candidates.push(Rect { loc: position.offset(Point { x: left, y: bounds.y }), size });
    candidates.push(Rect { loc: position.offset(Point { x: left, y: up }), size });
    assert(candidates@ =~= submenu_candidates(position, bounds, size));
    let best = best_candidate(&candidates, output);
    proof {
        lemma_best_is_unique(
            candidates@,
            output,
            best as int,
            choose|b: int| is_best(candidates@, output, b),
        );
    }
    candidates[best].loc
}

/// One place is the best of a list at most.
pub proof fn lemma_best_is_unique(candidates: Seq<Rect>, output: Rect, a: int, b: int)
    requires
        is_best(candidates, output, a),
        is_best(candidates, output, b),
    ensures
        a == b,
{
    if a < b {
        assert(shows_less(visible_area(output, candidates[a]), visible_area(output, candidates[b])));
    }
    if b < a {
        assert(shows_less(visible_area(output, candidates[b]), visible_area(output, candidates[a])));
    }
}

/// One open menu of a grab.
#[derive(Clone, Copy, Debug, PartialEq, Eq, Structural)]
pub struct Element {
    /// Where the menu lies, in the space of all outputs.
    pub position: Point,
    /// How large the menu is.
    pub size: Size,
    /// Whether the pointer is over the menu, as far as the menu was told.
    pub pointer_entered: bool,
}

/// What a menu of a grab is told of the pointer.
#[derive(Clone, Copy, Debug, PartialEq, Eq, Structural)]
pub enum PointerAction {
    /// The pointer came over the menu at this position in the grab.
    Enter(usize),
    /// The pointer moved over the menu at this position.
    Motion(usize),
    /// The pointer is off the menu at this position.
    Leave(usize),
}

/// Whether a button went down or up.
#[derive(Clone, Copy, Debug, PartialEq, Eq, Structural)]
pub enum ButtonState {
    Released,
    Pressed,
}

/// What follows from a button while a menu grabs the pointer.
#[derive(Debug)]
pub struct ButtonOutcome {
    /// The menus that get the button, by their positions in the grab.
    pub targets: Vec<usize>,
    /// Whether the grab ends.
    pub unset_grab: bool,
    /// Whether the button goes on to whatever else handles buttons.
    pub forward: bool,
}

impl Element {
    /// The area the menu covers.
    pub open spec fn bbox(self) -> Rect {
        Rect { loc: self.position, size: self.size }
    }
}

/// Some menu in `elements` lies under `location`.
pub open spec fn is_hit(elements: Seq<Element>, location: Point) -> bool {
    exists|i: int| 0 <= i < elements.len() && (#[trigger] elements[i]).bbox().spec_contains(location)
}

/// The menu at `i` is the first in `elements` that lies under `location`.
pub open spec fn first_hit(elements: Seq<Element>, location: Point, i: int) -> bool {
    &&& 0 <= i < elements.len()
    &&& elements[i].bbox().spec_contains(location)
    &&& forall|j: int| 0 <= j < i ==> !(#[trigger] elements[j]).bbox().spec_contains(location)
}

/// The position of the first menu in `elements` that lies under `location`,
/// if one does.
pub open spec fn hit_index(elements: Seq<Element>, location: Point) -> int {
    choose|i: int| first_hit(elements, location, i)
}

/// The positions of the menus in `elements` that the pointer is over, in
/// their order.
pub open spec fn entered(elements: Seq<Element>) -> Seq<usize>
    decreases elements.len(),
{
    if elements.len() == 0 {
        Seq::empty()
    } else if elements.last().pointer_entered {
        entered(elements.drop_last()).push((elements.len() - 1) as usize)
    } else {
        entered(elements.drop_last())
    }
}

/// What the menus are told when the pointer moves to `location`: the first
/// menu under it is entered, or moved over if it was entered before; with no
/// menu under it, every menu that was entered is left.
pub open spec fn motion_actions(elements: Seq<Element>, location: Point) -> Seq<PointerAction> {
    if is_hit(elements, location) {
        let i = hit_index(elements, location);
        if elements[i].pointer_entered {
            seq![PointerAction::Motion(i as usize)]
        } else {
            seq![PointerAction::Enter(i as usize)]
        }
    } else {
        Seq::new(entered(elements).len(), |k: int| PointerAction::Leave(entered(elements)[k]))
    }
}

/// The menus after the pointer moved to `location`.
pub open spec fn after_motion(elements: Seq<Element>, location: Point) -> Seq<Element> {
    if is_hit(elements, location) {
        let i = hit_index(elements, location);
        elements.update(i, Element { pointer_entered: true, ..elements[i] })
    } else {
        Seq::new(elements.len(), |k: int| Element { pointer_entered: false, ..elements[k] })
    }
}

/// The menus that are open while the pointer is grabbed, the first one
/// opened first.
#[derive(Debug)]
pub struct MenuGrab {
    elements: Vec<Element>,
}

impl View for MenuGrab {
    type V = Seq<Element>;

    closed spec fn view(&self) -> Seq<Element> {
        self.elements@
    }
}

/// One menu is the first under a location at most.
pub proof fn lemma_first_hit_unique(elements: Seq<Element>, location: Point, a: int, b: int)
    requires
        first_hit(elements, location, a),
        first_hit(elements, location, b),
    ensures
        a == b,
        is_hit(elements, location),
        hit_index(elements, location) == a,
{
    if a < b {
        assert(!elements[a].bbox().spec_contains(location));
    }
    if b < a {
        assert(!elements[b].bbox().spec_contains(location));
    }
    let c = hit_index(elements, location);
    if a < c {
        assert(!elements[a].bbox().spec_contains(location));
    }
    if c < a {
        assert(!elements[c].bbox().spec_contains(location));
    }
}

/// The positions that [`entered`] lists are those of the menus the pointer is
/// over: each is in range and entered, they ascend, and none is left out.
pub proof fn lemma_entered(elements: Seq<Element>)
    requires
        elements.len() <= usize::MAX,
    ensures
        entered(elements).len() <= elements.len(),
        forall|k: int|
            0 <= k < entered(elements).len() ==> (#[trigger] entered(elements)[k]) < elements.len()
                && elements[entered(elements)[k] as int].pointer_entered,
        forall|k: int, l: int|
            0 <= k < l < entered(elements).len() ==> (#[trigger] entered(elements)[k]) < (
            #[trigger] entered(elements)[l]),
        forall|i: int|
            0 <= i < elements.len() && (#[trigger] elements[i]).pointer_entered ==> entered(
                elements,
            ).contains(i as usize),
        entered(elements).len() == 0 <==> forall|i: int|
            0 <= i < elements.len() ==> !(#[trigger] elements[i]).pointer_entered,
    decreases elements.len(),
{
    if elements.len() > 0 {
        let front = elements.drop_last();
        lemma_entered(front);
        let listed = entered(elements);
        let before = entered(front);
        assert forall|k: int| 0 <= k < listed.len() implies (#[trigger] listed[k]) < elements.len()
            && elements[listed[k] as int].pointer_entered by {
            if k < before.len() {
                assert(listed[k] == before[k]);
                assert(front[before[k] as int] == elements[before[k] as int]);
            }
        }
        assert forall|k: int, l: int| 0 <= k < l < listed.len() implies (#[trigger] listed[k]) < (
        #[trigger] listed[l]) by {
            assert(listed[k] == before[k]);
            if l < before.len() {
                assert(listed[l] == before[l]);
            }
        }
        assert forall|i: int|
            0 <= i < elements.len() && (#[trigger] elements[i]).pointer_entered implies listed.contains(
            i as usize,
        ) by {
            if i < front.len() {
                assert(front[i] == elements[i]);
                assert(before.contains(i as usize));
                let k = choose|k: int| 0 <= k < before.len() && before[k] == i as usize;
                assert(listed[k] == i as usize);
            } else {
                assert(listed[listed.len() - 1] == i as usize);
            }
        }
        if listed.len() == 0 {
            assert forall|i: int| 0 <= i < elements.len() implies !(
            #[trigger] elements[i]).pointer_entered by {
                if i < front.len() {
                    assert(front[i] == elements[i]);
                }
            }
        } else {
            let k = listed[0];
            assert(elements[k as int].pointer_entered);
        }
    }
}

impl MenuGrab {
    /// Opens a menu of size `size` for the pointer at `position`, where it
    /// shows best on `output`; see [`menu_position`]. The pointer is not over
    /// it yet.
    pub fn new(position: Point, size: Size, output: Rect) -> (grab: MenuGrab)
        ensures
            grab@ == seq![
                Element {
                    position: best_place(menu_candidates(position, size), output),
                    size,
                    pointer_entered: false,
                },
            ],
    {
        let mut elements: Vec<Element> = Vec::new();
        elements.push(
            Element { position: menu_position(position, size, output), size, pointer_entered: false },
        );
        MenuGrab { elements }
    }

    /// The open menus, the first one opened first.
    pub fn elements(&self) -> (elements: &Vec<Element>)
        ensures
            elements@ == self@,
    {
        &self.elements
    }

    /// Opens a further menu of size `size` for the item whose line is
    /// `bounds` in the menu opened last, where it shows best on `output`; see
    /// [`submenu_position`]. Returns where it was opened.
    pub fn push_submenu(&mut self, bounds: ItemBounds, size: Size, output: Rect) -> (place: Point)
        requires
            old(self)@.len() > 0,
            submenu_fits(bounds, size),
        ensures
            place == best_place(
                submenu_candidates(old(self)@.last().position, bounds, size),
                output,
            ),
            final(self)@ == old(self)@.push(
                Element { position: place, size, pointer_entered: false },
            ),
    {
        let last = self.elements[self.elements.len() - 1];
        let place = submenu_position(last.position, bounds, size, output);
        self.elements.push(Element { position: place, size, pointer_entered: false });
        place
    }

    /// Closes the menu opened last, if any is open, and returns it.
    pub fn pop_submenu(&mut self) -> (closed: Option<Element>)
        ensures
            old(self)@.len() == 0 ==> closed is None && final(self)@ == old(self)@,
            old(self)@.len() > 0 ==> closed == Some(old(self)@.last()) && final(self)@ == old(
                self,
            )@.drop_last(),
    {
        self.elements.pop()
    }

    /// The pointer moved to `location`.
    ///
    /// Returns what the menus are to be told: the first menu under the
    /// pointer is entered, or moved over if it was entered before; with no
    /// menu under the pointer, every menu that was entered is left.
    pub fn motion(&mut self, location: Point) -> (actions: Vec<PointerAction>)
        ensures
            actions@ == motion_actions(old(self)@, location),
            final(self)@ == after_motion(old(self)@, location),
    {
        let mut actions: Vec<PointerAction> = Vec::new();
        let mut i: usize = 0;
        while i < self.elements.len()
            invariant
                i <= self.elements@.len(),
                self.elements@ == old(self)@,
                actions@.len() == 0,
                forall|j: int|
                    0 <= j < i ==> !(#[trigger] self.elements@[j]).bbox().spec_contains(location),
            decreases self.elements@.len() - i,
        {
            let element = self.elements[i];
            let bbox = Rect { loc: element.position, size: element.size };
            if bbox.contains(location) {
                proof {
                    lemma_first_hit_unique(self.elements@, location, i as int, i as int);
                }
                if element.pointer_entered {
                    actions.push(PointerAction::Motion(i));
                } else {
                    actions.push(PointerAction::Enter(i));
                    self.elements[i].pointer_entered = true;
                }
                proof {
                    assert(self.elements@ =~= after_motion(old(self)@, location));
                    assert(actions@ =~= motion_actions(old(self)@, location));
                }
                return actions;
            }
            i = i + 1;
        }
        proof {
            if is_hit(self.elements@, location) {
                let k = choose|k: int|
                    0 <= k < self.elements@.len() && (#[trigger] self.elements@[k]).bbox().spec_contains(
                        location,
                    );
                assert(false);
            }
            assert(entered(old(self)@.take(0)) =~= Seq::<usize>::empty());
        }
        let mut j: usize = 0;
        while j < self.elements.len()
            invariant
                j <= self.elements@.len(),
                self.elements@.len() == old(self)@.len(),
                !is_hit(old(self)@, location),
                forall|k: int|
                    0 <= k < j ==> #[trigger] self.elements@[k] == (Element {
                        pointer_entered: false,
                        ..old(self)@[k]
                    }),
                forall|k: int| j <= k < self.elements@.len() ==> #[trigger] self.elements@[k] == old(
                    self,
                )@[k],
                actions@.len() == entered(old(self)@.take(j as int)).len(),
                forall|k: int|
                    0 <= k < actions@.len() ==> #[trigger] actions@[k] == PointerAction::Leave(
                        entered(old(self)@.take(j as int))[k],
                    ),
            decreases self.elements@.len() - j,
        {
            proof {
                assert(old(self)@.take(j + 1).drop_last() =~= old(self)@.take(j as int));
                assert(old(self)@.take(j + 1).last() == old(self)@[j as int]);
            }
            if self.elements[j].pointer_entered {
                actions.push(PointerAction::Leave(j));
                self.elements[j].pointer_entered = false;
            }
            j = j + 1;
        }
        proof {
            assert(old(self)@.take(old(self)@.len() as int) =~= old(self)@);
            assert(self.elements@ =~= after_motion(old(self)@, location));
            assert(actions@ =~= motion_actions(old(self)@, location));
        }
        actions
    }

    /// A button went down or up.
    ///
    /// The menus that the pointer is over get the button. The grab ends when
    /// a button is released over a menu, or pressed away from all of them;
    /// a button pressed over a menu goes on to whatever else handles buttons.
    pub fn button(&self, state: ButtonState) -> (outcome: ButtonOutcome)
        ensures
            outcome.targets@ == entered(self@),
            outcome.unset_grab == (if entered(self@).len() == 0 {
                state == ButtonState::Pressed
            } else {
                state == ButtonState::Released
            }),
            outcome.forward == (entered(self@).len() > 0 && state != ButtonState::Released),
    {
        let mut targets: Vec<usize> = Vec::new();
        let mut i: usize = 0;
        proof {
            assert(entered(self@.take(0)) =~= Seq::<usize>::empty());
        }
        while i < self.elements.len()
            invariant
                i <= self.elements@.len(),
                targets@ == entered(self@.take(i as int)),
            decreases self.elements@.len() - i,
        {
            proof {
                assert(self@.take(i + 1).drop_last() =~= self@.take(i as int));
                assert(self@.take(i + 1).last() == self@[i as int]);
            }
            if self.elements[i].pointer_entered {
                targets.push(i);
            }
            i = i + 1;
        }
        proof {
            assert(self@.take(self@.len() as int) =~= self@);
        }
        let any = targets.len() > 0;
        let released = match state {
            ButtonState::Released => true,
            ButtonState::Pressed => false,
        };
        ButtonOutcome {
            targets,
            unset_grab: if any {
                released
            } else {
                !released
            },
            forward: any && !released,
        }
    }
}

} // verus!
