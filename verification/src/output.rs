//! The display targets that the backend exposes.

use crate::geometry::{Point, Size};
use vstd::prelude::*;
use vstd::string::StringExecFns;

verus! {

/// Dimensions and refresh rate that an output can run at.
#[derive(Clone, Copy, Debug, PartialEq, Eq, Structural)]
pub struct Mode {
    /// Size in pixels.
    pub size: Size,
    /// Refresh rate in millihertz.
    pub refresh: i32,
}

/// Layout of the physical subpixels of an output.
#[derive(Clone, Copy, Debug, PartialEq, Eq, Structural)]
pub enum Subpixel {
    Unknown,
    Absent,
    HorizontalRgb,
    HorizontalBgr,
    VerticalRgb,
    VerticalBgr,
}

/// Rotation and mirroring applied to what an output shows.
#[derive(Clone, Copy, Debug, PartialEq, Eq, Structural)]
pub enum Transform {
    Normal,
    Rotated90,
    Rotated180,
    Rotated270,
    Flipped,
    Flipped90,
    Flipped180,
    Flipped270,
}

/// What is known of the device behind an output.
#[derive(Debug)]
pub struct PhysicalProperties {
    /// Size of the screen in millimetres.
    pub size: Size,
    pub subpixel: Subpixel,
    pub make: String,
    pub model: String,
}

/// The per-output settings that the configuration of the session keeps.
#[derive(Clone, Copy, Debug, PartialEq, Eq, Structural)]
pub struct OutputConfig {
    /// Size of the mode that is asked for.
    pub mode_size: Size,
    /// Refresh rate that is asked for, if any.
    pub mode_refresh: Option<u32>,
}

/// The modes in `modes` other than `mode`, in their order.
pub open spec fn modes_without(modes: Seq<Mode>, mode: Mode) -> Seq<Mode> {
    modes.filter(|m: Mode| m != mode)
}

/// Model of an [`Output`].
pub struct OutputView {
    pub id: u64,
    pub name: Seq<char>,
    pub physical_size: Size,
    pub subpixel: Subpixel,
    pub make: Seq<char>,
    pub model: Seq<char>,
    pub modes: Seq<Mode>,
    pub current_mode: Option<Mode>,
    pub preferred_mode: Option<Mode>,
    pub transform: Transform,
    pub scale: i32,
    pub location: Point,
}

impl OutputView {
    /// A new output: no mode yet, unrotated, unscaled, at the origin.
    pub open spec fn fresh(
        id: u64,
        name: Seq<char>,
        physical_size: Size,
        subpixel: Subpixel,
        make: Seq<char>,
        model: Seq<char>,
    ) -> OutputView {
        OutputView {
            id,
            name,
            physical_size,
            subpixel,
            make,
            model,
            modes: Seq::empty(),
            current_mode: None,
            preferred_mode: None,
            transform: Transform::Normal,
            scale: 1,
            location: Point { x: 0, y: 0 },
        }
    }

    /// The output with `mode` among its modes.
    pub open spec fn with_mode(self, mode: Mode) -> OutputView {
        if self.modes.contains(mode) {
            self
        } else {
            OutputView { modes: self.modes.push(mode), ..self }
        }
    }

    /// The output with `mode` known and preferred.
    pub open spec fn with_preferred(self, mode: Mode) -> OutputView {
        OutputView { preferred_mode: Some(mode), ..self.with_mode(mode) }
    }

    /// The output without `mode`: neither known, nor current, nor preferred.
    pub open spec fn without_mode(self, mode: Mode) -> OutputView {
        OutputView {
            modes: modes_without(self.modes, mode),
            current_mode: if self.current_mode == Some(mode) {
                None
            } else {
                self.current_mode
            },
            preferred_mode: if self.preferred_mode == Some(mode) {
                None
            } else {
                self.preferred_mode
            },
            ..self
        }
    }

    /// The output after a change of state; `None` leaves a property as it is.
    pub open spec fn with_state(
        self,
        mode: Option<Mode>,
        transform: Option<Transform>,
        scale: Option<i32>,
        location: Option<Point>,
    ) -> OutputView {
        let moded = match mode {
            Some(m) => OutputView { current_mode: Some(m), ..self.with_mode(m) },
            None => self,
        };
        OutputView {
            transform: match transform {
                Some(t) => t,
                None => self.transform,
            },
            scale: match scale {
                Some(s) => s,
                None => self.scale,
            },
            location: match location {
                Some(l) => l,
                None => self.location,
            },
            ..moded
        }
    }

    /// No mode is listed twice, and the current and the preferred mode are
    /// listed.
    pub open spec fn wf(self) -> bool {
        &&& self.modes.no_duplicates()
        &&& self.current_mode matches Some(m) ==> self.modes.contains(m)
        &&& self.preferred_mode matches Some(m) ==> self.modes.contains(m)
    }

    /// The output runs at `mode`, which is also its only and its preferred
    /// mode.
    pub open spec fn runs_only(self, mode: Mode) -> bool {
        &&& self.modes == seq![mode]
        &&& self.current_mode == Some(mode)
        &&& self.preferred_mode == Some(mode)
    }
}

/// A display target: its identity, what it is, and the state it is in.
///
/// The identity never changes. A value is a snapshot: the registry that made
/// it holds the state that counts.
#[derive(Debug)]
pub struct Output {
    id: u64,
    name: String,
    physical: PhysicalProperties,
    modes: Vec<Mode>,
    current_mode: Option<Mode>,
    preferred_mode: Option<Mode>,
    transform: Transform,
    scale: i32,
    location: Point,
}

impl View for Output {
    type V = OutputView;

    closed spec fn view(&self) -> OutputView {
        OutputView {
            id: self.id,
            name: self.name@,
            physical_size: self.physical.size,
            subpixel: self.physical.subpixel,
            make: self.physical.make@,
            model: self.physical.model@,
            modes: self.modes@,
            current_mode: self.current_mode,
            preferred_mode: self.preferred_mode,
            transform: self.transform,
            scale: self.scale,
            location: self.location,
        }
    }
}

/// Whether `mode` is among `modes`.
fn knows_mode(modes: &Vec<Mode>, mode: Mode) -> (known: bool)
    ensures
        known == modes@.contains(mode),
{
    let mut i: usize = 0;
    while i < modes.len()
        invariant
            i <= modes@.len(),
            forall|j: int| 0 <= j < i ==> modes@[j] != mode,
        decreases modes@.len() - i,
    {
        if modes[i] == mode {
            return true;
        }
        i = i + 1;
    }
    false
}

impl Output {
    /// Creates the output `id`, named `name`.
    pub fn new(id: u64, name: String, physical: PhysicalProperties) -> (output: Output)
        ensures
            output@ == OutputView::fresh(
                id,
                name@,
                physical.size,
                physical.subpixel,
                physical.make@,
                physical.model@,
            ),
            output@.wf(),
    {
        Output {
            id,
            name,
            physical,
            modes: Vec::new(),
            current_mode: None,
            preferred_mode: None,
            transform: Transform::Normal,
            scale: 1,
            location: Point { x: 0, y: 0 },
        }
    }

    /// A copy of this snapshot.
    pub fn duplicate(&self) -> (copy: Output)
        ensures
            copy@ == self@,
    {
        let mut modes: Vec<Mode> = Vec::new();
        let mut i: usize = 0;
        while i < self.modes.len()
            invariant
                i <= self.modes@.len(),
                modes@ == self.modes@.take(i as int),
            decreases self.modes@.len() - i,
        {
            modes.push(self.modes[i]);
            i = i + 1;
        }
        assert(self.modes@.take(self.modes@.len() as int) == self.modes@);
        Output {
            id: self.id,
            name: self.name.clone(),
            physical: PhysicalProperties {
                size: self.physical.size,
                subpixel: self.physical.subpixel,
                make: self.physical.make.clone(),
                model: self.physical.model.clone(),
            },
            modes,
            current_mode: self.current_mode,
            preferred_mode: self.preferred_mode,
            transform: self.transform,
            scale: self.scale,
            location: self.location,
        }
    }

    /// The identity of the output.
    pub fn id(&self) -> (id: u64)
        ensures
            id == self@.id,
    {
        self.id
    }

    /// The name of the output.
    pub fn name(&self) -> (name: &String)
        ensures
            name@ == self@.name,
    {
        &self.name
    }

    /// What is known of the device behind the output.
    pub fn physical_properties(&self) -> (physical: &PhysicalProperties)
        ensures
            physical.size == self@.physical_size,
            physical.subpixel == self@.subpixel,
            physical.make@ == self@.make,
            physical.model@ == self@.model,
    {
        &self.physical
    }

    /// The modes the output can run at.
    pub fn modes(&self) -> (modes: &Vec<Mode>)
        ensures
            modes@ == self@.modes,
    {
        &self.modes
    }

    /// The mode the output runs at.
    pub fn current_mode(&self) -> (mode: Option<Mode>)
        ensures
            mode == self@.current_mode,
    {
        self.current_mode
    }

    /// The mode the output is best run at.
    pub fn preferred_mode(&self) -> (mode: Option<Mode>)
        ensures
            mode == self@.preferred_mode,
    {
        self.preferred_mode
    }

    /// The transform of the output.
    pub fn current_transform(&self) -> (transform: Transform)
        ensures
            transform == self@.transform,
    {
        self.transform
    }

    /// The integer scale of the output.
    pub fn current_scale(&self) -> (scale: i32)
        ensures
            scale == self@.scale,
    {
        self.scale
    }

    /// Where the output lies in the space of all outputs.
    pub fn current_location(&self) -> (location: Point)
        ensures
            location == self@.location,
    {
        self.location
    }

    /// Lists `mode`, unless it is listed already.
    pub fn add_mode(&mut self, mode: Mode)
        ensures
            final(self)@ == old(self)@.with_mode(mode),
            old(self)@.wf() ==> final(self)@.wf(),
    {
        if !knows_mode(&self.modes, mode) {
            self.modes.push(mode);
            proof {
                lemma_push_keeps_distinct(old(self)@.modes, mode);
            }
        }
    }

    /// Makes `mode` the preferred mode, listing it if need be.
    pub fn set_preferred(&mut self, mode: Mode)
        ensures
            final(self)@ == old(self)@.with_preferred(mode),
            old(self)@.wf() ==> final(self)@.wf(),
    {
        self.preferred_mode = Some(mode);
        if !knows_mode(&self.modes, mode) {
            self.modes.push(mode);
            proof {
                lemma_push_keeps_distinct(old(self)@.modes, mode);
            }
        }
    }

    /// Takes `mode` off the list; if it was the current or the preferred mode,
    /// the output has none until one is set.
    pub fn delete_mode(&mut self, mode: Mode)
        ensures
            final(self)@ == old(self)@.without_mode(mode),
            old(self)@.wf() ==> final(self)@.wf(),
    {
        let mut kept: Vec<Mode> = Vec::new();
        let mut i: usize = 0;
        proof {
            lemma_modes_without_step(self.modes@.take(0), mode);
        }
        while i < self.modes.len()
            invariant
                i <= self.modes@.len(),
                kept@ == modes_without(self.modes@.take(i as int), mode),
            decreases self.modes@.len() - i,
        {
            proof {
                lemma_modes_without_step(self.modes@.take(i + 1), mode);
                assert(self.modes@.take(i + 1).drop_last() =~= self.modes@.take(i as int));
            }
            if self.modes[i] != mode {
                kept.push(self.modes[i]);
            }
            i = i + 1;
        }
        proof {
            assert(self.modes@.take(self.modes@.len() as int) =~= self.modes@);
            lemma_filter_keeps_distinct(old(self)@.modes, mode);
        }
        self.modes = kept;
        if self.current_mode == Some(mode) {
            self.current_mode = None;
        }
        if self.preferred_mode == Some(mode) {
            self.preferred_mode = None;
        }
    }

    /// Changes the state of the output; `None` leaves a property as it is. A
    /// new current mode is listed if need be.
    pub fn change_current_state(
        &mut self,
        mode: Option<Mode>,
        transform: Option<Transform>,
        scale: Option<i32>,
        location: Option<Point>,
    )
        ensures
            final(self)@ == old(self)@.with_state(mode, transform, scale, location),
            old(self)@.wf() ==> final(self)@.wf(),
    {
        if let Some(m) = mode {
            if !knows_mode(&self.modes, m) {
                self.modes.push(m);
                proof {
                    lemma_push_keeps_distinct(old(self)@.modes, m);
                }
            }
            self.current_mode = Some(m);
        }
        if let Some(t) = transform {
            self.transform = t;
        }
        if let Some(s) = scale {
            self.scale = s;
        }
        if let Some(l) = location {
            self.location = l;
        }
    }
}

/// A list without repetition stays so when a mode it lacks is appended, and
/// holds what it held before.
pub proof fn lemma_push_keeps_distinct(modes: Seq<Mode>, mode: Mode)
    requires
        !modes.contains(mode),
    ensures
        modes.no_duplicates() ==> modes.push(mode).no_duplicates(),
        modes.push(mode).contains(mode),
        forall|m: Mode| modes.contains(m) ==> #[trigger] modes.push(mode).contains(m),
{
    let pushed = modes.push(mode);
    assert(pushed[modes.len() as int] == mode);
    assert forall|m: Mode| modes.contains(m) implies #[trigger] pushed.contains(m) by {
        let i = choose|i: int| 0 <= i < modes.len() && modes[i] == m;
        assert(pushed[i] == m);
    }
    if modes.no_duplicates() {
        assert forall|i: int, j: int|
            0 <= i < pushed.len() && 0 <= j < pushed.len() && i != j implies pushed[i]
            != pushed[j] by {
            if i < modes.len() && j < modes.len() {
            } else if i < modes.len() {
                assert(modes.contains(pushed[i]));
            } else {
                assert(modes.contains(pushed[j]));
            }
        }
    }
}

/// How [`modes_without`] goes through a list from its end.
pub proof fn lemma_modes_without_step(modes: Seq<Mode>, mode: Mode)
    ensures
        modes.len() == 0 ==> modes_without(modes, mode) == Seq::<Mode>::empty(),
        modes.len() > 0 ==> modes_without(modes, mode) == if modes.last() != mode {
            modes_without(modes.drop_last(), mode).push(modes.last())
        } else {
            modes_without(modes.drop_last(), mode)
        },
{
    reveal(Seq::filter);
    if modes.len() == 0 {
        assert(modes_without(modes, mode) =~= Seq::<Mode>::empty());
    }
}

/// Taking a mode off a list without repetition leaves a list without
/// repetition, which holds every other mode that was listed and not that one.
pub proof fn lemma_filter_keeps_distinct(modes: Seq<Mode>, mode: Mode)
    ensures
        modes.no_duplicates() ==> modes_without(modes, mode).no_duplicates(),
        !modes_without(modes, mode).contains(mode),
        forall|m: Mode|
            m != mode && modes.contains(m) ==> #[trigger] modes_without(modes, mode).contains(m),
        forall|m: Mode| #[trigger] modes_without(modes, mode).contains(m) ==> modes.contains(m),
    decreases modes.len(),
{
    lemma_modes_without_step(modes, mode);
    let kept = modes_without(modes, mode);
    if modes.len() > 0 {
        let front = modes.drop_last();
        let last = modes.last();
        lemma_filter_keeps_distinct(front, mode);
        let front_kept = modes_without(front, mode);
        assert forall|m: Mode| #[trigger] kept.contains(m) implies modes.contains(m) by {
            let k = choose|k: int| 0 <= k < kept.len() && kept[k] == m;
            if k < front_kept.len() {
                assert(front_kept[k] == m);
                assert(front_kept.contains(m));
                let i = choose|i: int| 0 <= i < front.len() && front[i] == m;
                assert(modes[i] == m);
            } else {
                assert(modes[modes.len() - 1] == m);
            }
        }
        assert forall|m: Mode| m != mode && modes.contains(m) implies #[trigger] kept.contains(
            m,
        ) by {
            let i = choose|i: int| 0 <= i < modes.len() && modes[i] == m;
            if i < front.len() {
                assert(front[i] == m);
                assert(front.contains(m));
                assert(front_kept.contains(m));
                let k = choose|k: int| 0 <= k < front_kept.len() && front_kept[k] == m;
                assert(kept[k] == m);
            } else {
                assert(kept[kept.len() - 1] == m);
            }
        }
        if kept.contains(mode) {
            let k = choose|k: int| 0 <= k < kept.len() && kept[k] == mode;
            if k < front_kept.len() {
                assert(front_kept[k] == mode);
                assert(front_kept.contains(mode));
            }
            assert(false);
        }
        if modes.no_duplicates() {
            assert(front.no_duplicates()) by {
                assert forall|i: int, j: int|
                    0 <= i < front.len() && 0 <= j < front.len() && i != j implies front[i]
                    != front[j] by {
                    assert(front[i] == modes[i] && front[j] == modes[j]);
                }
            }
            if last != mode {
                if front_kept.contains(last) {
                    let i = choose|i: int| 0 <= i < front.len() && front[i] == last;
                    assert(modes[i] == modes[modes.len() - 1]);
                    assert(false);
                }
                lemma_push_keeps_distinct(front_kept, last);
            }
        }
    }
}

/// The character of the digit `d`.
pub open spec fn digit(d: nat) -> char {
    if d == 0 {
        '0'
    } else if d == 1 {
        '1'
    } else if d == 2 {
        '2'
    } else if d == 3 {
        '3'
    } else if d == 4 {
        '4'
    } else if d == 5 {
        '5'
    } else if d == 6 {
        '6'
    } else if d == 7 {
        '7'
    } else if d == 8 {
        '8'
    } else {
        '9'
    }
}

/// The decimal numeral of `n`.
pub open spec fn decimal(n: nat) -> Seq<char>
    decreases n,
{
    if n < 10 {
        seq![digit(n)]
    } else {
        decimal(n / 10).push(digit(n % 10))
    }
}

/// The name of the output of the surface that is added at position `index`.
pub open spec fn output_name(index: nat) -> Seq<char> {
    "X11-"@ + decimal(index)
}

/// The numeral of one digit.
fn digit_text(d: usize) -> (text: &'static str)
    requires
        d < 10,
    ensures
        text@ == seq![digit(d as nat)],
{
    proof {
        reveal_strlit("0");
        reveal_strlit("1");
        reveal_strlit("2");
        reveal_strlit("3");
        reveal_strlit("4");
        reveal_strlit("5");
        reveal_strlit("6");
        reveal_strlit("7");
        reveal_strlit("8");
        reveal_strlit("9");
    }
    let text = if d == 0 {
        "0"
    } else if d == 1 {
        "1"
    } else if d == 2 {
        "2"
    } else if d == 3 {
        "3"
    } else if d == 4 {
        "4"
    } else if d == 5 {
        "5"
    } else if d == 6 {
        "6"
    } else if d == 7 {
        "7"
    } else if d == 8 {
        "8"
    } else {
        "9"
    };
    assert(text@ =~= seq![digit(d as nat)]);
    text
}

/// Appends the decimal numeral of `n` to `text`.
fn push_decimal(text: &mut String, n: usize)
    ensures
        final(text)@ == old(text)@ + decimal(n as nat),
    decreases n,
{
    if n >= 10 {
        push_decimal(text, n / 10);
    }
    text.append(digit_text(n % 10));
    proof {
        if n >= 10 {
            assert(final(text)@ =~= old(text)@ + decimal((n / 10) as nat).push(digit((n % 10) as nat)));
        } else {
            assert(final(text)@ =~= old(text)@ + seq![digit(n as nat)]);
        }
    }
}

/// The name of the output of the surface that is added at position `index`:
/// `X11-` and the position in decimal.
pub fn format_output_name(index: usize) -> (name: String)
    ensures
        name@ == output_name(index as nat),
{
    let mut name = String::from_str("X11-");
    push_decimal(&mut name, index);
    name
}

} // verus!
