//! What lies over a layer surface, and what those who watch it are told.
//!
//! A snapshot lists the toplevels and the other layer surfaces that overlap a
//! layer surface, each with the region of the overlap. When a new snapshot
//! takes the place of the last, the watchers learn what entered and what left.

use crate::geometry::Rect;
use vstd::prelude::*;

verus! {

/// The layer a layer surface lies on, bottom to top.
#[derive(Clone, Copy, Debug, PartialEq, Eq, Structural)]
pub enum Layer {
    Background,
    Bottom,
    Top,
    Overlay,
}

/// How another layer surface overlaps the watched one.
#[derive(Clone, Copy, Debug, PartialEq, Eq, Structural)]
pub struct LayerOverlap {
    /// Whether the other surface reserves its area for itself.
    pub exclusive: bool,
    pub layer: Layer,
    /// The overlap, as seen from the corner of the other surface.
    pub region: Rect,
}

/// A toplevel that overlaps the watched surface.
#[derive(Clone, Copy, Debug, PartialEq, Eq, Structural)]
pub struct ToplevelEntry {
    /// The caller's name for the handle of the toplevel.
    pub toplevel: u64,
    /// The overlap, as seen from the corner of the toplevel.
    pub region: Rect,
}

/// A layer surface that overlaps the watched surface.
#[derive(Debug)]
pub struct LayerEntry {
    /// The identifier that the other surface is known by.
    pub identifier: String,
    pub overlap: LayerOverlap,
}

/// Model of a [`LayerEntry`].
pub struct LayerEntryView {
    pub identifier: Seq<char>,
    pub overlap: LayerOverlap,
}

impl View for LayerEntry {
    type V = LayerEntryView;

    open spec fn view(&self) -> LayerEntryView {
        LayerEntryView { identifier: self.identifier@, overlap: self.overlap }
    }
}

/// What a watcher is told.
#[derive(Debug)]
pub enum OverlapEvent {
    /// The toplevel overlaps the surface now, in `region`.
    ToplevelEnter { toplevel: u64, region: Rect },
    /// The toplevel overlaps the surface no more.
    ToplevelLeave { toplevel: u64 },
    /// The layer surface overlaps the surface now; `exclusive` is 1 if it
    /// reserves its area and 0 if not.
    LayerEnter { identifier: String, exclusive: u32, layer: Layer, region: Rect },
    /// The layer surface is reported as gone.
    LayerLeave { identifier: String },
}

/// Model of an [`OverlapEvent`].
pub enum OverlapEventView {
    ToplevelEnter { toplevel: u64, region: Rect },
    ToplevelLeave { toplevel: u64 },
    LayerEnter { identifier: Seq<char>, exclusive: u32, layer: Layer, region: Rect },
    LayerLeave { identifier: Seq<char> },
}

impl View for OverlapEvent {
    type V = OverlapEventView;

    open spec fn view(&self) -> OverlapEventView {
        match self {
            OverlapEvent::ToplevelEnter { toplevel, region } => OverlapEventView::ToplevelEnter {
                toplevel: *toplevel,
                region: *region,
            },
            OverlapEvent::ToplevelLeave { toplevel } => OverlapEventView::ToplevelLeave {
                toplevel: *toplevel,
            },
            OverlapEvent::LayerEnter { identifier, exclusive, layer, region } => {
                OverlapEventView::LayerEnter {
                    identifier: identifier@,
                    exclusive: *exclusive,
                    layer: *layer,
                    region: *region,
                }
            },
            OverlapEvent::LayerLeave { identifier } => OverlapEventView::LayerLeave {
                identifier: identifier@,
            },
        }
    }
}

/// The models of `entries`, in their order.
pub open spec fn layer_views(entries: Seq<LayerEntry>) -> Seq<LayerEntryView> {
    Seq::new(entries.len(), |i: int| entries[i]@)
}

/// The models of `events`, in their order.
pub open spec fn event_views(events: Seq<OverlapEvent>) -> Seq<OverlapEventView> {
    Seq::new(events.len(), |i: int| events[i]@)
}

/// Some entry in `entries` is for `toplevel`.
pub open spec fn has_toplevel(entries: Seq<ToplevelEntry>, toplevel: u64) -> bool {
    exists|i: int| 0 <= i < entries.len() && (#[trigger] entries[i]).toplevel == toplevel
}

/// Some entry in `entries` is for the layer surface `identifier`.
pub open spec fn has_layer(entries: Seq<LayerEntryView>, identifier: Seq<char>) -> bool {
    exists|i: int| 0 <= i < entries.len() && (#[trigger] entries[i]).identifier == identifier
}

/// No toplevel has two entries in `entries`.
pub open spec fn distinct_toplevels(entries: Seq<ToplevelEntry>) -> bool {
    forall|i: int, j: int|
        0 <= i < entries.len() && 0 <= j < entries.len() && i != j ==> (
        #[trigger] entries[i]).toplevel != (#[trigger] entries[j]).toplevel
}

/// No layer surface has two entries in `entries`.
pub open spec fn distinct_layers(entries: Seq<LayerEntryView>) -> bool {
    forall|i: int, j: int|
        0 <= i < entries.len() && 0 <= j < entries.len() && i != j ==> (
        #[trigger] entries[i]).identifier != (#[trigger] entries[j]).identifier
}

/// Where the first entry for `toplevel` is in `entries`, if it has one.
pub open spec fn toplevel_index(entries: Seq<ToplevelEntry>, toplevel: u64) -> int {
    choose|i: int|
        0 <= i < entries.len() && entries[i].toplevel == toplevel && forall|j: int|
            0 <= j < i ==> (#[trigger] entries[j]).toplevel != toplevel
}

/// Where the first entry for `identifier` is in `entries`, if it has one.
pub open spec fn layer_index(entries: Seq<LayerEntryView>, identifier: Seq<char>) -> int {
    choose|i: int|
        0 <= i < entries.len() && entries[i].identifier == identifier && forall|j: int|
            0 <= j < i ==> (#[trigger] entries[j]).identifier != identifier
}

/// `entries` with `region` noted for `toplevel`: in place of what was noted
/// for it before, or at the end.
pub open spec fn with_toplevel(entries: Seq<ToplevelEntry>, toplevel: u64, region: Rect) -> Seq<
    ToplevelEntry,
> {
    if has_toplevel(entries, toplevel) {
        entries.update(toplevel_index(entries, toplevel), ToplevelEntry { toplevel, region })
    } else {
        entries.push(ToplevelEntry { toplevel, region })
    }
}

/// `entries` with `region` noted for each of `handles`, first to last.
pub open spec fn with_toplevels(entries: Seq<ToplevelEntry>, handles: Seq<u64>, region: Rect) -> Seq<
    ToplevelEntry,
>
    decreases handles.len(),
{
    if handles.len() == 0 {
        entries
    } else {
        with_toplevel(with_toplevels(entries, handles.drop_last(), region), handles.last(), region)
    }
}

/// `entries` with `overlap` noted for the layer surface `identifier`: in
/// place of what was noted for it before, or at the end.
pub open spec fn with_layer(
    entries: Seq<LayerEntryView>,
    identifier: Seq<char>,
    overlap: LayerOverlap,
) -> Seq<LayerEntryView> {
    if has_layer(entries, identifier) {
        entries.update(layer_index(entries, identifier), LayerEntryView { identifier, overlap })
    } else {
        entries.push(LayerEntryView { identifier, overlap })
    }
}

/// Model of an [`OverlapSnapshot`].
pub struct OverlapSnapshotView {
    pub toplevels: Seq<ToplevelEntry>,
    pub layers: Seq<LayerEntryView>,
}

impl OverlapSnapshotView {
    /// Nothing overlaps.
    pub open spec fn empty() -> OverlapSnapshotView {
        OverlapSnapshotView { toplevels: Seq::empty(), layers: Seq::empty() }
    }

    /// Nothing is listed twice.
    pub open spec fn wf(self) -> bool {
        distinct_toplevels(self.toplevels) && distinct_layers(self.layers)
    }
}

/// What overlaps a layer surface at one time.
#[derive(Debug)]
pub struct OverlapSnapshot {
    toplevel_overlaps: Vec<ToplevelEntry>,
    layer_overlaps: Vec<LayerEntry>,
}

impl View for OverlapSnapshot {
    type V = OverlapSnapshotView;

    closed spec fn view(&self) -> OverlapSnapshotView {
        OverlapSnapshotView {
            toplevels: self.toplevel_overlaps@,
            layers: layer_views(self.layer_overlaps@),
        }
    }
}

/// Where the first entry for `toplevel` is in `entries`.
fn find_toplevel(entries: &Vec<ToplevelEntry>, toplevel: u64) -> (found: Option<usize>)
    ensures
        match found {
            Some(i) => i < entries@.len() && has_toplevel(entries@, toplevel) && toplevel_index(
                entries@,
                toplevel,
            ) == i,
            None => !has_toplevel(entries@, toplevel),
        },
{
    let mut i: usize = 0;
    while i < entries.len()
        invariant
            i <= entries@.len(),
            forall|j: int| 0 <= j < i ==> (#[trigger] entries@[j]).toplevel != toplevel,
        decreases entries@.len() - i,
    {
        if entries[i].toplevel == toplevel {
            proof {
                lemma_first_toplevel(entries@, toplevel, i as int);
            }
            return Some(i);
        }
        i = i + 1;
    }
    None
}

/// Where the first entry for `identifier` is in `entries`.
fn find_layer(entries: &Vec<LayerEntry>, identifier: &String) -> (found: Option<usize>)
    ensures
        match found {
            Some(i) => i < entries@.len() && has_layer(layer_views(entries@), identifier@)
                && layer_index(layer_views(entries@), identifier@) == i,
            None => !has_layer(layer_views(entries@), identifier@),
        },
{
    let ghost views = layer_views(entries@);
    let mut i: usize = 0;
    while i < entries.len()
        invariant
            i <= entries@.len(),
            views == layer_views(entries@),
            forall|j: int| 0 <= j < i ==> (#[trigger] views[j]).identifier != identifier@,
        decreases entries@.len() - i,
    {
        if entries[i].identifier.eq(identifier) {
            proof {
                assert(views[i as int].identifier == identifier@);
                lemma_first_layer(views, identifier@, i as int);
            }
            return Some(i);
        }
        i = i + 1;
    }
    None
}

impl OverlapSnapshot {
    /// A snapshot in which nothing overlaps.
    pub fn new() -> (snapshot: OverlapSnapshot)
        ensures
            snapshot@ == OverlapSnapshotView::empty(),
            snapshot@.wf(),
    {
        let snapshot = OverlapSnapshot { toplevel_overlaps: Vec::new(), layer_overlaps: Vec::new() };
        assert(snapshot@.layers =~= Seq::<LayerEntryView>::empty());
        snapshot
    }

    /// The toplevels that overlap, in the order they were first noted.
    pub fn toplevel_overlaps(&self) -> (entries: &Vec<ToplevelEntry>)
        ensures
            entries@ == self@.toplevels,
    {
        &self.toplevel_overlaps
    }

    /// The layer surfaces that overlap, in the order they were first noted.
    pub fn layer_overlaps(&self) -> (entries: &Vec<LayerEntry>)
        ensures
            layer_views(entries@) == self@.layers,
    {
        &self.layer_overlaps
    }

    /// Notes that a toplevel overlaps in `overlap`, for each of the handles
    /// that the toplevel is known by; a handle that was noted before has its
    /// region replaced.
    pub fn add_toplevel(&mut self, handles: &Vec<u64>, overlap: Rect)
        ensures
            final(self)@ == (OverlapSnapshotView {
                toplevels: with_toplevels(old(self)@.toplevels, handles@, overlap),
                ..old(self)@
            }),
            old(self)@.wf() ==> final(self)@.wf(),
    {
        let mut i: usize = 0;
        while i < handles.len()
            invariant
                i <= handles@.len(),
                self.layer_overlaps == old(self).layer_overlaps,
                self.toplevel_overlaps@ == with_toplevels(
                    old(self)@.toplevels,
                    handles@.take(i as int),
                    overlap,
                ),
                distinct_toplevels(old(self)@.toplevels) ==> distinct_toplevels(
                    self.toplevel_overlaps@,
                ),
            decreases handles@.len() - i,
        {
            let entry = ToplevelEntry { toplevel: handles[i], region: overlap };
            proof {
                assert(handles@.take(i + 1).drop_last() =~= handles@.take(i as int));
                assert(handles@.take(i + 1).last() == handles@[i as int]);
                lemma_with_toplevel_distinct(self.toplevel_overlaps@, handles@[i as int], overlap);
            }
            match find_toplevel(&self.toplevel_overlaps, handles[i]) {
                Some(at) => {
                    self.toplevel_overlaps[at] = entry;
                },
                None => {
                    self.toplevel_overlaps.push(entry);
                },
            }
            i = i + 1;
        }
        proof {
            assert(handles@.take(handles@.len() as int) =~= handles@);
        }
    }

    /// Notes that the layer surface known by `identifier` overlaps in
    /// `overlap`; if it was noted before, what was noted is replaced.
    pub fn add_layer(&mut self, identifier: String, exclusive: bool, layer: Layer, overlap: Rect)
        ensures
            final(self)@ == (OverlapSnapshotView {
                layers: with_layer(
                    old(self)@.layers,
                    identifier@,
                    LayerOverlap { exclusive, layer, region: overlap },
                ),
                ..old(self)@
            }),
            old(self)@.wf() ==> final(self)@.wf(),
    {
        let noted = LayerOverlap { exclusive, layer, region: overlap };
        let ghost before = old(self)@.layers;
        let ghost entry = LayerEntryView { identifier: identifier@, overlap: noted };
        match find_layer(&self.layer_overlaps, &identifier) {
            Some(at) => {
                self.layer_overlaps[at] = LayerEntry { identifier, overlap: noted };
                proof {
                    assert(self@.layers =~= before.update(at as int, entry));
                }
            },
            None => {
                self.layer_overlaps.push(LayerEntry { identifier, overlap: noted });
                proof {
                    assert(self@.layers =~= before.push(entry));
                }
            },
        }
        proof {
            lemma_with_layer_distinct(before, entry.identifier, noted);
        }
    }
}

/// Noting a toplevel keeps a list free of repetition, and the toplevel is in
/// the list afterwards with the region that was noted.
pub proof fn lemma_with_toplevel_distinct(entries: Seq<ToplevelEntry>, toplevel: u64, region: Rect)
    ensures
        distinct_toplevels(entries) ==> distinct_toplevels(with_toplevel(entries, toplevel, region)),
        has_toplevel(with_toplevel(entries, toplevel, region), toplevel),
        with_toplevel(entries, toplevel, region).contains(ToplevelEntry { toplevel, region }),
{
    let after = with_toplevel(entries, toplevel, region);
    if has_toplevel(entries, toplevel) {
        let k = choose|k: int| 0 <= k < entries.len() && (#[trigger] entries[k]).toplevel == toplevel;
        lemma_first_toplevel(entries, toplevel, k);
        let i = toplevel_index(entries, toplevel);
        assert(after[i] == ToplevelEntry { toplevel, region });
        if distinct_toplevels(entries) {
            assert forall|a: int, b: int|
                0 <= a < after.len() && 0 <= b < after.len() && a != b implies (
            #[trigger] after[a]).toplevel != (#[trigger] after[b]).toplevel by {
                assert(after[a].toplevel == entries[a].toplevel);
                assert(after[b].toplevel == entries[b].toplevel);
            }
        }
    } else {
        assert(after[entries.len() as int] == ToplevelEntry { toplevel, region });
        if distinct_toplevels(entries) {
            assert forall|a: int, b: int|
                0 <= a < after.len() && 0 <= b < after.len() && a != b implies (
            #[trigger] after[a]).toplevel != (#[trigger] after[b]).toplevel by {
                if a < entries.len() {
                    assert(entries[a].toplevel != toplevel);
                }
                if b < entries.len() {
                    assert(entries[b].toplevel != toplevel);
                }
            }
        }
    }
}

/// An entry for a toplevel has a first entry for it at or before it.
pub proof fn lemma_first_toplevel(entries: Seq<ToplevelEntry>, toplevel: u64, k: int)
    requires
        0 <= k < entries.len(),
        entries[k].toplevel == toplevel,
    ensures
        0 <= toplevel_index(entries, toplevel) <= k,
        entries[toplevel_index(entries, toplevel)].toplevel == toplevel,
        forall|j: int|
            0 <= j < toplevel_index(entries, toplevel) ==> (#[trigger] entries[j]).toplevel
                != toplevel,
    decreases k,
{
    if exists|j: int| 0 <= j < k && (#[trigger] entries[j]).toplevel == toplevel {
        let j = choose|j: int| 0 <= j < k && (#[trigger] entries[j]).toplevel == toplevel;
        lemma_first_toplevel(entries, toplevel, j);
    } else {
        let first = k;
        assert(0 <= first < entries.len() && entries[first].toplevel == toplevel && forall|j: int|
            0 <= j < first ==> (#[trigger] entries[j]).toplevel != toplevel);
        let c = toplevel_index(entries, toplevel);
        if c > k {
            assert(entries[k].toplevel != toplevel);
        }
    }
}

/// An entry for a layer surface has a first entry for it at or before it.
pub proof fn lemma_first_layer(entries: Seq<LayerEntryView>, identifier: Seq<char>, k: int)
    requires
        0 <= k < entries.len(),
        entries[k].identifier == identifier,
    ensures
        0 <= layer_index(entries, identifier) <= k,
        entries[layer_index(entries, identifier)].identifier == identifier,
        forall|j: int|
            0 <= j < layer_index(entries, identifier) ==> (#[trigger] entries[j]).identifier
                != identifier,
    decreases k,
{
    if exists|j: int| 0 <= j < k && (#[trigger] entries[j]).identifier == identifier {
        let j = choose|j: int| 0 <= j < k && (#[trigger] entries[j]).identifier == identifier;
        lemma_first_layer(entries, identifier, j);
    } else {
        let first = k;
        assert(0 <= first < entries.len() && entries[first].identifier == identifier
            && forall|j: int| 0 <= j < first ==> (#[trigger] entries[j]).identifier != identifier);
        let c = layer_index(entries, identifier);
        if c > k {
            assert(entries[k].identifier != identifier);
        }
    }
}

/// Noting a layer surface keeps a list free of repetition, and the surface is
/// in the list afterwards with what was noted.
pub proof fn lemma_with_layer_distinct(
    entries: Seq<LayerEntryView>,
    identifier: Seq<char>,
    overlap: LayerOverlap,
)
    ensures
        distinct_layers(entries) ==> distinct_layers(with_layer(entries, identifier, overlap)),
        has_layer(with_layer(entries, identifier, overlap), identifier),
        with_layer(entries, identifier, overlap).contains(LayerEntryView { identifier, overlap }),
{
    let after = with_layer(entries, identifier, overlap);
    if has_layer(entries, identifier) {
        let k = choose|k: int|
            0 <= k < entries.len() && (#[trigger] entries[k]).identifier == identifier;
        lemma_first_layer(entries, identifier, k);
        let i = layer_index(entries, identifier);
        assert(after[i] == LayerEntryView { identifier, overlap });
        if distinct_layers(entries) {
            assert forall|a: int, b: int|
                0 <= a < after.len() && 0 <= b < after.len() && a != b implies (
            #[trigger] after[a]).identifier != (#[trigger] after[b]).identifier by {
                assert(after[a].identifier == entries[a].identifier);
                assert(after[b].identifier == entries[b].identifier);
            }
        }
    } else {
        assert(after[entries.len() as int] == LayerEntryView { identifier, overlap });
        if distinct_layers(entries) {
            assert forall|a: int, b: int|
                0 <= a < after.len() && 0 <= b < after.len() && a != b implies (
            #[trigger] after[a]).identifier != (#[trigger] after[b]).identifier by {
                if a < entries.len() {
                    assert(entries[a].identifier != identifier);
                }
                if b < entries.len() {
                    assert(entries[b].identifier != identifier);
                }
            }
        }
    }
}

/// The events for the toplevels that were in `last` and are not in `new`.
pub open spec fn toplevel_leaves(last: Seq<ToplevelEntry>, new: Seq<ToplevelEntry>) -> Seq<
    OverlapEventView,
> {
    last.filter_map(
        |entry: ToplevelEntry|
            if has_toplevel(new, entry.toplevel) {
                None
            } else {
                Some(OverlapEventView::ToplevelLeave { toplevel: entry.toplevel })
            },
    )
}

/// The events for the toplevels that are in `new` and were not in `last`.
pub open spec fn toplevel_enters(last: Seq<ToplevelEntry>, new: Seq<ToplevelEntry>) -> Seq<
    OverlapEventView,
> {
    new.filter_map(
        |entry: ToplevelEntry|
            if has_toplevel(last, entry.toplevel) {
                None
            } else {
                Some(
                    OverlapEventView::ToplevelEnter {
                        toplevel: entry.toplevel,
                        region: entry.region,
                    },
                )
            },
    )
}

/// The leave events for layer surfaces: one for each surface that was in
/// `last` and is in `new` as well.
pub open spec fn layer_leaves(last: Seq<LayerEntryView>, new: Seq<LayerEntryView>) -> Seq<
    OverlapEventView,
> {
    last.filter_map(
        |entry: LayerEntryView|
            if has_layer(new, entry.identifier) {
                Some(OverlapEventView::LayerLeave { identifier: entry.identifier })
            } else {
                None
            },
    )
}

/// The event that tells of the layer surface `entry`.
pub open spec fn layer_enter(entry: LayerEntryView) -> OverlapEventView {
    OverlapEventView::LayerEnter {
        identifier: entry.identifier,
        exclusive: if entry.overlap.exclusive {
            1
        } else {
            0
        },
        layer: entry.overlap.layer,
        region: entry.overlap.region,
    }
}

/// The events for the layer surfaces that are in `new` and were not in
/// `last`.
pub open spec fn layer_enters(last: Seq<LayerEntryView>, new: Seq<LayerEntryView>) -> Seq<
    OverlapEventView,
> {
    new.filter_map(
        |entry: LayerEntryView|
            if has_layer(last, entry.identifier) {
                None
            } else {
                Some(layer_enter(entry))
            },
    )
}

/// What the watchers are told when `new` takes the place of `last`: the
/// toplevels that left, the toplevels that entered, the leave events for
/// layer surfaces, the layer surfaces that entered.
pub open spec fn changes(last: OverlapSnapshotView, new: OverlapSnapshotView) -> Seq<
    OverlapEventView,
> {
    toplevel_leaves(last.toplevels, new.toplevels) + toplevel_enters(last.toplevels, new.toplevels)
        + layer_leaves(last.layers, new.layers) + layer_enters(last.layers, new.layers)
}

/// What a new watcher is told of `snapshot`: everything in it has entered.
pub open spec fn replay(snapshot: OverlapSnapshotView) -> Seq<OverlapEventView> {
    toplevel_enters(Seq::empty(), snapshot.toplevels) + layer_enters(
        Seq::empty(),
        snapshot.layers,
    )
}

/// How the lists of events go through a list of entries from its end.
pub proof fn lemma_events_step(
    toplevels: Seq<ToplevelEntry>,
    other_toplevels: Seq<ToplevelEntry>,
    layers: Seq<LayerEntryView>,
    other_layers: Seq<LayerEntryView>,
)
    ensures
        toplevels.len() == 0 ==> toplevel_leaves(toplevels, other_toplevels).len() == 0
            && toplevel_enters(other_toplevels, toplevels).len() == 0,
        layers.len() == 0 ==> layer_leaves(layers, other_layers).len() == 0 && layer_enters(
            other_layers,
            layers,
        ).len() == 0,
        toplevels.len() > 0 ==> toplevel_leaves(toplevels, other_toplevels) == (if has_toplevel(
            other_toplevels,
            toplevels.last().toplevel,
        ) {
            toplevel_leaves(toplevels.drop_last(), other_toplevels)
        } else {
            toplevel_leaves(toplevels.drop_last(), other_toplevels).push(
                OverlapEventView::ToplevelLeave { toplevel: toplevels.last().toplevel },
            )
        }),
        toplevels.len() > 0 ==> toplevel_enters(other_toplevels, toplevels) == (if has_toplevel(
            other_toplevels,
            toplevels.last().toplevel,
        ) {
            toplevel_enters(other_toplevels, toplevels.drop_last())
        } else {
            toplevel_enters(other_toplevels, toplevels.drop_last()).push(
                OverlapEventView::ToplevelEnter {
                    toplevel: toplevels.last().toplevel,
                    region: toplevels.last().region,
                },
            )
        }),
        layers.len() > 0 ==> layer_leaves(layers, other_layers) == (if has_layer(
            other_layers,
            layers.last().identifier,
        ) {
            layer_leaves(layers.drop_last(), other_layers).push(
                OverlapEventView::LayerLeave { identifier: layers.last().identifier },
            )
        } else {
            layer_leaves(layers.drop_last(), other_layers)
        }),
        layers.len() > 0 ==> layer_enters(other_layers, layers) == (if has_layer(
            other_layers,
            layers.last().identifier,
        ) {
            layer_enters(other_layers, layers.drop_last())
        } else {
            layer_enters(other_layers, layers.drop_last()).push(layer_enter(layers.last()))
        }),
{
    reveal(Seq::filter_map);
    if toplevels.len() > 0 {
        let entry = toplevels.last();
        let left = toplevel_leaves(toplevels.drop_last(), other_toplevels);
        let entered = toplevel_enters(other_toplevels, toplevels.drop_last());
        assert(left + seq![OverlapEventView::ToplevelLeave { toplevel: entry.toplevel }]
            =~= left.push(OverlapEventView::ToplevelLeave { toplevel: entry.toplevel }));
        assert(entered + seq![
            OverlapEventView::ToplevelEnter { toplevel: entry.toplevel, region: entry.region },
        ] =~= entered.push(
            OverlapEventView::ToplevelEnter { toplevel: entry.toplevel, region: entry.region },
        ));
    }
    if layers.len() > 0 {
        let entry = layers.last();
        let left = layer_leaves(layers.drop_last(), other_layers);
        let entered = layer_enters(other_layers, layers.drop_last());
        assert(left + seq![OverlapEventView::LayerLeave { identifier: entry.identifier }]
            =~= left.push(OverlapEventView::LayerLeave { identifier: entry.identifier }));
        assert(entered + seq![layer_enter(entry)] =~= entered.push(layer_enter(entry)));
    }
}

/// Whether some entry in `entries` is for `toplevel`.
fn knows_toplevel(entries: &Vec<ToplevelEntry>, toplevel: u64) -> (known: bool)
    ensures
        known == has_toplevel(entries@, toplevel),
{
    find_toplevel(entries, toplevel).is_some()
}

/// Whether some entry in `entries` is for the layer surface `identifier`.
fn knows_layer(entries: &Vec<LayerEntry>, identifier: &String) -> (known: bool)
    ensures
        known == has_layer(layer_views(entries@), identifier@),
{
    find_layer(entries, identifier).is_some()
}

/// Appends to `events` what tells of the toplevels in `last` that are not in
/// `new`.
fn push_toplevel_leaves(
    events: &mut Vec<OverlapEvent>,
    last: &Vec<ToplevelEntry>,
    new: &Vec<ToplevelEntry>,
)
    ensures
        event_views(final(events)@) == event_views(old(events)@) + toplevel_leaves(last@, new@),
{
    let ghost start = event_views(events@);
    let mut i: usize = 0;
    proof {
        lemma_events_step(last@.take(0), new@, Seq::empty(), Seq::empty());
        assert(start + toplevel_leaves(last@.take(0), new@) =~= start);
    }
    while i < last.len()
        invariant
            i <= last@.len(),
            event_views(events@) == start + toplevel_leaves(last@.take(i as int), new@),
        decreases last@.len() - i,
    {
        let ghost before = events@;
        proof {
            lemma_events_step(last@.take(i + 1), new@, Seq::empty(), Seq::empty());
            assert(last@.take(i + 1).drop_last() =~= last@.take(i as int));
        }
        if !knows_toplevel(new, last[i].toplevel) {
            events.push(OverlapEvent::ToplevelLeave { toplevel: last[i].toplevel });
            proof {
                assert(event_views(events@) =~= event_views(before).push(events@[before.len() as int]@));
                assert(event_views(events@) =~= start + toplevel_leaves(last@.take(i + 1), new@));
            }
        }
        i = i + 1;
    }
    proof {
        assert(last@.take(last@.len() as int) =~= last@);
    }
}

/// Appends to `events` what tells of the toplevels in `new` that are not in
/// `last`.
fn push_toplevel_enters(
    events: &mut Vec<OverlapEvent>,
    last: &Vec<ToplevelEntry>,
    new: &Vec<ToplevelEntry>,
)
    ensures
        event_views(final(events)@) == event_views(old(events)@) + toplevel_enters(last@, new@),
{
    let ghost start = event_views(events@);
    let mut i: usize = 0;
    proof {
        lemma_events_step(new@.take(0), last@, Seq::empty(), Seq::empty());
        assert(start + toplevel_enters(last@, new@.take(0)) =~= start);
    }
    while i < new.len()
        invariant
            i <= new@.len(),
            event_views(events@) == start + toplevel_enters(last@, new@.take(i as int)),
        decreases new@.len() - i,
    {
        let ghost before = events@;
        proof {
            lemma_events_step(new@.take(i + 1), last@, Seq::empty(), Seq::empty());
            assert(new@.take(i + 1).drop_last() =~= new@.take(i as int));
        }
        if !knows_toplevel(last, new[i].toplevel) {
            events.push(
                OverlapEvent::ToplevelEnter { toplevel: new[i].toplevel, region: new[i].region },
            );
            proof {
                assert(event_views(events@) =~= event_views(before).push(events@[before.len() as int]@));
                assert(event_views(events@) =~= start + toplevel_enters(last@, new@.take(i + 1)));
            }
        }
        i = i + 1;
    }
    proof {
        assert(new@.take(new@.len() as int) =~= new@);
    }
}

/// Appends to `events` the leave events for the layer surfaces in `last`
/// that are in `new` as well.
fn push_layer_leaves(events: &mut Vec<OverlapEvent>, last: &Vec<LayerEntry>, new: &Vec<LayerEntry>)
    ensures
        event_views(final(events)@) == event_views(old(events)@) + layer_leaves(
            layer_views(last@),
            layer_views(new@),
        ),
{
    let ghost start = event_views(events@);
    let ghost olds = layer_views(last@);
    let ghost news = layer_views(new@);
    let mut i: usize = 0;
    proof {
        lemma_events_step(Seq::empty(), Seq::empty(), olds.take(0), news);
        assert(start + layer_leaves(olds.take(0), news) =~= start);
    }
    while i < last.len()
        invariant
            i <= last@.len(),
            olds == layer_views(last@),
            news == layer_views(new@),
            event_views(events@) == start + layer_leaves(olds.take(i as int), news),
        decreases last@.len() - i,
    {
        let ghost before = events@;
        proof {
            lemma_events_step(Seq::empty(), Seq::empty(), olds.take(i + 1), news);
            assert(olds.take(i + 1).drop_last() =~= olds.take(i as int));
            assert(olds.take(i + 1).last() == last@[i as int]@);
        }
        if knows_layer(new, &last[i].identifier) {
            events.push(OverlapEvent::LayerLeave { identifier: last[i].identifier.clone() });
            proof {
                assert(event_views(events@) =~= event_views(before).push(events@[before.len() as int]@));
                assert(event_views(events@) =~= start + layer_leaves(olds.take(i + 1), news));
            }
        }
        i = i + 1;
    }
    proof {
        assert(olds.take(olds.len() as int) =~= olds);
    }
}

/// Appends to `events` what tells of the layer surfaces in `new` that are
/// not in `last`.
fn push_layer_enters(events: &mut Vec<OverlapEvent>, last: &Vec<LayerEntry>, new: &Vec<LayerEntry>)
    ensures
        event_views(final(events)@) == event_views(old(events)@) + layer_enters(
            layer_views(last@),
            layer_views(new@),
        ),
{
    let ghost start = event_views(events@);
    let ghost olds = layer_views(last@);
    let ghost news = layer_views(new@);
    let mut i: usize = 0;
    proof {
        lemma_events_step(Seq::empty(), Seq::empty(), news.take(0), olds);
        assert(start + layer_enters(olds, news.take(0)) =~= start);
    }
    while i < new.len()
        invariant
            i <= new@.len(),
            olds == layer_views(last@),
            news == layer_views(new@),
            event_views(events@) == start + layer_enters(olds, news.take(i as int)),
        decreases new@.len() - i,
    {
        let ghost before = events@;
        proof {
            lemma_events_step(Seq::empty(), Seq::empty(), news.take(i + 1), olds);
            assert(news.take(i + 1).drop_last() =~= news.take(i as int));
            assert(news.take(i + 1).last() == new@[i as int]@);
        }
        if !knows_layer(last, &new[i].identifier) {
            let overlap = new[i].overlap;
            events.push(
                OverlapEvent::LayerEnter {
                    identifier: new[i].identifier.clone(),
                    exclusive: if overlap.exclusive {
                        1
                    } else {
                        0
                    },
                    layer: overlap.layer,
                    region: overlap.region,
                },
            );
            proof {
                assert(event_views(events@) =~= event_views(before).push(events@[before.len() as int]@));
                assert(event_views(events@) =~= start + layer_enters(olds, news.take(i + 1)));
            }
        }
        i = i + 1;
    }
    proof {
        assert(news.take(news.len() as int) =~= news);
    }
}

/// The notifications in `notifications` that are among `alive`, in their
/// order.
pub open spec fn alive_among(notifications: Seq<u64>, alive: Seq<u64>) -> Seq<u64> {
    notifications.filter(|notification: u64| alive.contains(notification))
}

/// How [`alive_among`] goes through a list from its end.
pub proof fn lemma_alive_step(notifications: Seq<u64>, alive: Seq<u64>)
    ensures
        notifications.len() == 0 ==> alive_among(notifications, alive) == Seq::<u64>::empty(),
        notifications.len() > 0 ==> alive_among(notifications, alive) == (if alive.contains(
            notifications.last(),
        ) {
            alive_among(notifications.drop_last(), alive).push(notifications.last())
        } else {
            alive_among(notifications.drop_last(), alive)
        }),
{
    reveal(Seq::filter);
    if notifications.len() == 0 {
        assert(alive_among(notifications, alive) =~= Seq::<u64>::empty());
    }
}

/// Model of a [`LayerOverlapNotificationDataInternal`].
pub struct NotificationDataView {
    /// The watchers, in the order they came.
    pub notifications: Seq<u64>,
    /// What the watchers were last told of.
    pub last: OverlapSnapshotView,
}

/// What is kept for a layer surface that is watched: its watchers and the
/// snapshot they were last told of.
#[derive(Debug)]
pub struct LayerOverlapNotificationDataInternal {
    active_notifications: Vec<u64>,
    last_snapshot: OverlapSnapshot,
}

impl View for LayerOverlapNotificationDataInternal {
    type V = NotificationDataView;

    closed spec fn view(&self) -> NotificationDataView {
        NotificationDataView {
            notifications: self.active_notifications@,
            last: self.last_snapshot@,
        }
    }
}

/// Whether `id` is in `ids`.
fn contains_id(ids: &Vec<u64>, id: u64) -> (found: bool)
    ensures
        found == ids@.contains(id),
{
    let mut i: usize = 0;
    while i < ids.len()
        invariant
            i <= ids@.len(),
            forall|j: int| 0 <= j < i ==> ids@[j] != id,
        decreases ids@.len() - i,
    {
        if ids[i] == id {
            return true;
        }
        i = i + 1;
    }
    false
}

impl LayerOverlapNotificationDataInternal {
    /// No watchers, and nothing they were told of.
    pub fn new() -> (data: LayerOverlapNotificationDataInternal)
        ensures
            data@ == (NotificationDataView {
                notifications: Seq::empty(),
                last: OverlapSnapshotView::empty(),
            }),
    {
        LayerOverlapNotificationDataInternal {
            active_notifications: Vec::new(),
            last_snapshot: OverlapSnapshot::new(),
        }
    }

    /// The watchers, in the order they came.
    pub fn active_notifications(&self) -> (notifications: &Vec<u64>)
        ensures
            notifications@ == self@.notifications,
    {
        &self.active_notifications
    }

    /// The snapshot the watchers were last told of.
    pub fn last_snapshot(&self) -> (snapshot: &OverlapSnapshot)
        ensures
            snapshot@ == self@.last,
    {
        &self.last_snapshot
    }

    /// Forgets the watchers that are not among `alive`, and says whether any
    /// is left.
    pub fn has_active_notifications(&mut self, alive: &Vec<u64>) -> (any: bool)
        ensures
            final(self)@ == (NotificationDataView {
                notifications: alive_among(old(self)@.notifications, alive@),
                ..old(self)@
            }),
            any == (alive_among(old(self)@.notifications, alive@).len() > 0),
    {
        let mut kept: Vec<u64> = Vec::new();
        let mut i: usize = 0;
        proof {
            lemma_alive_step(self.active_notifications@.take(0), alive@);
        }
        while i < self.active_notifications.len()
            invariant
                i <= self.active_notifications@.len(),
                kept@ == alive_among(self.active_notifications@.take(i as int), alive@),
            decreases self.active_notifications@.len() - i,
        {
            proof {
                lemma_alive_step(self.active_notifications@.take(i + 1), alive@);
                assert(self.active_notifications@.take(i + 1).drop_last()
                    =~= self.active_notifications@.take(i as int));
            }
            if contains_id(alive, self.active_notifications[i]) {
                kept.push(self.active_notifications[i]);
            }
            i = i + 1;
        }
        proof {
            assert(self.active_notifications@.take(self.active_notifications@.len() as int)
                =~= self.active_notifications@);
        }
        self.active_notifications = kept;
        self.active_notifications.len() > 0
    }

    /// Takes a new watcher. Returns what it is told at once: everything in
    /// the last snapshot has entered.
    pub fn add_notification(&mut self, new_notification: u64) -> (events: Vec<OverlapEvent>)
        ensures
            final(self)@ == (NotificationDataView {
                notifications: old(self)@.notifications.push(new_notification),
                ..old(self)@
            }),
            event_views(events@) == replay(old(self)@.last),
    {
        let mut events: Vec<OverlapEvent> = Vec::new();
        let nothing: Vec<ToplevelEntry> = Vec::new();
        let no_layers: Vec<LayerEntry> = Vec::new();
        proof {
            assert(event_views(events@) =~= Seq::<OverlapEventView>::empty());
            assert(layer_views(no_layers@) =~= Seq::<LayerEntryView>::empty());
        }
        push_toplevel_enters(&mut events, &nothing, &self.last_snapshot.toplevel_overlaps);
        push_layer_enters(&mut events, &no_layers, &self.last_snapshot.layer_overlaps);
        self.active_notifications.push(new_notification);
        proof {
            assert(event_views(events@) =~= replay(old(self)@.last));
        }
        events
    }

    /// Puts `new_snapshot` in the place of the last snapshot. Returns what
    /// every watcher is told, in this order: the toplevels that overlap no
    /// more, the toplevels that overlap now and did not before, a leave for
    /// each layer surface that overlapped before and still does, and the
    /// layer surfaces that overlap now and did not before.
    pub fn update_snapshot(&mut self, new_snapshot: OverlapSnapshot) -> (events: Vec<OverlapEvent>)
        ensures
            final(self)@ == (NotificationDataView { last: new_snapshot@, ..old(self)@ }),
            event_views(events@) == changes(old(self)@.last, new_snapshot@),
    {
        let mut events: Vec<OverlapEvent> = Vec::new();
        proof {
            assert(event_views(events@) =~= Seq::<OverlapEventView>::empty());
        }
        push_toplevel_leaves(
            &mut events,
            &self.last_snapshot.toplevel_overlaps,
            &new_snapshot.toplevel_overlaps,
        );
        push_toplevel_enters(
            &mut events,
            &self.last_snapshot.toplevel_overlaps,
            &new_snapshot.toplevel_overlaps,
        );
        push_layer_leaves(
            &mut events,
            &self.last_snapshot.layer_overlaps,
            &new_snapshot.layer_overlaps,
        );
        push_layer_enters(
            &mut events,
            &self.last_snapshot.layer_overlaps,
            &new_snapshot.layer_overlaps,
        );
        proof {
            assert(event_views(events@) =~= changes(old(self)@.last, new_snapshot@));
        }
        self.last_snapshot = new_snapshot;
        events
    }
}

/// A letter of the English alphabet or a digit.
pub open spec fn is_alphanumeric(c: char) -> bool {
    ||| 'A' as u32 <= c as u32 <= 'Z' as u32
    ||| 'a' as u32 <= c as u32 <= 'z' as u32
    ||| '0' as u32 <= c as u32 <= '9' as u32
}

/// How many characters an [`Identifier`] has.
pub const IDENTIFIER_LEN: usize = 32;

/// The string that a layer surface is known by to those who watch another.
#[derive(Debug)]
pub struct Identifier(pub String);

/// `rand::distributions::DistString::sample_string` of
/// `rand::distributions::Alphanumeric`, on the generator of the thread: a
/// string of `len` characters, each drawn from the letters `A` to `Z`, `a` to
/// `z` and the digits. Which ones come is up to chance, and nothing is
/// claimed of it.
#[verifier::external_body]
fn sample_alphanumeric(len: usize) -> (text: String)
    ensures
        text@.len() == len,
        forall|i: int| 0 <= i < text@.len() ==> is_alphanumeric(#[trigger] text@[i]),
{
    rand::distributions::DistString::sample_string(
        &rand::distributions::Alphanumeric,
        &mut rand::thread_rng(),
        len,
    )
}

impl Default for Identifier {
    /// A new identifier: 32 letters and digits, drawn at random.
    fn default() -> (identifier: Identifier)
        ensures
            identifier.0@.len() == IDENTIFIER_LEN,
            forall|i: int|
                0 <= i < identifier.0@.len() ==> is_alphanumeric(#[trigger] identifier.0@[i]),
    {
        Identifier(sample_alphanumeric(IDENTIFIER_LEN))
    }
}

/// What is known of a toplevel when a snapshot is taken.
#[derive(Debug)]
pub struct ToplevelInfo {
    /// The handles that the toplevel is known by.
    pub handles: Vec<u64>,
    /// Where the toplevel lies, if it is shown.
    pub geometry: Option<Rect>,
}

/// What is known of another layer surface when a snapshot is taken.
#[derive(Debug)]
pub struct LayerInfo {
    pub identifier: String,
    /// Whether the surface reserves its area for itself.
    pub exclusive: bool,
    pub layer: Layer,
    /// Where the surface lies.
    pub geometry: Rect,
}

/// Model of a [`ToplevelInfo`].
pub struct ToplevelInfoView {
    pub handles: Seq<u64>,
    pub geometry: Option<Rect>,
}

/// Model of a [`LayerInfo`].
pub struct LayerInfoView {
    pub identifier: Seq<char>,
    pub exclusive: bool,
    pub layer: Layer,
    pub geometry: Rect,
}

impl View for ToplevelInfo {
    type V = ToplevelInfoView;

    open spec fn view(&self) -> ToplevelInfoView {
        ToplevelInfoView { handles: self.handles@, geometry: self.geometry }
    }
}

impl View for LayerInfo {
    type V = LayerInfoView;

    open spec fn view(&self) -> LayerInfoView {
        LayerInfoView {
            identifier: self.identifier@,
            exclusive: self.exclusive,
            layer: self.layer,
            geometry: self.geometry,
        }
    }
}

/// The models of `infos`, in their order.
pub open spec fn toplevel_infos(infos: Seq<ToplevelInfo>) -> Seq<ToplevelInfoView> {
    Seq::new(infos.len(), |i: int| infos[i]@)
}

/// The models of `infos`, in their order.
pub open spec fn layer_infos(infos: Seq<LayerInfo>) -> Seq<LayerInfoView> {
    Seq::new(infos.len(), |i: int| infos[i]@)
}

/// The part of `other` that lies over `watched`, as seen from the corner of
/// `other`; nothing if they share no area.
pub open spec fn overlap_region(watched: Rect, other: Rect) -> Option<Rect> {
    match watched.spec_intersection(other) {
        Some(shared) => Some(
            Rect { loc: shared.loc.spec_relative_to(other.loc), size: shared.size },
        ),
        None => None,
    }
}

/// The part of `other` that lies over `watched`, as seen from the corner of
/// `other`.
pub fn overlap_with(watched: Rect, other: Rect) -> (region: Option<Rect>)
    ensures
        region == overlap_region(watched, other),
{
    match watched.intersection(other) {
        Some(shared) => Some(Rect { loc: shared.loc.relative_to(other.loc), size: shared.size }),
        None => None,
    }
}

/// `entries` with the overlaps of the toplevels `infos` with `watched` noted,
/// first to last: a toplevel that is shown and shares area with `watched` is
/// noted under each of its handles.
pub open spec fn toplevels_noted(
    entries: Seq<ToplevelEntry>,
    watched: Rect,
    infos: Seq<ToplevelInfoView>,
) -> Seq<ToplevelEntry>
    decreases infos.len(),
{
    if infos.len() == 0 {
        entries
    } else {
        let before = toplevels_noted(entries, watched, infos.drop_last());
        match infos.last().geometry {
            Some(geometry) => match overlap_region(watched, geometry) {
                Some(region) => with_toplevels(before, infos.last().handles, region),
                None => before,
            },
            None => before,
        }
    }
}

/// `entries` with the overlaps of the layer surfaces `infos` with `watched`
/// noted, first to last.
pub open spec fn layers_noted(
    entries: Seq<LayerEntryView>,
    watched: Rect,
    infos: Seq<LayerInfoView>,
) -> Seq<LayerEntryView>
    decreases infos.len(),
{
    if infos.len() == 0 {
        entries
    } else {
        let before = layers_noted(entries, watched, infos.drop_last());
        match overlap_region(watched, infos.last().geometry) {
            Some(region) => with_layer(
                before,
                infos.last().identifier,
                LayerOverlap { exclusive: infos.last().exclusive, layer: infos.last().layer, region },
            ),
            None => before,
        }
    }
}

/// What overlaps a surface that lies at `watched`, out of the toplevels
/// `toplevels` and the other layer surfaces `layers`.
pub open spec fn snapshot_at(
    watched: Rect,
    toplevels: Seq<ToplevelInfoView>,
    layers: Seq<LayerInfoView>,
) -> OverlapSnapshotView {
    OverlapSnapshotView {
        toplevels: toplevels_noted(Seq::empty(), watched, toplevels),
        layers: layers_noted(Seq::empty(), watched, layers),
    }
}

/// Takes the snapshot of a surface that lies at `watched`: which of the
/// toplevels `toplevels` and of the other layer surfaces `layers` lie over
/// it, and where.
pub fn take_snapshot(watched: Rect, toplevels: &Vec<ToplevelInfo>, layers: &Vec<LayerInfo>) -> (snapshot:
    OverlapSnapshot)
    ensures
        snapshot@ == snapshot_at(watched, toplevel_infos(toplevels@), layer_infos(layers@)),
        snapshot@.wf(),
{
    let mut snapshot = OverlapSnapshot::new();
    let ghost windows = toplevel_infos(toplevels@);
    let ghost others = layer_infos(layers@);
    let mut i: usize = 0;
    while i < toplevels.len()
        invariant
            i <= toplevels@.len(),
            windows == toplevel_infos(toplevels@),
            snapshot@.wf(),
            snapshot@.layers == Seq::<LayerEntryView>::empty(),
            snapshot@.toplevels == toplevels_noted(Seq::empty(), watched, windows.take(i as int)),
        decreases toplevels@.len() - i,
    {
        proof {
            assert(windows.take(i + 1).drop_last() =~= windows.take(i as int));
            assert(windows.take(i + 1).last() == toplevels@[i as int]@);
        }
        if let Some(geometry) = toplevels[i].geometry {
            if let Some(region) = overlap_with(watched, geometry) {
                snapshot.add_toplevel(&toplevels[i].handles, region);
            }
        }
        i = i + 1;
    }
    proof {
        assert(windows.take(windows.len() as int) =~= windows);
    }
    let mut j: usize = 0;
    while j < layers.len()
        invariant
            j <= layers@.len(),
            others == layer_infos(layers@),
            snapshot@.wf(),
            snapshot@.toplevels == toplevels_noted(Seq::empty(), watched, windows),
            snapshot@.layers == layers_noted(Seq::empty(), watched, others.take(j as int)),
        decreases layers@.len() - j,
    {
        proof {
            assert(others.take(j + 1).drop_last() =~= others.take(j as int));
            assert(others.take(j + 1).last() == layers@[j as int]@);
        }
        if let Some(region) = overlap_with(watched, layers[j].geometry) {
            snapshot.add_layer(
                layers[j].identifier.clone(),
                layers[j].exclusive,
                layers[j].layer,
                region,
            );
        }
        j = j + 1;
    }
    proof {
        assert(others.take(others.len() as int) =~= others);
    }
    snapshot
}

/// The protocol objects through which watchers ask to be told of overlaps.
#[derive(Debug)]
pub struct OverlapNotifyState {
    instances: Vec<u64>,
}

/// The instances in `instances` other than `resource`, in their order.
pub open spec fn instances_without(instances: Seq<u64>, resource: u64) -> Seq<u64> {
    instances.filter(|instance: u64| instance != resource)
}

/// How [`instances_without`] goes through a list from its end.
pub proof fn lemma_instances_step(instances: Seq<u64>, resource: u64)
    ensures
        instances.len() == 0 ==> instances_without(instances, resource) == Seq::<u64>::empty(),
        instances.len() > 0 ==> instances_without(instances, resource) == (if instances.last()
            != resource {
            instances_without(instances.drop_last(), resource).push(instances.last())
        } else {
            instances_without(instances.drop_last(), resource)
        }),
{
    reveal(Seq::filter);
    if instances.len() == 0 {
        assert(instances_without(instances, resource) =~= Seq::<u64>::empty());
    }
}

impl View for OverlapNotifyState {
    type V = Seq<u64>;

    closed spec fn view(&self) -> Seq<u64> {
        self.instances@
    }
}

impl OverlapNotifyState {
    /// A state without instances.
    pub fn new() -> (state: OverlapNotifyState)
        ensures
            state@ == Seq::<u64>::empty(),
    {
        OverlapNotifyState { instances: Vec::new() }
    }

    /// The instances, in the order they were bound.
    pub fn instances(&self) -> (instances: &Vec<u64>)
        ensures
            instances@ == self@,
    {
        &self.instances
    }

    /// A client bound the protocol: `instance` is its object.
    pub fn bind(&mut self, instance: u64)
        ensures
            final(self)@ == old(self)@.push(instance),
    {
        self.instances.push(instance);
    }

    /// The object `resource` was destroyed: it is an instance no more.
    pub fn destroyed(&mut self, resource: u64)
        ensures
            final(self)@ == instances_without(old(self)@, resource),
    {
        let mut kept: Vec<u64> = Vec::new();
        let mut i: usize = 0;
        proof {
            lemma_instances_step(self.instances@.take(0), resource);
        }
        while i < self.instances.len()
            invariant
                i <= self.instances@.len(),
                kept@ == instances_without(self.instances@.take(i as int), resource),
            decreases self.instances@.len() - i,
        {
            proof {
                lemma_instances_step(self.instances@.take(i + 1), resource);
                assert(self.instances@.take(i + 1).drop_last() =~= self.instances@.take(i as int));
            }
            if self.instances[i] != resource {
                kept.push(self.instances[i]);
            }
            i = i + 1;
        }
        proof {
            assert(self.instances@.take(self.instances@.len() as int) =~= self.instances@);
        }
        self.instances = kept;
    }

    /// Brings the snapshot of one watched layer surface up to date.
    ///
    /// The watchers of `data` that are not among `alive` are forgotten. If
    /// any is left, the snapshot of the surface at `watched` is taken anew
    /// and what changed is returned for the watchers; without watchers
    /// nothing is looked at and nothing is returned.
    pub fn refresh(
        data: &mut LayerOverlapNotificationDataInternal,
        alive: &Vec<u64>,
        watched: Rect,
        toplevels: &Vec<ToplevelInfo>,
        layers: &Vec<LayerInfo>,
    ) -> (events: Vec<OverlapEvent>)
        ensures
            final(data)@.notifications == alive_among(old(data)@.notifications, alive@),
            final(data)@.notifications.len() == 0 ==> final(data)@.last == old(data)@.last
                && events@.len() == 0,
            final(data)@.notifications.len() > 0 ==> final(data)@.last == snapshot_at(
                watched,
                toplevel_infos(toplevels@),
                layer_infos(layers@),
            ) && event_views(events@) == changes(old(data)@.last, final(data)@.last),
    {
        if data.has_active_notifications(alive) {
            let snapshot = take_snapshot(watched, toplevels, layers);
            data.update_snapshot(snapshot)
        } else {
            Vec::new()
        }
    }
}

} // verus!
