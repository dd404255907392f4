//! Choice of the buffer allocator of a session.
//!
//! A session tries its candidate backends once, in the order it was configured
//! with, and keeps the first that comes up. Bringing a backend up is the
//! caller's work; what is decided from the report of each attempt is decided
//! here.

use crate::error::Error;
use vstd::prelude::*;

verus! {

/// The kind of a device node.
#[derive(Clone, Copy, Debug, PartialEq, Eq, Structural)]
pub enum NodeType {
    Primary,
    Control,
    Render,
}

/// A device node of the graphics subsystem.
#[derive(Clone, Copy, Debug, PartialEq, Eq, Structural)]
pub struct DrmNode {
    /// Device number of the node.
    pub dev: u64,
    pub ty: NodeType,
}

/// What a device answered when asked for one of its nodes.
#[derive(Clone, Copy, Debug, PartialEq, Eq, Structural)]
pub enum NodeQuery {
    /// The device has this node.
    Known(DrmNode),
    /// The device has no such node.
    Absent,
    /// The device could not be asked.
    Failed,
}

/// Capability record of one hardware device.
#[derive(Clone, Copy, Debug, PartialEq, Eq, Structural)]
pub struct PhysicalDevice {
    /// The caller's own name for the device.
    pub id: u64,
    /// Whether the device can tell which nodes it is reachable by.
    pub has_drm_extension: bool,
    pub primary_node: NodeQuery,
    pub render_node: NodeQuery,
}

/// Handle of the device the fallback backend allocates from.
#[derive(Clone, Copy, Debug, PartialEq, Eq, Structural)]
pub struct DeviceFd {
    pub fd: i32,
}

/// A backend that can allocate buffers.
#[derive(Clone, Copy, Debug, PartialEq, Eq, Structural)]
pub enum BackendKind {
    /// The hardware backend, tried first by default.
    Vulkan,
    /// The generic fallback.
    Gbm,
}

/// The allocator of a session: one backend with the device it works on.
#[derive(Clone, Copy, Debug, PartialEq, Eq, Structural)]
pub enum Allocator {
    Gbm(DeviceFd),
    Vulkan(PhysicalDevice),
}

/// How loud a log entry is.
#[derive(Clone, Copy, Debug, PartialEq, Eq, Structural)]
pub enum Severity {
    Debug,
    Info,
    Warn,
    Error,
}

/// Why a candidate backend did not come up.
#[derive(Clone, Copy, Debug, PartialEq, Eq, Structural)]
pub enum ProbeFailure {
    /// The hardware API could not be instantiated.
    InstanceFailed,
    /// The hardware API lists no devices.
    NoDevices,
    /// None of the listed devices drives the node in use.
    NoDeviceForNode,
    /// A listed device could not be asked for its nodes.
    DeviceQueryFailed,
    /// The fallback device could not be created.
    GbmDeviceFailed,
}

/// What the hardware API reported when it was brought up.
#[derive(Debug)]
pub enum VulkanProbe {
    /// No instance could be created.
    InstanceFailed,
    /// The devices could not be listed.
    EnumerationFailed,
    /// The devices, in the order the API lists them.
    Devices(Vec<PhysicalDevice>),
}

/// The outcome of trying one candidate.
#[derive(Clone, Copy, Debug, PartialEq, Eq, Structural)]
pub enum Probe {
    /// The backend came up.
    Ready(Allocator),
    /// The backend is not available; the next candidate is due.
    Unavailable(ProbeFailure),
}

/// What looking at one device tells.
#[derive(Clone, Copy, Debug, PartialEq, Eq, Structural)]
pub enum Examined {
    /// The device drives the node.
    Match,
    /// The device is not the one.
    Skip,
    /// A node of the device had to be asked for and the query failed.
    Failed,
}

impl Allocator {
    pub open spec fn spec_kind(self) -> BackendKind {
        match self {
            Allocator::Gbm(_) => BackendKind::Gbm,
            Allocator::Vulkan(_) => BackendKind::Vulkan,
        }
    }

    /// The backend this allocator belongs to.
    #[verifier::when_used_as_spec(spec_kind)]
    pub fn kind(self) -> (kind: BackendKind)
        ensures
            kind == self.spec_kind(),
    {
        match self {
            Allocator::Gbm(_) => BackendKind::Gbm,
            Allocator::Vulkan(_) => BackendKind::Vulkan,
        }
    }
}

impl ProbeFailure {
    /// An absent backend is expected and logged quietly; a backend that should
    /// have worked is logged loudly.
    pub open spec fn spec_severity(self) -> Severity {
        match self {
            ProbeFailure::InstanceFailed => Severity::Warn,
            ProbeFailure::NoDevices => Severity::Debug,
            ProbeFailure::NoDeviceForNode => Severity::Debug,
            ProbeFailure::DeviceQueryFailed => Severity::Warn,
            ProbeFailure::GbmDeviceFailed => Severity::Error,
        }
    }

    pub open spec fn spec_backend(self) -> BackendKind {
        match self {
            ProbeFailure::GbmDeviceFailed => BackendKind::Gbm,
            _ => BackendKind::Vulkan,
        }
    }

    pub open spec fn spec_message(self) -> Seq<char> {
        match self {
            ProbeFailure::InstanceFailed => {
                "Failed to instanciate vulkan, falling back to gbm allocator."@
            },
            ProbeFailure::NoDevices => "No vulkan devices, falling back to gbm."@,
            ProbeFailure::NoDeviceForNode => "No vulkan device for node, falling back to gbm."@,
            ProbeFailure::DeviceQueryFailed => "Failed to query vulkan device, falling back to gbm."@,
            ProbeFailure::GbmDeviceFailed => "Failed to create GBM device."@,
        }
    }

    /// The level to log this failure at.
    #[verifier::when_used_as_spec(spec_severity)]
    pub fn severity(self) -> (severity: Severity)
        ensures
            severity == self.spec_severity(),
    {
        match self {
            ProbeFailure::InstanceFailed | ProbeFailure::DeviceQueryFailed => Severity::Warn,
            ProbeFailure::NoDevices | ProbeFailure::NoDeviceForNode => Severity::Debug,
            ProbeFailure::GbmDeviceFailed => Severity::Error,
        }
    }

    /// The backend that failed.
    #[verifier::when_used_as_spec(spec_backend)]
    pub fn backend(self) -> (kind: BackendKind)
        ensures
            kind == self.spec_backend(),
    {
        match self {
            ProbeFailure::GbmDeviceFailed => BackendKind::Gbm,
            _ => BackendKind::Vulkan,
        }
    }

    /// The text to log.
    pub fn message(self) -> (text: &'static str)
        ensures
            text@ == self.spec_message(),
    {
        match self {
            ProbeFailure::InstanceFailed => {
                "Failed to instanciate vulkan, falling back to gbm allocator."
            },
            ProbeFailure::NoDevices => "No vulkan devices, falling back to gbm.",
            ProbeFailure::NoDeviceForNode => "No vulkan device for node, falling back to gbm.",
            ProbeFailure::DeviceQueryFailed => "Failed to query vulkan device, falling back to gbm.",
            ProbeFailure::GbmDeviceFailed => "Failed to create GBM device.",
        }
    }
}

/// What looking at `device` tells about `node`. A device without the
/// extension is passed over unasked; the primary node is asked for first, the
/// render node only if the primary node is another.
pub open spec fn examine(device: PhysicalDevice, node: DrmNode) -> Examined {
    if !device.has_drm_extension {
        Examined::Skip
    } else if device.primary_node == NodeQuery::Failed {
        Examined::Failed
    } else if device.primary_node == NodeQuery::Known(node) {
        Examined::Match
    } else if device.render_node == NodeQuery::Failed {
        Examined::Failed
    } else if device.render_node == NodeQuery::Known(node) {
        Examined::Match
    } else {
        Examined::Skip
    }
}

/// Every device before position `end` is passed over.
pub open spec fn all_skipped(devices: Seq<PhysicalDevice>, node: DrmNode, end: int) -> bool {
    forall|j: int| 0 <= j < end && j < devices.len() ==> examine(#[trigger] devices[j], node) == Examined::Skip
}

/// Exec form of [`examine`].
pub fn examine_device(device: &PhysicalDevice, node: DrmNode) -> (seen: Examined)
    ensures
        seen == examine(*device, node),
{
    if !device.has_drm_extension {
        return Examined::Skip;
    }
    match device.primary_node {
        NodeQuery::Failed => {
            return Examined::Failed;
        },
        NodeQuery::Known(primary) => {
            if primary == node {
                return Examined::Match;
            }
        },
        NodeQuery::Absent => {},
    }
    match device.render_node {
        NodeQuery::Failed => Examined::Failed,
        NodeQuery::Known(render) => {
            if render == node {
                Examined::Match
            } else {
                Examined::Skip
            }
        },
        NodeQuery::Absent => Examined::Skip,
    }
}

/// What a search through `devices` for the one that drives `node` comes to:
/// the first device that is not passed over decides.
pub open spec fn search_outcome(
    devices: Seq<PhysicalDevice>,
    node: DrmNode,
    found: Result<PhysicalDevice, ProbeFailure>,
) -> bool {
    match found {
        Ok(device) => exists|i: int|
            0 <= i < devices.len() && all_skipped(devices, node, i) && examine(
                #[trigger] devices[i],
                node,
            ) == Examined::Match && device == devices[i],
        Err(failure) => if failure == ProbeFailure::DeviceQueryFailed {
            exists|i: int|
                0 <= i < devices.len() && all_skipped(devices, node, i) && examine(
                    #[trigger] devices[i],
                    node,
                ) == Examined::Failed
        } else {
            failure == ProbeFailure::NoDeviceForNode && all_skipped(
                devices,
                node,
                devices.len() as int,
            )
        },
    }
}

/// The first device in `devices` that drives `node`.
///
/// The search ends without a device when every device is passed over, or when
/// it reaches a device whose node cannot be asked for.
pub fn find_device(devices: &Vec<PhysicalDevice>, node: DrmNode) -> (found: Result<
    PhysicalDevice,
    ProbeFailure,
>)
    ensures
        search_outcome(devices@, node, found),
{
    let mut i: usize = 0;
    while i < devices.len()
        invariant
            i <= devices@.len(),
            all_skipped(devices@, node, i as int),
        decreases devices@.len() - i,
    {
        match examine_device(&devices[i], node) {
            Examined::Match => {
                return Ok(devices[i]);
            },
            Examined::Failed => {
                return Err(ProbeFailure::DeviceQueryFailed);
            },
            Examined::Skip => {},
        }
        i = i + 1;
    }
    Err(ProbeFailure::NoDeviceForNode)
}

/// What the hardware backend comes to for `node`, given the report of bringing
/// it up.
pub open spec fn vulkan_outcome(probe: VulkanProbe, node: DrmNode, result: Probe) -> bool {
    match probe {
        VulkanProbe::InstanceFailed => result == Probe::Unavailable(ProbeFailure::InstanceFailed),
        VulkanProbe::EnumerationFailed => result == Probe::Unavailable(ProbeFailure::NoDevices),
        VulkanProbe::Devices(devices) => match result {
            Probe::Ready(chosen) => exists|device: PhysicalDevice|
                chosen == Allocator::Vulkan(device) && #[trigger] search_outcome(
                    devices@,
                    node,
                    Ok(device),
                ),
            Probe::Unavailable(failure) => search_outcome(devices@, node, Err(failure)),
        },
    }
}

/// Tries the hardware backend for the node the display server renders on.
///
/// The first listed device that drives `node` becomes the allocator. Without
/// an instance, without a device list, without such a device or with a device
/// that cannot be asked, the backend is unavailable for the reason returned.
pub fn try_vulkan_allocator(probe: &VulkanProbe, node: DrmNode) -> (result: Probe)
    ensures
        vulkan_outcome(*probe, node, result),
{
    match probe {
        VulkanProbe::InstanceFailed => Probe::Unavailable(ProbeFailure::InstanceFailed),
        VulkanProbe::EnumerationFailed => Probe::Unavailable(ProbeFailure::NoDevices),
        VulkanProbe::Devices(devices) => match find_device(devices, node) {
            Ok(device) => Probe::Ready(Allocator::Vulkan(device)),
            Err(failure) => Probe::Unavailable(failure),
        },
    }
}

/// Tries the fallback backend on the device the caller opened, if it could.
pub fn try_gbm_allocator(device: Option<DeviceFd>) -> (probe: Probe)
    ensures
        probe == match device {
            Some(fd) => Probe::Ready(Allocator::Gbm(fd)),
            None => Probe::Unavailable(ProbeFailure::GbmDeviceFailed),
        },
{
    match device {
        Some(fd) => Probe::Ready(Allocator::Gbm(fd)),
        None => Probe::Unavailable(ProbeFailure::GbmDeviceFailed),
    }
}

/// Model of a selection in progress.
pub struct SelectionView {
    /// The candidates, most preferred first.
    pub order: Seq<BackendKind>,
    /// How many candidates have reported.
    pub tried: nat,
    /// The allocator adopted, once a candidate came up.
    pub chosen: Option<Allocator>,
    /// The failures of the candidates before it, in the order they were tried.
    pub log: Seq<ProbeFailure>,
}

impl SelectionView {
    /// A selection that has tried nothing yet.
    pub open spec fn start(order: Seq<BackendKind>) -> SelectionView {
        SelectionView { order, tried: 0, chosen: None, log: Seq::empty() }
    }

    /// The candidate to try now: none once one came up or all have failed.
    pub open spec fn next(self) -> Option<BackendKind> {
        if self.chosen is None && self.tried < self.order.len() {
            Some(self.order[self.tried as int])
        } else {
            None
        }
    }

    /// The selection after the candidate in turn reported `probe`. A report
    /// that no candidate was asked for changes nothing.
    pub open spec fn record(self, probe: Probe) -> SelectionView {
        if self.next() is None {
            self
        } else {
            match probe {
                Probe::Ready(allocator) => SelectionView {
                    tried: self.tried + 1,
                    chosen: Some(allocator),
                    ..self
                },
                Probe::Unavailable(failure) => SelectionView {
                    tried: self.tried + 1,
                    log: self.log.push(failure),
                    ..self
                },
            }
        }
    }

    /// The selection after the reports in `probes`, first to last.
    pub open spec fn record_all(self, probes: Seq<Probe>) -> SelectionView
        decreases probes.len(),
    {
        if probes.len() == 0 {
            self
        } else {
            self.record_all(probes.drop_last()).record(probes.last())
        }
    }

    /// What the session is built on: the adopted allocator, or the failure to
    /// find one.
    pub open spec fn result(self) -> Result<Allocator, Error> {
        match self.chosen {
            Some(allocator) => Ok(allocator),
            None => Err(Error::NoBackendAvailable),
        }
    }

    /// The log holds one entry for each candidate that failed.
    pub open spec fn wf(self) -> bool {
        &&& self.tried <= self.order.len()
        &&& match self.chosen {
            Some(_) => self.log.len() + 1 == self.tried,
            None => self.log.len() == self.tried,
        }
    }
}

/// The failures that the first `count` reports in `probes` state.
pub open spec fn failures(probes: Seq<Probe>, count: int) -> Seq<ProbeFailure> {
    Seq::new(count as nat, |j: int| probes[j]->Unavailable_0)
}

/// The first `count` reports in `probes` are all failures.
pub open spec fn all_unavailable(probes: Seq<Probe>, count: int) -> bool {
    forall|j: int| 0 <= j < count && j < probes.len() ==> #[trigger] probes[j] is Unavailable
}

/// The selection of a session's allocator: the candidates in order of
/// preference, and what has been learnt of them so far.
#[derive(Debug)]
pub struct AllocatorSelection {
    order: Vec<BackendKind>,
    tried: usize,
    chosen: Option<Allocator>,
    log: Vec<ProbeFailure>,
}

impl View for AllocatorSelection {
    type V = SelectionView;

    closed spec fn view(&self) -> SelectionView {
        SelectionView {
            order: self.order@,
            tried: self.tried as nat,
            chosen: self.chosen,
            log: self.log@,
        }
    }
}

impl AllocatorSelection {
    /// The usual order: the hardware backend, then the fallback.
    pub fn default_order() -> (order: Vec<BackendKind>)
        ensures
            order@ == seq![BackendKind::Vulkan, BackendKind::Gbm],
    {
        let mut order: Vec<BackendKind> = Vec::new();
        order.push(BackendKind::Vulkan);
        order.push(BackendKind::Gbm);
        order
    }

    /// Starts a selection among `order`, most preferred first.
    pub fn new(order: Vec<BackendKind>) -> (selection: AllocatorSelection)
        ensures
            selection@ == SelectionView::start(order@),
    {
        AllocatorSelection { order, tried: 0, chosen: None, log: Vec::new() }
    }

    /// The candidate the caller is to try now, if any is left to try.
    pub fn next_candidate(&self) -> (candidate: Option<BackendKind>)
        ensures
            candidate == self@.next(),
    {
        if self.chosen.is_none() && self.tried < self.order.len() {
            Some(self.order[self.tried])
        } else {
            None
        }
    }

    /// Takes the report of the candidate in turn. The first that is ready is
    /// adopted for good; a failure goes to the log and the next candidate is
    /// due.
    pub fn record(&mut self, probe: Probe)
        ensures
            final(self)@ == old(self)@.record(probe),
    {
        if self.chosen.is_none() && self.tried < self.order.len() {
            self.tried = self.tried + 1;
            match probe {
                Probe::Ready(allocator) => {
                    self.chosen = Some(allocator);
                },
                Probe::Unavailable(failure) => {
                    self.log.push(failure);
                },
            }
        }
    }

    /// The allocator adopted so far.
    pub fn chosen(&self) -> (chosen: Option<Allocator>)
        ensures
            chosen == self@.chosen,
    {
        self.chosen
    }

    /// The failures met so far, in the order they were met.
    pub fn log(&self) -> (log: &Vec<ProbeFailure>)
        ensures
            log@ == self@.log,
    {
        &self.log
    }

    /// Ends the selection: the adopted allocator, or
    /// `Error::NoBackendAvailable` when no candidate came up.
    pub fn finish(self) -> (result: Result<Allocator, Error>)
        ensures
            result == self@.result(),
    {
        match self.chosen {
            Some(allocator) => Ok(allocator),
            None => Err(Error::NoBackendAvailable),
        }
    }
}

/// As long as only failures are reported, every report is logged and no
/// allocator is adopted.
pub proof fn lemma_failures_accumulate(order: Seq<BackendKind>, probes: Seq<Probe>)
    requires
        probes.len() <= order.len(),
        all_unavailable(probes, probes.len() as int),
    ensures
        SelectionView::start(order).record_all(probes) == (SelectionView {
            order,
            tried: probes.len(),
            chosen: None,
            log: failures(probes, probes.len() as int),
        }),
    decreases probes.len(),
{
    let end = SelectionView::start(order).record_all(probes);
    if probes.len() == 0 {
        assert(end.log =~= failures(probes, 0));
    } else {
        let before = probes.drop_last();
        assert(all_unavailable(before, before.len() as int)) by {
            assert forall|j: int| 0 <= j < before.len() implies #[trigger] before[j] is Unavailable by {
                assert(before[j] == probes[j]);
            }
        }
        lemma_failures_accumulate(order, before);
        assert(probes.last() == probes[probes.len() - 1]);
        assert(end.log =~= failures(probes, probes.len() as int)) by {
            assert forall|j: int| 0 <= j < probes.len() implies end.log[j] == failures(
                probes,
                probes.len() as int,
            )[j] by {
                if j < before.len() {
                    assert(before[j] == probes[j]);
                }
            }
        }
    }
}

/// The first candidate that is ready becomes the allocator of the session: the
/// candidates before it are in the log, the candidates after it are never
/// asked, and whatever is reported later changes nothing.
pub proof fn lemma_first_ready_wins(order: Seq<BackendKind>, probes: Seq<Probe>, k: int)
    requires
        0 <= k < probes.len(),
        k < order.len(),
        probes[k] is Ready,
        all_unavailable(probes, k),
    ensures
        ({
            let end = SelectionView::start(order).record_all(probes);
            &&& end.chosen == Some(probes[k]->Ready_0)
            &&& end.tried == k + 1
            &&& end.log == failures(probes, k)
            &&& end.next() is None
            &&& end.result() == Ok::<Allocator, Error>(probes[k]->Ready_0)
        }),
    decreases probes.len(),
{
    let before = probes.drop_last();
    let end = SelectionView::start(order).record_all(probes);
    if probes.len() - 1 == k {
        assert(all_unavailable(before, before.len() as int)) by {
            assert forall|j: int| 0 <= j < before.len() implies #[trigger] before[j] is Unavailable by {
                assert(before[j] == probes[j]);
            }
        }
        lemma_failures_accumulate(order, before);
        assert(end.log =~= failures(probes, k)) by {
            assert forall|j: int| 0 <= j < k implies end.log[j] == failures(probes, k)[j] by {
                assert(before[j] == probes[j]);
            }
        }
    } else {
        assert(before[k] == probes[k]);
        assert(all_unavailable(before, k)) by {
            assert forall|j: int| 0 <= j < k && j < before.len() implies #[trigger] before[j] is Unavailable by {
                assert(before[j] == probes[j]);
            }
        }
        lemma_first_ready_wins(order, before, k);
        assert(end.log =~= failures(probes, k)) by {
            assert forall|j: int| 0 <= j < k implies failures(before, k)[j] == failures(
                probes,
                k,
            )[j] by {
                assert(before[j] == probes[j]);
            }
        }
    }
}

/// When every candidate has reported a failure, the session has no allocator:
/// its construction fails, with one log entry for each candidate.
pub proof fn lemma_all_failed_is_fatal(order: Seq<BackendKind>, probes: Seq<Probe>)
    requires
        probes.len() == order.len(),
        all_unavailable(probes, probes.len() as int),
    ensures
        ({
            let end = SelectionView::start(order).record_all(probes);
            &&& end.chosen is None
            &&& end.next() is None
            &&& end.log == failures(probes, order.len() as int)
            &&& end.result() == Err::<Allocator, Error>(Error::NoBackendAvailable)
            &&& Error::NoBackendAvailable.spec_is_fatal()
        }),
{
    lemma_failures_accumulate(order, probes);
}

/// A selection is well formed from its start and stays so whatever is reported.
pub proof fn lemma_selection_wf(selection: SelectionView, probe: Probe)
    requires
        selection.wf(),
    ensures
        SelectionView::start(selection.order).wf(),
        selection.record(probe).wf(),
        selection.record(probe).order == selection.order,
        selection.chosen is Some ==> selection.record(probe) == selection,
{
}

} // verus!
