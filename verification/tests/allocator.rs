use cosmic_comp::allocator::{
    find_device, try_gbm_allocator, try_vulkan_allocator, Allocator, AllocatorSelection,
    BackendKind, DeviceFd, DrmNode, NodeQuery, NodeType, PhysicalDevice, Probe, ProbeFailure,
    Severity, VulkanProbe,
};
use cosmic_comp::error::Error;

fn node(dev: u64) -> DrmNode {
    DrmNode { dev, ty: NodeType::Render }
}

fn device(id: u64, ext: bool, primary: NodeQuery, render: NodeQuery) -> PhysicalDevice {
    PhysicalDevice { id, has_drm_extension: ext, primary_node: primary, render_node: render }
}

#[test]
fn hardware_fails_and_fallback_is_adopted() {
    let mut selection = AllocatorSelection::new(AllocatorSelection::default_order());
    assert_eq!(selection.next_candidate(), Some(BackendKind::Vulkan));
    selection.record(try_vulkan_allocator(&VulkanProbe::InstanceFailed, node(226)));
    assert_eq!(selection.next_candidate(), Some(BackendKind::Gbm));
    selection.record(try_gbm_allocator(Some(DeviceFd { fd: 7 })));
    assert_eq!(selection.next_candidate(), None);
    assert_eq!(selection.log().len(), 1);
    let severity = selection.log()[0].severity();
    assert!(severity == Severity::Debug || severity == Severity::Warn);
    assert_eq!(selection.finish(), Ok(Allocator::Gbm(DeviceFd { fd: 7 })));
}

#[test]
fn every_backend_fails_and_the_session_cannot_start() {
    let mut selection = AllocatorSelection::new(AllocatorSelection::default_order());
    selection.record(try_vulkan_allocator(&VulkanProbe::EnumerationFailed, node(226)));
    selection.record(try_gbm_allocator(None));
    assert_eq!(selection.next_candidate(), None);
    assert_eq!(selection.chosen(), None);
    assert_eq!(
        selection.log().clone(),
        vec![ProbeFailure::NoDevices, ProbeFailure::GbmDeviceFailed]
    );
    let result = selection.finish();
    assert_eq!(result, Err(Error::NoBackendAvailable));
    assert!(Error::NoBackendAvailable.is_fatal());
    assert_eq!(Error::NoBackendAvailable.message(), "Failed to create allocator for x11");
}

#[test]
fn the_first_ready_backend_is_never_revisited() {
    let wanted = node(128);
    let devices = vec![device(0, true, NodeQuery::Known(wanted), NodeQuery::Absent)];
    let mut selection = AllocatorSelection::new(AllocatorSelection::default_order());
    selection.record(try_vulkan_allocator(&VulkanProbe::Devices(devices.clone()), wanted));
    assert_eq!(selection.next_candidate(), None);
    selection.record(try_gbm_allocator(Some(DeviceFd { fd: 3 })));
    selection.record(try_gbm_allocator(None));
    assert!(selection.log().is_empty());
    assert_eq!(selection.finish(), Ok(Allocator::Vulkan(devices[0])));
}

#[test]
fn an_empty_preference_has_no_backend() {
    let mut selection = AllocatorSelection::new(Vec::new());
    assert_eq!(selection.next_candidate(), None);
    selection.record(try_gbm_allocator(Some(DeviceFd { fd: 3 })));
    assert_eq!(selection.finish(), Err(Error::NoBackendAvailable));
}

#[test]
fn a_configured_order_is_followed() {
    let mut selection = AllocatorSelection::new(vec![BackendKind::Gbm, BackendKind::Vulkan]);
    assert_eq!(selection.next_candidate(), Some(BackendKind::Gbm));
    selection.record(try_gbm_allocator(None));
    assert_eq!(selection.next_candidate(), Some(BackendKind::Vulkan));
    assert_eq!(selection.log()[0].severity(), Severity::Error);
    assert_eq!(selection.log()[0].backend(), BackendKind::Gbm);
}

#[test]
fn the_first_device_on_the_node_is_found() {
    let wanted = node(128);
    let other = node(129);
    let devices = vec![
        device(0, false, NodeQuery::Known(wanted), NodeQuery::Known(wanted)),
        device(1, true, NodeQuery::Known(other), NodeQuery::Absent),
        device(2, true, NodeQuery::Absent, NodeQuery::Known(wanted)),
        device(3, true, NodeQuery::Known(wanted), NodeQuery::Failed),
    ];
    assert_eq!(find_device(&devices, wanted), Ok(devices[2]));
    assert_eq!(
        try_vulkan_allocator(&VulkanProbe::Devices(devices.clone()), wanted),
        Probe::Ready(Allocator::Vulkan(devices[2]))
    );
    assert_eq!(find_device(&devices, node(1)), Err(ProbeFailure::DeviceQueryFailed));
}

#[test]
fn a_node_type_is_part_of_the_node() {
    let render = DrmNode { dev: 5, ty: NodeType::Render };
    let primary = DrmNode { dev: 5, ty: NodeType::Primary };
    let devices = vec![device(0, true, NodeQuery::Known(primary), NodeQuery::Absent)];
    assert_eq!(find_device(&devices, render), Err(ProbeFailure::NoDeviceForNode));
    assert_eq!(find_device(&devices, primary), Ok(devices[0]));
}

#[test]
fn a_failed_query_ends_the_search_only_when_it_is_reached() {
    let wanted = node(128);
    let failing = device(0, true, NodeQuery::Failed, NodeQuery::Known(wanted));
    let good = device(1, true, NodeQuery::Known(wanted), NodeQuery::Absent);
    assert_eq!(find_device(&vec![failing, good], wanted), Err(ProbeFailure::DeviceQueryFailed));
    assert_eq!(find_device(&vec![good, failing], wanted), Ok(good));
    let unasked = device(2, false, NodeQuery::Failed, NodeQuery::Failed);
    assert_eq!(find_device(&vec![unasked, good], wanted), Ok(good));
    let render_unasked = device(3, true, NodeQuery::Known(wanted), NodeQuery::Failed);
    assert_eq!(find_device(&vec![render_unasked], wanted), Ok(render_unasked));
}

#[test]
fn the_reasons_are_logged_at_their_levels() {
    assert_eq!(
        try_vulkan_allocator(&VulkanProbe::InstanceFailed, node(1)),
        Probe::Unavailable(ProbeFailure::InstanceFailed)
    );
    assert_eq!(
        try_vulkan_allocator(&VulkanProbe::EnumerationFailed, node(1)),
        Probe::Unavailable(ProbeFailure::NoDevices)
    );
    assert_eq!(
        try_vulkan_allocator(&VulkanProbe::Devices(Vec::new()), node(1)),
        Probe::Unavailable(ProbeFailure::NoDeviceForNode)
    );
    assert_eq!(ProbeFailure::InstanceFailed.severity(), Severity::Warn);
    assert_eq!(ProbeFailure::NoDevices.severity(), Severity::Debug);
    assert_eq!(ProbeFailure::NoDeviceForNode.severity(), Severity::Debug);
    assert_eq!(ProbeFailure::DeviceQueryFailed.severity(), Severity::Warn);
    assert_eq!(ProbeFailure::GbmDeviceFailed.severity(), Severity::Error);
    assert_eq!(ProbeFailure::NoDevices.message(), "No vulkan devices, falling back to gbm.");
    assert_eq!(ProbeFailure::GbmDeviceFailed.message(), "Failed to create GBM device.");
    assert_eq!(ProbeFailure::NoDevices.backend(), BackendKind::Vulkan);
    assert_eq!(Allocator::Gbm(DeviceFd { fd: 1 }).kind(), BackendKind::Gbm);
}
