use monomouse::clipboard::ClipboardTracker;
use monomouse::discovery::{DiscoveredHost, DiscoveryTable, ServiceEvent, SERVICE_TYPE};
use monomouse::machine::IpAddress;
use monomouse::platform::{
    create_capturer, create_injector, monitor_detector, CaptureBackend, DetectBackend, InjectBackend, InputError,
    Platform,
};

fn resolved(full: &str, host: &str, port: u16, addrs: Vec<IpAddress>, role: Option<&str>) -> ServiceEvent {
    ServiceEvent::Resolved {
        fullname: full.to_string(),
        hostname: host.to_string(),
        port,
        addresses: addrs,
        role: role.map(|r| r.to_string()),
    }
}

fn summary(h: &DiscoveredHost) -> (String, IpAddress, u16, bool) {
    (h.name.clone(), h.addr, h.port, h.is_server)
}

#[test]
fn resolved_services_enter_the_table() {
    assert_eq!(SERVICE_TYPE, "_monomouse._tcp.local.");
    let mut t = DiscoveryTable::new();
    assert!(t.get_discovered().is_empty());
    assert!(t.find_server().is_none());
    t.apply(resolved("a._monomouse._tcp.local.", "a.local.", 24800, vec![IpAddress::V4(0x0a000001)], Some("client")));
    t.apply(resolved(
        "b._monomouse._tcp.local.",
        "b.local.",
        24801,
        vec![IpAddress::V4(0x0a000002), IpAddress::V4(0x0a000003)],
        Some("server"),
    ));
    let hosts = t.get_discovered();
    assert_eq!(hosts.len(), 2);
    assert_eq!(summary(&hosts[0]), ("a.local.".to_string(), IpAddress::V4(0x0a000001), 24800, false));
    assert_eq!(summary(&hosts[1]), ("b.local.".to_string(), IpAddress::V4(0x0a000002), 24801, true));
    assert_eq!(summary(&t.find_server().unwrap()), summary(&hosts[1]));
}

#[test]
fn services_without_address_or_role_are_handled() {
    let mut t = DiscoveryTable::new();
    t.apply(resolved("x", "x.local.", 1, vec![], Some("server")));
    assert!(t.get_discovered().is_empty());
    t.apply(resolved("y", "y.local.", 2, vec![IpAddress::V6(1)], None));
    assert!(!t.get_discovered()[0].is_server);
    t.apply(resolved("z", "z.local.", 3, vec![IpAddress::V6(2)], Some("Server")));
    assert!(t.find_server().is_none());
    t.apply(ServiceEvent::Other);
    assert_eq!(t.get_discovered().len(), 2);
}

#[test]
fn a_service_resolved_again_is_replaced_in_place() {
    let mut t = DiscoveryTable::new();
    t.apply(resolved("a", "a.local.", 1, vec![IpAddress::V4(1)], None));
    t.apply(resolved("b", "b.local.", 2, vec![IpAddress::V4(2)], None));
    t.apply(resolved("a", "a2.local.", 3, vec![IpAddress::V4(3)], Some("server")));
    let hosts = t.get_discovered();
    assert_eq!(hosts.len(), 2);
    assert_eq!(summary(&hosts[0]), ("a2.local.".to_string(), IpAddress::V4(3), 3, true));
    assert_eq!(hosts[1].name, "b.local.");
}

#[test]
fn removed_services_leave_the_table() {
    let mut t = DiscoveryTable::new();
    t.apply(resolved("a", "a.local.", 1, vec![IpAddress::V4(1)], Some("server")));
    t.apply(resolved("b", "b.local.", 2, vec![IpAddress::V4(2)], Some("server")));
    t.apply(ServiceEvent::Removed { fullname: "a".to_string() });
    let hosts = t.get_discovered();
    assert_eq!(hosts.len(), 1);
    assert_eq!(t.find_server().unwrap().name, "b.local.");
    t.apply(ServiceEvent::Removed { fullname: "nothing".to_string() });
    assert_eq!(t.get_discovered().len(), 1);
    t.remove(&"b".to_string());
    assert!(t.get_discovered().is_empty());
}

#[test]
fn clipboard_changes_are_reported_once() {
    let mut c = ClipboardTracker::new();
    assert_eq!(c.last_content(), "");
    assert_eq!(c.poll_changes(Some(String::new())), None);
    assert_eq!(c.poll_changes(Some("hello".to_string())), Some("hello".to_string()));
    assert_eq!(c.poll_changes(Some("hello".to_string())), None);
    assert_eq!(c.poll_changes(None), None);
    assert_eq!(c.last_content(), "hello");
}

#[test]
fn text_we_set_is_not_reported_back() {
    let mut c = ClipboardTracker::new();
    c.record_set("from the server");
    assert_eq!(c.poll_changes(Some("from the server".to_string())), None);
    assert_eq!(c.poll_changes(Some("typed locally".to_string())), Some("typed locally".to_string()));
}

#[test]
fn platforms_get_their_backends() {
    assert_eq!(create_capturer(Platform::Linux), Ok(CaptureBackend::Evdev));
    assert_eq!(create_capturer(Platform::Windows), Ok(CaptureBackend::WindowsHooks));
    assert_eq!(create_capturer(Platform::Other), Err(InputError::UnsupportedPlatform));
    assert_eq!(create_injector(Platform::Linux), Ok(InjectBackend::Uinput));
    assert_eq!(create_injector(Platform::Windows), Ok(InjectBackend::WindowsSendInput));
    assert_eq!(create_injector(Platform::Other), Err(InputError::UnsupportedPlatform));
    assert_eq!(monitor_detector(Platform::Linux), Ok(DetectBackend::RandrTools));
    assert_eq!(monitor_detector(Platform::Windows), Ok(DetectBackend::WindowsDisplays));
    assert_eq!(monitor_detector(Platform::Other), Err(InputError::UnsupportedPlatform));
}
