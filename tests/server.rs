use na::ip::{get_iface_addr, interface_exists, Interface};
use na::routes::{route, Endpoint, Method};

fn iface(name: &str, addr: &str, is_ipv6: bool) -> Interface {
    Interface { name: name.to_string(), addr: addr.to_string(), is_ipv6 }
}

#[test]
fn routes_by_path_and_method() {
    assert_eq!(Endpoint::Index, route(Method::Get, "/"));
    assert_eq!(Endpoint::Index, route(Method::Get, "/index.html"));
    assert_eq!(Endpoint::Upload, route(Method::Post, "/"));
    assert_eq!(Endpoint::Download, route(Method::Get, "/files/a b.txt"));
    assert_eq!(Endpoint::Delete, route(Method::Delete, "/files/a"));
    assert_eq!(Endpoint::Resource, route(Method::Get, "/resource/style.css"));
    assert_eq!(Endpoint::Json, route(Method::Get, "/json"));
    assert_eq!(Endpoint::List, route(Method::Get, "/list"));
}

#[test]
fn unknown_paths_and_methods() {
    assert_eq!(Endpoint::NotFound, route(Method::Get, "/files/"));
    assert_eq!(Endpoint::NotFound, route(Method::Get, "/files/a/b"));
    assert_eq!(Endpoint::NotFound, route(Method::Get, "/other"));
    assert_eq!(Endpoint::NotFound, route(Method::Get, ""));
    assert_eq!(Endpoint::MethodNotAllowed, route(Method::Delete, "/"));
    assert_eq!(Endpoint::MethodNotAllowed, route(Method::Post, "/files/a"));
    assert_eq!(Endpoint::MethodNotAllowed, route(Method::Post, "/json"));
    assert_eq!(Endpoint::MethodNotAllowed, route(Method::Other, "/resource/x"));
}

#[test]
fn interfaces_exist_by_name() {
    let ifaces = vec![iface("eth0", "10.0.0.2", false), iface("wlo0", "fe80::1", true)];
    assert!(interface_exists("localhost", &ifaces));
    assert!(interface_exists("wlo0", &ifaces));
    assert!(!interface_exists("eth1", &ifaces));
    assert!(interface_exists("localhost", &vec![]));
}

#[test]
fn interface_addresses_by_family() {
    let ifaces = vec![
        iface("eth0", "fe80::2", true),
        iface("eth0", "10.0.0.2", false),
        iface("eth0", "10.0.0.3", false),
    ];
    assert_eq!(Ok("127.0.0.1".to_string()), get_iface_addr("localhost", false, &ifaces));
    assert_eq!(Ok("::1".to_string()), get_iface_addr("localhost", true, &ifaces));
    assert_eq!(Ok("10.0.0.2".to_string()), get_iface_addr("eth0", false, &ifaces));
    assert_eq!(Ok("fe80::2".to_string()), get_iface_addr("eth0", true, &ifaces));
    assert_eq!(
        Err("Could not find a valid address for interface wlo0".to_string()),
        get_iface_addr("wlo0", false, &ifaces)
    );
}
