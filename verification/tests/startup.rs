use phantun_client_mac::error::{contextual_error, Error, ErrorKind};
use phantun_client_mac::net::{append_ip, IpAddr, SocketAddr, SocketAddrV4, SocketAddrV6};
use phantun_client_mac::startup::{
    discover_local_ipv4, discover_local_ipv6, forwarder_config, local_addresses, LocalAddresses,
};

fn v4(ip: u32, port: u16) -> SocketAddr {
    SocketAddr::V4(SocketAddrV4 { ip, port })
}

fn v6(ip: u128, port: u16) -> SocketAddr {
    SocketAddr::V6(SocketAddrV6 {
        ip,
        port,
        flowinfo: 3,
        scope_id: 4,
    })
}

fn written(ip: IpAddr) -> String {
    let mut text = String::new();
    append_ip(&mut text, ip);
    text
}

#[test]
fn only_the_family_of_the_server_is_looked_for() {
    assert_eq!(
        local_addresses(v4(1, 2), Ok(v4(9, 8))),
        Ok(LocalAddresses { ipv4: 9, ipv6: None })
    );
    let SocketAddr::V6(local) = v6(9, 8) else {
        panic!("an IPv6 endpoint")
    };
    assert_eq!(
        local_addresses(v6(1, 2), Ok(v6(9, 8))),
        Ok(LocalAddresses { ipv4: 0, ipv6: Some(local) })
    );
    let unavailable = local_addresses(v4(1, 2), Ok(v6(9, 8))).expect_err("wrong family");
    assert_eq!(unavailable.kind, ErrorKind::AddrNotAvailable);
    assert_eq!(unavailable.message, "no IPv4 address available");
    let unavailable = local_addresses(v6(1, 2), Ok(v4(9, 8))).expect_err("wrong family");
    assert_eq!(unavailable.kind, ErrorKind::AddrNotAvailable);
    assert_eq!(unavailable.message, "no IPv6 address available");
    let broken = Error::new(ErrorKind::Os(51), "Network is unreachable");
    assert_eq!(local_addresses(v4(1, 2), Err(broken.clone())), Err(broken));
}

#[test]
fn discovery_asks_for_the_right_family() {
    assert_eq!(discover_local_ipv4(Ok(v4(9, 8))), Ok(9));
    assert_eq!(
        discover_local_ipv4(Ok(v6(9, 8))),
        Err(Error::new(ErrorKind::AddrNotAvailable, "no IPv4 address available"))
    );
    assert_eq!(
        discover_local_ipv6(v4(1, 2), Ok(v6(9, 8))),
        Err(Error::new(
            ErrorKind::InvalidInput,
            "IPv6 source discovery requires an IPv6 remote"
        ))
    );
    assert_eq!(discover_local_ipv6(v6(1, 2), Ok(v6(9, 8))).map(|found| found.ip), Ok(9));
}

#[test]
fn the_forwarder_gets_the_addresses_of_the_family() {
    let SocketAddr::V6(local) = v6(9, 8) else {
        panic!("an IPv6 endpoint")
    };
    let config = forwarder_config(v6(1, 2), LocalAddresses { ipv4: 0, ipv6: Some(local) }, 12);
    assert_eq!(config.remote_addr, v6(1, 2));
    assert_eq!(config.fake_tcp_local_ipv4, 0);
    assert_eq!(config.fake_tcp_local_ipv6, Some(9));
    assert_eq!(config.worker_count, 12);
    assert_eq!(config.udp_ttl_millis, 180_000);
}

#[test]
fn a_context_goes_before_the_message() {
    let told = contextual_error("BIOCSETIF", Error::new(ErrorKind::Os(6), "Device not configured"));
    assert_eq!(told.kind, ErrorKind::Os(6));
    assert_eq!(told.message, "BIOCSETIF: Device not configured");
}

#[test]
fn addresses_are_written_in_the_usual_form() {
    assert_eq!(written(IpAddr::V4(0xcb00_7114)), "203.0.113.20");
    assert_eq!(written(IpAddr::V4(0)), "0.0.0.0");
    assert_eq!(written(IpAddr::V6(0)), "::");
    assert_eq!(written(IpAddr::V6(1)), "::1");
    assert_eq!(
        written(IpAddr::V6(0x2001_0db8_0000_0000_0000_0000_0000_0020)),
        "2001:db8::20"
    );
    assert_eq!(
        written(IpAddr::V6(0x2001_0db8_0000_0001_0000_0000_0000_0001)),
        "2001:db8:0:1::1"
    );
    assert_eq!(
        written(IpAddr::V6(0x0001_0000_0000_0002_0000_0000_0003_0004)),
        "1::2:0:0:3:4"
    );
    assert_eq!(
        written(IpAddr::V6(0x0001_0000_0002_0003_0004_0005_0006_0007)),
        "1:0:2:3:4:5:6:7"
    );
    assert_eq!(
        written(IpAddr::V6(0xffff_c000_020a)),
        "::ffff:192.0.2.10"
    );
    assert_eq!(written(IpAddr::V6(0xfe80 << 112)), "fe80::");
}
