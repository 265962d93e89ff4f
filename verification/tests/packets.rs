use phantun_client_mac::capture::{bpf_word_align, BpfCapture, ReadStep, BPF_HEADER_MIN_SIZE};
use phantun_client_mac::error::{Error, ErrorKind};
use phantun_client_mac::frame::{
    ethernet_network_packet, is_expected_remote_packet, normalize_ip_packet,
    packet_from_link_frame, packet_source, LinkType,
};
use phantun_client_mac::net::{SocketAddr, SocketAddrV4, SocketAddrV6};
use phantun_client_mac::sender::{
    ipv6_tcp_payload, macos_raw_ipv4_packet, raw_destination_v4, raw_destination_v6, sockaddr_v4,
    sockaddr_v6, RawPacketSender,
};
use pnet_packet::ip::IpNextHeaderProtocols;
use pnet_packet::ipv4::{Ipv4Flags, MutableIpv4Packet};
use pnet_packet::ipv6::MutableIpv6Packet;
use pnet_packet::tcp::{MutableTcpPacket, TcpFlags, TcpOption};

fn v4(ip: u32, port: u16) -> SocketAddr {
    SocketAddr::V4(SocketAddrV4 { ip, port })
}

fn v6(ip: u128, port: u16) -> SocketAddr {
    SocketAddr::V6(SocketAddrV6 {
        ip,
        port,
        flowinfo: 0,
        scope_id: 0,
    })
}

/// 203.0.113.20:65009
fn remote() -> SocketAddr {
    v4(0xcb00_7114, 65009)
}

/// 198.51.100.10:40000
fn local() -> SocketAddr {
    v4(0xc633_640a, 40000)
}

fn build_tcp_packet(
    from: SocketAddr,
    to: SocketAddr,
    sequence: u32,
    acknowledgement: u32,
    flags: u8,
    payload: Option<&[u8]>,
) -> Vec<u8> {
    let scaled = flags & TcpFlags::SYN != 0;
    let header_len: usize = if scaled { 24 } else { 20 };
    let tcp_len = header_len + payload.map_or(0, |bytes| bytes.len());
    let ip_len: usize = if from.is_ipv4() { 20 } else { 40 };
    let mut packet = vec![0_u8; ip_len + tcp_len];
    {
        let mut tcp = MutableTcpPacket::new(&mut packet[ip_len..]).expect("room for TCP");
        tcp.set_window(0xffff);
        tcp.set_source(from.port());
        tcp.set_destination(to.port());
        tcp.set_sequence(sequence);
        tcp.set_acknowledgement(acknowledgement);
        tcp.set_flags(flags);
        tcp.set_data_offset((header_len / 4) as u8);
        if scaled {
            tcp.set_options(&[TcpOption::nop(), TcpOption::wscale(14)]);
        }
        if let Some(bytes) = payload {
            tcp.set_payload(bytes);
        }
        let checksum = match (from, to) {
            (SocketAddr::V4(from), SocketAddr::V4(to)) => pnet_packet::tcp::ipv4_checksum(
                &tcp.to_immutable(),
                &from.ip.into(),
                &to.ip.into(),
            ),
            (SocketAddr::V6(from), SocketAddr::V6(to)) => pnet_packet::tcp::ipv6_checksum(
                &tcp.to_immutable(),
                &from.ip.into(),
                &to.ip.into(),
            ),
            _ => panic!("one family"),
        };
        tcp.set_checksum(checksum);
    }
    match (from, to) {
        (SocketAddr::V4(from), SocketAddr::V4(to)) => {
            let total = packet.len() as u16;
            let mut ip = MutableIpv4Packet::new(&mut packet).expect("room for IPv4");
            ip.set_version(4);
            ip.set_header_length(5);
            ip.set_next_level_protocol(IpNextHeaderProtocols::Tcp);
            ip.set_ttl(64);
            ip.set_source(from.ip.into());
            ip.set_destination(to.ip.into());
            ip.set_total_length(total);
            ip.set_flags(Ipv4Flags::DontFragment);
            let checksum = pnet_packet::ipv4::checksum(&ip.to_immutable());
            ip.set_checksum(checksum);
        }
        (SocketAddr::V6(from), SocketAddr::V6(to)) => {
            let mut ip = MutableIpv6Packet::new(&mut packet).expect("room for IPv6");
            ip.set_version(6);
            ip.set_payload_length(tcp_len as u16);
            ip.set_next_header(IpNextHeaderProtocols::Tcp);
            ip.set_hop_limit(64);
            ip.set_source(from.ip.into());
            ip.set_destination(to.ip.into());
        }
        _ => panic!("one family"),
    }
    packet
}

fn raw_reply() -> Vec<u8> {
    build_tcp_packet(remote(), local(), 0, 1, TcpFlags::SYN | TcpFlags::ACK, None)
}

fn ethernet_frame(packet: &[u8]) -> Vec<u8> {
    let mut ethernet = vec![0_u8; 14];
    ethernet[12..14].copy_from_slice(&0x0800_u16.to_be_bytes());
    ethernet.extend_from_slice(packet);
    ethernet
}

fn record(frame: &[u8]) -> Vec<u8> {
    let mut bytes = vec![0_u8; BPF_HEADER_MIN_SIZE];
    bytes[8..12].copy_from_slice(&(frame.len() as u32).to_le_bytes());
    bytes[12..16].copy_from_slice(&(frame.len() as u32).to_le_bytes());
    bytes[16..18].copy_from_slice(&(BPF_HEADER_MIN_SIZE as u16).to_le_bytes());
    bytes.extend_from_slice(frame);
    bytes
}

fn padded(mut bytes: Vec<u8>) -> Vec<u8> {
    bytes.resize(bpf_word_align(bytes.len()), 0);
    bytes
}

#[test]
fn ethernet_and_vlan_frames_preserve_the_ip_packet() {
    let raw = raw_reply();
    let mut ethernet = vec![0_u8; 14];
    ethernet[12..14].copy_from_slice(&0x8100_u16.to_be_bytes());
    ethernet.extend_from_slice(&[0, 1]);
    ethernet.extend_from_slice(&0x0800_u16.to_be_bytes());
    ethernet.extend_from_slice(&raw);

    assert_eq!(
        packet_from_link_frame(LinkType::Ethernet, &ethernet),
        Some(raw.as_ref())
    );
}

#[test]
fn bpf_records_only_return_the_configured_remote() {
    let raw = raw_reply();
    let mut ethernet = vec![0_u8; 14];
    ethernet[12..14].copy_from_slice(&0x0800_u16.to_be_bytes());
    ethernet.extend_from_slice(&raw);

    let header_len = BPF_HEADER_MIN_SIZE;
    assert_eq!(
        header_len, 18,
        "Darwin BPF records use an 18-byte base header"
    );
    let mut records = vec![0_u8; header_len];
    records[8..12].copy_from_slice(&(ethernet.len() as u32).to_ne_bytes());
    records[12..16].copy_from_slice(&(ethernet.len() as u32).to_ne_bytes());
    records[16..18].copy_from_slice(&(header_len as u16).to_ne_bytes());
    records.extend_from_slice(&ethernet);
    records.resize(bpf_word_align(records.len()), 0);

    assert_eq!(
        BpfCapture::decode_records(&records, LinkType::Ethernet, remote())
            .expect("valid BPF record"),
        vec![raw.to_vec()]
    );
}

#[test]
fn final_unpadded_bpf_record_is_accepted() {
    let raw = build_tcp_packet(remote(), local(), 1, 1, TcpFlags::ACK, Some(b"x"));
    let mut ethernet = vec![0_u8; 14];
    ethernet[12..14].copy_from_slice(&0x0800_u16.to_be_bytes());
    ethernet.extend_from_slice(&raw);

    let mut records = vec![0_u8; BPF_HEADER_MIN_SIZE];
    records[8..12].copy_from_slice(&(ethernet.len() as u32).to_ne_bytes());
    records[12..16].copy_from_slice(&(ethernet.len() as u32).to_ne_bytes());
    records[16..18].copy_from_slice(&(BPF_HEADER_MIN_SIZE as u16).to_ne_bytes());
    records.extend_from_slice(&ethernet);
    assert_ne!(
        records.len() % 4,
        0,
        "record deliberately has no tail padding"
    );

    assert_eq!(
        BpfCapture::decode_records(&records, LinkType::Ethernet, remote())
            .expect("final unpadded record is valid"),
        vec![raw.to_vec()]
    );
}

#[test]
fn only_the_configured_remote_packet_is_accepted() {
    let raw = raw_reply();
    let unexpected = build_tcp_packet(
        v4(0xcb00_7115, 65009),
        local(),
        0,
        1,
        TcpFlags::SYN | TcpFlags::ACK,
        None,
    );
    assert!(is_expected_remote_packet(&raw, remote()));
    assert!(!is_expected_remote_packet(&unexpected, remote()));
}

#[test]
fn ipv6_raw_socket_only_receives_the_tcp_payload() {
    let packet = build_tcp_packet(
        v6(0x2001_0db8_0000_0000_0000_0000_0000_0010, 40000),
        v6(0x2001_0db8_0000_0000_0000_0000_0000_0020, 65009),
        1,
        2,
        TcpFlags::ACK,
        Some(b"payload"),
    );
    assert_eq!(
        ipv6_tcp_payload(&packet).expect("valid IPv6 packet"),
        &packet[40..]
    );
}

#[test]
fn raw_ipv4_packet_uses_darwin_host_order_length() {
    let packet = build_tcp_packet(
        v4(0xc000_020a, 40000),
        remote(),
        0,
        0,
        TcpFlags::SYN,
        None,
    );

    let prepared = macos_raw_ipv4_packet(&packet).expect("valid IPv4 packet");

    assert_eq!(
        u16::from_ne_bytes(prepared[2..4].try_into().expect("fixed length")),
        packet.len() as u16
    );
    assert_eq!(
        u16::from_ne_bytes(prepared[6..8].try_into().expect("fixed length")),
        u16::from_be_bytes(packet[6..8].try_into().expect("fixed length"))
    );
    assert_eq!(&prepared[4..6], &packet[4..6]);
    assert_eq!(&prepared[8..], &packet[8..]);
}

#[test]
fn every_link_type_gives_the_packet() {
    let raw = raw_reply();
    let mut padded_frame = raw.clone();
    padded_frame.extend_from_slice(&[0; 7]);
    assert_eq!(
        packet_from_link_frame(LinkType::Raw, &padded_frame),
        Some(raw.as_slice())
    );
    for family in [2_u32, 30] {
        let mut loopback = family.to_le_bytes().to_vec();
        loopback.extend_from_slice(&raw);
        assert_eq!(
            packet_from_link_frame(LinkType::Null, &loopback),
            Some(raw.as_slice())
        );
    }
    let mut other = 18_u32.to_le_bytes().to_vec();
    other.extend_from_slice(&raw);
    assert_eq!(packet_from_link_frame(LinkType::Null, &other), None);
    assert_eq!(packet_from_link_frame(LinkType::Null, &[2, 0, 0]), None);
}

#[test]
fn stacked_tags_are_followed_and_cut_off_ones_refused() {
    let mut frame = vec![0_u8; 12];
    frame.extend_from_slice(&[0x88, 0xa8, 0, 1, 0x91, 0x00, 0, 2, 0x86, 0xdd, 7, 8, 9]);
    assert_eq!(ethernet_network_packet(&frame), Some(&[7_u8, 8, 9][..]));
    assert_eq!(ethernet_network_packet(&frame[..17]), None);
    assert_eq!(ethernet_network_packet(&frame[..13]), None);
    let mut arp = vec![0_u8; 12];
    arp.extend_from_slice(&[0x08, 0x06, 1]);
    assert_eq!(ethernet_network_packet(&arp), None);
}

#[test]
fn packets_are_cut_to_their_length_and_checked() {
    let raw = raw_reply();
    assert_eq!(normalize_ip_packet(&raw), Some(raw.as_slice()));
    assert_eq!(normalize_ip_packet(&raw[..39]), None);
    assert_eq!(normalize_ip_packet(&[]), None);
    let mut udp = raw.clone();
    udp[9] = 17;
    assert_eq!(normalize_ip_packet(&udp), None);
    let mut options = raw.clone();
    options[0] = 0x46;
    assert_eq!(normalize_ip_packet(&options), None);
    let mut fragment = raw.clone();
    fragment[7] = 1;
    assert_eq!(normalize_ip_packet(&fragment), None);
    let mut long = raw.clone();
    long[3] = 200;
    assert_eq!(normalize_ip_packet(&long), None);
    let six = build_tcp_packet(v6(1, 2), v6(3, 4), 0, 0, TcpFlags::ACK, Some(b"ab"));
    let mut tail = six.clone();
    tail.push(0);
    assert_eq!(normalize_ip_packet(&tail), Some(six.as_slice()));
    assert_eq!(normalize_ip_packet(&six[..61]), None);
}

#[test]
fn the_source_is_read_from_both_families() {
    assert_eq!(packet_source(&raw_reply()), Some(remote()));
    let six = build_tcp_packet(v6(1, 2), v6(3, 4), 0, 0, TcpFlags::ACK, None);
    assert_eq!(packet_source(&six), Some(v6(1, 2)));
    assert!(is_expected_remote_packet(&six, v6(1, 2)));
    let scoped = SocketAddr::V6(SocketAddrV6 {
        ip: 1,
        port: 2,
        flowinfo: 0,
        scope_id: 5,
    });
    assert!(!is_expected_remote_packet(&six, scoped));
    assert!(!is_expected_remote_packet(&[], remote()));
}

#[test]
fn several_records_are_decoded_in_order() {
    let first = build_tcp_packet(remote(), local(), 1, 1, TcpFlags::ACK, Some(b"one"));
    let foreign = build_tcp_packet(local(), remote(), 1, 1, TcpFlags::ACK, Some(b"two"));
    let second = build_tcp_packet(remote(), local(), 2, 1, TcpFlags::ACK, Some(b"three"));
    let mut records = padded(record(&ethernet_frame(&first)));
    records.extend(padded(record(&ethernet_frame(&foreign))));
    records.extend(padded(record(&ethernet_frame(&second))));
    assert_eq!(
        BpfCapture::decode_records(&records, LinkType::Ethernet, remote()),
        Ok(vec![first, second])
    );
    assert_eq!(
        BpfCapture::decode_records(&[], LinkType::Ethernet, remote()),
        Ok(vec![])
    );
}

#[test]
fn broken_records_are_refused() {
    let whole = padded(record(&ethernet_frame(&raw_reply())));
    let decode = |records: &[u8]| BpfCapture::decode_records(records, LinkType::Ethernet, remote());
    let fault = |message: &str| Err(Error::new(ErrorKind::InvalidData, message));

    assert_eq!(
        decode(&whole[..17]),
        fault("truncated macOS BPF record header")
    );
    assert_eq!(
        decode(&whole[..40]),
        fault("invalid macOS BPF record boundaries")
    );
    let mut short_header = whole.clone();
    short_header[16] = 17;
    assert_eq!(
        decode(&short_header),
        fault("invalid macOS BPF record boundaries")
    );
    let mut half_padded = record(&[0; 15]);
    half_padded.push(0);
    assert_eq!(
        decode(&half_padded),
        fault("invalid macOS BPF record alignment")
    );
}

#[test]
fn waiting_packets_come_out_in_order_and_long_ones_are_dropped() {
    let long = build_tcp_packet(remote(), local(), 1, 1, TcpFlags::ACK, Some(&[7; 100]));
    let short = build_tcp_packet(remote(), local(), 2, 1, TcpFlags::ACK, Some(b"ok"));
    let mut capture = BpfCapture::new(4096, LinkType::Ethernet, remote());
    let mut records = padded(record(&ethernet_frame(&short)));
    records.extend(padded(record(&ethernet_frame(&long))));
    records.extend(padded(record(&ethernet_frame(&short))));
    capture.take_records(&records).expect("valid records");

    let mut output = [9_u8; 50];
    assert_eq!(capture.copy_pending_packet(&mut output), Some(short.len()));
    assert_eq!(&output[..short.len()], short.as_slice());
    assert_eq!(&output[short.len()..], &[9; 8]);
    assert_eq!(capture.copy_pending_packet(&mut output), Some(short.len()));
    assert_eq!(capture.copy_pending_packet(&mut output), None);
    assert!(capture.take_records(&[0; 4]).is_err());
    assert_eq!(capture.copy_pending_packet(&mut output), None);
}

#[test]
fn the_device_is_read_only_when_nothing_waits() {
    let long = build_tcp_packet(remote(), local(), 1, 1, TcpFlags::ACK, Some(&[7; 100]));
    let short = build_tcp_packet(remote(), local(), 2, 1, TcpFlags::ACK, Some(b"ok"));
    let foreign = build_tcp_packet(local(), remote(), 3, 1, TcpFlags::ACK, Some(b"no"));
    let mut capture = BpfCapture::new(4096, LinkType::Ethernet, remote());
    let mut output = [0_u8; 50];
    let must_read = |step: ReadStep, lost: &[usize]| {
        matches!(step, ReadStep::Read { buffer_len: 4096, dropped } if dropped == lost)
    };
    let delivered = |step: ReadStep, len: usize, lost: &[usize]| {
        matches!(step, ReadStep::Deliver { size, dropped } if size == len && dropped == lost)
    };

    assert!(must_read(capture.next_packet(&mut output, None), &[]));
    assert!(must_read(capture.next_packet(&mut output, Some(Ok(None))), &[]));
    let mut records = padded(record(&ethernet_frame(&long)));
    records.extend(padded(record(&ethernet_frame(&foreign))));
    records.extend(padded(record(&ethernet_frame(&short))));
    records.extend(padded(record(&ethernet_frame(&short))));
    records.extend(padded(record(&ethernet_frame(&long))));
    assert!(delivered(
        capture.next_packet(&mut output, Some(Ok(Some(records)))),
        short.len(),
        &[long.len()]
    ));
    assert_eq!(packet_source(&output[..short.len()]), Some(remote()));
    assert!(delivered(capture.next_packet(&mut output, None), short.len(), &[]));
    assert_eq!(&output[..short.len()], short.as_slice());
    assert!(must_read(capture.next_packet(&mut output, None), &[long.len()]));
    assert!(must_read(capture.next_packet(&mut output, None), &[]));
}

#[test]
fn failures_to_read_are_passed_on_and_keep_what_waits() {
    let short = build_tcp_packet(remote(), local(), 2, 1, TcpFlags::ACK, Some(b"ok"));
    let mut capture = BpfCapture::new(4096, LinkType::Ethernet, remote());
    let records = padded(record(&ethernet_frame(&short)));
    capture.take_records(&records).expect("valid records");
    let mut output = [9_u8; 50];

    let broken = Error::new(ErrorKind::Os(6), "Device not configured");
    match capture.next_packet(&mut output, Some(Err(broken.clone()))) {
        ReadStep::Fail(error) => assert_eq!(error, broken),
        _ => panic!("the failure was passed on"),
    }
    match capture.next_packet(&mut output, Some(Ok(Some(vec![0; 4])))) {
        ReadStep::Fail(error) => assert_eq!(
            error,
            Error::new(ErrorKind::InvalidData, "truncated macOS BPF record header")
        ),
        _ => panic!("the fault was reported"),
    }
    assert_eq!(output, [9; 50]);
    assert_eq!(capture.copy_pending_packet(&mut output), Some(short.len()));
}

#[test]
fn words_are_four_bytes() {
    assert_eq!(bpf_word_align(0), 0);
    assert_eq!(bpf_word_align(1), 4);
    assert_eq!(bpf_word_align(4), 4);
    assert_eq!(bpf_word_align(5), 8);
}

#[test]
fn link_type_numbers_go_both_ways() {
    for (number, link_type) in [
        (0, LinkType::Null),
        (1, LinkType::Ethernet),
        (12, LinkType::Raw),
    ] {
        assert_eq!(LinkType::from_dlt(number), Ok(link_type));
        assert_eq!(link_type.dlt(), number);
    }
    assert_eq!(
        LinkType::from_dlt(-7),
        Err(Error::new(
            ErrorKind::Unsupported,
            "unsupported macOS BPF datalink type -7"
        ))
    );
}

#[test]
fn unsendable_packets_are_refused() {
    let fault = |message: &str| Err(Error::new(ErrorKind::InvalidData, message));
    let four = RawPacketSender::new(remote(), None).expect("an IPv4 sender");
    let six_remote = v6(3, 4);
    let SocketAddr::V6(six_local) = v6(1, 2) else {
        panic!("an IPv6 endpoint")
    };
    let six = RawPacketSender::new(six_remote, Some(six_local)).expect("an IPv6 sender");

    assert_eq!(
        four.prepare(&[]),
        fault("IPv4 raw socket received a non-IPv4 fake-TCP packet")
    );
    assert_eq!(
        four.prepare(&[0x60; 60]),
        fault("IPv4 raw socket received a non-IPv4 fake-TCP packet")
    );
    assert_eq!(
        four.prepare(&[0x45; 19]),
        fault("IPv4 fake-TCP packet is shorter than its IP header")
    );
    assert_eq!(
        four.prepare(&[0x45; 20]),
        fault("IPv4 fake-TCP packet has an invalid total length")
    );
    assert_eq!(
        six.prepare(&[0x60; 59]),
        fault("IPv6 raw socket received an invalid fake-TCP packet")
    );
    let mut short = build_tcp_packet(v6(1, 2), six_remote, 0, 0, TcpFlags::ACK, None);
    assert_eq!(six.prepare(&short), Ok(short[40..].to_vec()));
    short[5] += 1;
    assert_eq!(
        six.prepare(&short),
        fault("IPv6 fake-TCP packet has an invalid payload length")
    );
    assert_eq!(
        RawPacketSender::new(six_remote, None),
        Err(Error::new(
            ErrorKind::AddrNotAvailable,
            "no local IPv6 address is available for the configured remote"
        ))
    );
}

#[test]
fn received_packets_can_be_sent_again() {
    let raw = raw_reply();
    let sender = RawPacketSender::new(remote(), None).expect("an IPv4 sender");
    let prepared = sender.prepare(&raw).expect("a normalized packet");
    assert_eq!(prepared.len(), raw.len());
    assert_eq!([prepared[3], prepared[2]], [raw[2], raw[3]]);
    assert_eq!([prepared[7], prepared[6]], [raw[6], raw[7]]);
}

#[test]
fn a_short_write_is_an_error() {
    let four = RawPacketSender::new(remote(), None).expect("an IPv4 sender");
    let SocketAddr::V6(six_local) = v6(1, 2) else {
        panic!("an IPv6 endpoint")
    };
    let six = RawPacketSender::new(v6(3, 4), Some(six_local)).expect("an IPv6 sender");
    assert_eq!(four.finish(44, 44, Ok(44)), Ok(44));
    assert_eq!(six.finish(64, 24, Ok(24)), Ok(64));
    assert_eq!(
        four.finish(44, 44, Ok(43)),
        Err(Error::new(ErrorKind::WriteZero, "short write to raw IP socket"))
    );
    let broken = Error::new(ErrorKind::Os(55), "No buffer space available");
    assert_eq!(four.finish(44, 44, Err(broken.clone())), Err(broken));
    assert_eq!(four.socket_parameters(), (2, 255));
    assert_eq!(six.socket_parameters(), (30, 6));
}

#[test]
fn addresses_have_the_layout_of_the_system() {
    let four = SocketAddrV4 {
        ip: 0xcb00_7114,
        port: 65009,
    };
    assert_eq!(
        sockaddr_v4(four),
        vec![16, 2, 0xfd, 0xf1, 203, 0, 113, 20, 0, 0, 0, 0, 0, 0, 0, 0]
    );
    assert_eq!(
        raw_destination_v4(four),
        vec![16, 2, 0, 0, 203, 0, 113, 20, 0, 0, 0, 0, 0, 0, 0, 0]
    );
    let six = SocketAddrV6 {
        ip: 0x2001_0db8_0000_0000_0000_0000_0000_0020,
        port: 65009,
        flowinfo: 0x0102_0304,
        scope_id: 7,
    };
    let mut expected = vec![28, 30, 0xfd, 0xf1, 4, 3, 2, 1];
    expected.extend_from_slice(&[0x20, 1, 0x0d, 0xb8, 0, 0, 0, 0, 0, 0, 0, 0, 0, 0, 0, 0x20]);
    expected.extend_from_slice(&[7, 0, 0, 0]);
    assert_eq!(sockaddr_v6(six), expected);
    expected[2] = 0;
    expected[3] = 0;
    assert_eq!(raw_destination_v6(six), expected);
}
