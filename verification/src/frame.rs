//! From a captured link-layer frame to the TCP/IP packet inside it.

use vstd::prelude::*;
use vstd::slice::slice_subrange;

use crate::error::{Error, ErrorKind, ErrorView};
use crate::net::{IpAddr, SocketAddr};
use crate::text::{append_integer, integer_text};
use crate::wire::{
    be128, be16, be32, big_endian, host32, network_fields_are_big_endian, read_be128, read_be16,
    read_be32, read_host32,
};

verus! {

/// Darwin's address family number of IPv4.
pub const AF_INET: u32 = 2;

/// Darwin's address family number of IPv6.
pub const AF_INET6: u32 = 30;

/// The protocol number of TCP.
pub const IPPROTO_TCP: u8 = 6;

/// The EtherType of IPv4.
pub const ETHERTYPE_IPV4: u16 = 0x0800;

/// The EtherType of IPv6.
pub const ETHERTYPE_IPV6: u16 = 0x86dd;

/// Whether the EtherType announces a VLAN tag.
pub open spec fn is_vlan(ether_type: int) -> bool {
    ether_type == 0x8100 || ether_type == 0x88a8 || ether_type == 0x9100
}

/// Where the network packet of an Ethernet frame starts, when its EtherType is
/// the one at `type_at` or follows the VLAN tags that start there; nothing when
/// the frame ends too early or carries something other than IP.
pub open spec fn network_start(frame: Seq<u8>, type_at: int) -> Option<int>
    decreases frame.len() + 4 - type_at,
{
    if type_at < 0 || type_at + 2 > frame.len() {
        None
    } else if is_vlan(be16(frame, type_at)) {
        network_start(frame, type_at + 4)
    } else if be16(frame, type_at) == ETHERTYPE_IPV4 || be16(frame, type_at) == ETHERTYPE_IPV6 {
        Some(type_at + 2)
    } else {
        None
    }
}

/// The network packet inside an Ethernet frame, with whatever padding follows.
pub open spec fn ethernet_payload(frame: Seq<u8>) -> Option<Seq<u8>> {
    match network_start(frame, 12) {
        Some(start) => Some(frame.skip(start)),
        None => None,
    }
}

/// Finds the IP packet in an Ethernet frame, behind any number of VLAN tags.
pub fn ethernet_network_packet(frame: &[u8]) -> (packet: Option<&[u8]>)
    ensures
        packet is Some <==> ethernet_payload(frame@) is Some,
        packet matches Some(bytes) ==> bytes@ == ethernet_payload(frame@).unwrap(),
{
    if frame.len() < 14 {
        return None;
    }
    let mut network_offset: usize = 14;
    let mut ether_type: u16 = read_be16(frame, 12);
    while ether_type == 0x8100 || ether_type == 0x88a8 || ether_type == 0x9100
        invariant
            14 <= network_offset <= frame@.len(),
            ether_type == be16(frame@, network_offset - 2),
            network_start(frame@, 12) == network_start(frame@, network_offset - 2),
        decreases frame@.len() - network_offset,
    {
        if frame.len() - network_offset < 4 {
            assert(network_start(frame@, network_offset + 2) is None);
            return None;
        }
        ether_type = read_be16(frame, network_offset + 2);
        network_offset += 4;
    }
    if ether_type == ETHERTYPE_IPV4 || ether_type == ETHERTYPE_IPV6 {
        let packet = slice_subrange(frame, network_offset, frame.len());
        assert(packet@ == frame@.skip(network_offset as int));
        Some(packet)
    } else {
        None
    }
}

/// A complete, unfragmented IPv4 packet that carries at least a TCP header and
/// has no IP options; link-layer padding may follow it.
pub open spec fn is_ipv4_tcp(packet: Seq<u8>) -> bool {
    &&& packet.len() >= 40
    &&& packet[0] == 0x45
    &&& packet[9] == IPPROTO_TCP
    &&& 40 <= be16(packet, 2) <= packet.len()
    &&& be16(packet, 6) % 0x2000 == 0
}

/// A complete IPv6 packet that carries at least a TCP header directly behind
/// the fixed header; link-layer padding may follow it.
pub open spec fn is_ipv6_tcp(packet: Seq<u8>) -> bool {
    &&& packet.len() >= 60
    &&& packet[0] / 16 == 6
    &&& packet[6] == IPPROTO_TCP
    &&& 20 <= be16(packet, 4) <= packet.len() - 40
}

/// The TCP/IP packet at the start of the bytes, cut to the length that its own
/// header gives; nothing when there is none that the client understands.
pub open spec fn normalized(packet: Seq<u8>) -> Option<Seq<u8>> {
    if is_ipv4_tcp(packet) {
        Some(packet.take(be16(packet, 2)))
    } else if is_ipv6_tcp(packet) {
        Some(packet.take(40 + be16(packet, 4)))
    } else {
        None
    }
}

/// Cuts the bytes to the TCP/IP packet that they start with.
pub fn normalize_ip_packet(packet: &[u8]) -> (result: Option<&[u8]>)
    ensures
        result is Some <==> normalized(packet@) is Some,
        result matches Some(bytes) ==> bytes@ == normalized(packet@).unwrap(),
{
    if packet.len() == 0 {
        return None;
    }
    let version: u8 = packet[0] / 16;
    if version == 4 {
        if packet.len() < 40 || packet[9] != IPPROTO_TCP || packet[0] % 16 != 5 {
            return None;
        }
        let total_len: usize = read_be16(packet, 2) as usize;
        let fragment_offset: u16 = read_be16(packet, 6) % 0x2000;
        if total_len < 40 || total_len > packet.len() || fragment_offset != 0 {
            return None;
        }
        let result = slice_subrange(packet, 0, total_len);
        assert(result@ == packet@.take(total_len as int));
        Some(result)
    } else if version == 6 {
        if packet.len() < 60 || packet[6] != IPPROTO_TCP {
            return None;
        }
        let payload_len: usize = read_be16(packet, 4) as usize;
        let total_len: usize = 40 + payload_len;
        if payload_len < 20 || total_len > packet.len() {
            return None;
        }
        let result = slice_subrange(packet, 0, total_len);
        assert(result@ == packet@.take(total_len as int));
        Some(result)
    } else {
        None
    }
}

/// How a network interface frames its packets.
#[derive(Clone, Copy, Debug, PartialEq, Eq, Structural)]
pub enum LinkType {
    /// A four-byte address family in host order, then the packet.
    Null,
    /// Ethernet, with or without VLAN tags.
    Ethernet,
    /// The packet itself.
    Raw,
}

/// Darwin's numbers for the link types.
pub const BPF_DLT_NULL: i32 = 0;

pub const BPF_DLT_EN10MB: i32 = 1;

pub const BPF_DLT_RAW: i32 = 12;

impl LinkType {
    /// Darwin's number for the link type.
    pub open spec fn number(self) -> i32 {
        match self {
            LinkType::Null => BPF_DLT_NULL,
            LinkType::Ethernet => BPF_DLT_EN10MB,
            LinkType::Raw => BPF_DLT_RAW,
        }
    }

    /// The link type with the number, when the client understands it.
    pub open spec fn with_number(value: i32) -> Option<LinkType> {
        if value == BPF_DLT_NULL {
            Some(LinkType::Null)
        } else if value == BPF_DLT_EN10MB {
            Some(LinkType::Ethernet)
        } else if value == BPF_DLT_RAW {
            Some(LinkType::Raw)
        } else {
            None
        }
    }

    /// The failure on a number that the client does not understand.
    pub open spec fn unsupported(value: i32) -> ErrorView {
        ErrorView {
            kind: ErrorKind::Unsupported,
            message: "unsupported macOS BPF datalink type "@ + integer_text(value as int),
        }
    }

    /// Finds the link type with the number.
    pub fn from_dlt(value: i32) -> (result: Result<LinkType, Error>)
        ensures
            match LinkType::with_number(value) {
                Some(link_type) => result == Ok::<LinkType, Error>(link_type),
                None => result matches Err(error) && error@ == LinkType::unsupported(value),
            },
    {
        if value == BPF_DLT_NULL {
            Ok(LinkType::Null)
        } else if value == BPF_DLT_EN10MB {
            Ok(LinkType::Ethernet)
        } else if value == BPF_DLT_RAW {
            Ok(LinkType::Raw)
        } else {
            let mut message = "unsupported macOS BPF datalink type ".to_owned();
            append_integer(&mut message, value as i64);
            Err(Error { kind: ErrorKind::Unsupported, message })
        }
    }

    /// Darwin's number for the link type.
    pub fn dlt(self) -> (value: i32)
        ensures
            value == self.number(),
    {
        match self {
            LinkType::Null => BPF_DLT_NULL,
            LinkType::Ethernet => BPF_DLT_EN10MB,
            LinkType::Raw => BPF_DLT_RAW,
        }
    }
}

/// The number of a link type leads back to it, and no other number does.
pub proof fn link_numbers_round_trip(link_type: LinkType, value: i32)
    ensures
        LinkType::with_number(link_type.number()) == Some(link_type),
        LinkType::with_number(value) == Some(link_type) ==> value == link_type.number(),
{
}

/// What the link layer of a frame encloses.
pub open spec fn link_payload(link_type: LinkType, frame: Seq<u8>) -> Option<Seq<u8>> {
    match link_type {
        LinkType::Raw => Some(frame),
        LinkType::Null => if frame.len() >= 4 && (host32(frame, 0) == AF_INET || host32(frame, 0)
            == AF_INET6) {
            Some(frame.skip(4))
        } else {
            None
        },
        LinkType::Ethernet => ethernet_payload(frame),
    }
}

/// The TCP/IP packet inside a captured frame.
pub open spec fn frame_packet(link_type: LinkType, frame: Seq<u8>) -> Option<Seq<u8>> {
    match link_payload(link_type, frame) {
        Some(payload) => normalized(payload),
        None => None,
    }
}

/// Extracts the TCP/IP packet from a captured frame.
pub fn packet_from_link_frame(link_type: LinkType, frame: &[u8]) -> (packet: Option<&[u8]>)
    ensures
        packet is Some <==> frame_packet(link_type, frame@) is Some,
        packet matches Some(bytes) ==> bytes@ == frame_packet(link_type, frame@).unwrap(),
{
    match link_type {
        LinkType::Raw => normalize_ip_packet(frame),
        LinkType::Null => {
            if frame.len() < 4 {
                return None;
            }
            let family: u32 = read_host32(frame, 0);
            if family != AF_INET && family != AF_INET6 {
                return None;
            }
            let payload = slice_subrange(frame, 4, frame.len());
            assert(payload@ == frame@.skip(4));
            normalize_ip_packet(payload)
        },
        LinkType::Ethernet => {
            match ethernet_network_packet(frame) {
                Some(payload) => normalize_ip_packet(payload),
                None => None,
            }
        },
    }
}

/// A packet long enough to hold the IP header and the TCP header that its first
/// byte and its protocol field announce.
pub open spec fn headers_present(packet: Seq<u8>) -> bool {
    &&& packet.len() > 0
    &&& packet[0] / 16 == 4 ==> packet.len() >= 20 && (packet[9] == IPPROTO_TCP ==> packet.len()
        >= 40)
    &&& packet[0] / 16 == 6 ==> packet.len() >= 40 && (packet[6] == IPPROTO_TCP ==> packet.len()
        >= 60)
}

/// The endpoint that a TCP/IP packet names as its source; nothing for other
/// bytes. The TCP header stands right behind the fixed IP header.
pub open spec fn source_endpoint(packet: Seq<u8>) -> Option<SocketAddr> {
    if !headers_present(packet) {
        None
    } else if packet[0] / 16 == 4 && packet[9] == IPPROTO_TCP {
        Some(SocketAddr::plain(IpAddr::V4(be32(packet, 12) as u32), be16(packet, 20) as u16))
    } else if packet[0] / 16 == 6 && packet[6] == IPPROTO_TCP {
        Some(SocketAddr::plain(IpAddr::V6(be128(packet, 8) as u128), be16(packet, 40) as u16))
    } else {
        None
    }
}

/// Reads the source endpoint of a TCP/IP packet.
pub fn packet_source(packet: &[u8]) -> (source: Option<SocketAddr>)
    ensures
        source == source_endpoint(packet@),
{
    if packet.len() == 0 {
        return None;
    }
    let version: u8 = packet[0] / 16;
    if version == 4 && packet.len() >= 40 && packet[9] == IPPROTO_TCP {
        Some(SocketAddr::new(IpAddr::V4(read_be32(packet, 12)), read_be16(packet, 20)))
    } else if version == 6 && packet.len() >= 60 && packet[6] == IPPROTO_TCP {
        Some(SocketAddr::new(IpAddr::V6(read_be128(packet, 8)), read_be16(packet, 40)))
    } else {
        None
    }
}

/// Whether the packet comes from the tunnel server.
pub fn is_expected_remote_packet(packet: &[u8], remote_addr: SocketAddr) -> (result: bool)
    ensures
        result == (source_endpoint(packet@) == Some(remote_addr)),
{
    match packet_source(packet) {
        Some(source) => source == remote_addr,
        None => false,
    }
}

/// Normalizing settles in one step, and padding behind a packet changes nothing:
/// the result, with whatever bytes behind it, normalizes to itself.
pub proof fn normalizing_settles(packet: Seq<u8>, padding: Seq<u8>)
    ensures
        normalized(packet) matches Some(result) ==> {
            &&& normalized(result) == Some(result)
            &&& normalized(result + padding) == Some(result)
            &&& source_endpoint(result) is Some
        },
{
    if let Some(result) = normalized(packet) {
        let padded = result + padding;
        assert(forall|i: int| 0 <= i < result.len() ==> result[i] == packet[i]);
        assert(forall|i: int| 0 <= i < result.len() ==> padded[i] == packet[i]);
        assert(result.take(result.len() as int) == result);
        assert(padded.take(result.len() as int) == result);
    }
}

/// The network packet of an Ethernet frame depends only on the bytes from its
/// EtherType on.
proof fn lemma_network_start_shift(left: Seq<u8>, right: Seq<u8>, left_at: int, right_at: int)
    requires
        0 <= left_at <= left.len(),
        0 <= right_at <= right.len(),
        left.skip(left_at) == right.skip(right_at),
    ensures
        match (network_start(left, left_at), network_start(right, right_at)) {
            (Some(l), Some(r)) => l <= left.len() && r <= right.len() && left.skip(l)
                == right.skip(r),
            (None, None) => true,
            _ => false,
        },
    decreases left.len() + 4 - left_at,
{
    let tail = left.skip(left_at);
    assert(tail.len() == right.len() - right_at);
    if left_at + 2 <= left.len() {
        assert(left[left_at] == tail[0] && right[right_at] == tail[0]);
        assert(left[left_at + 1] == tail[1] && right[right_at + 1] == tail[1]);
        if is_vlan(be16(left, left_at)) {
            if left_at + 4 <= left.len() {
                assert(left.skip(left_at + 4) == tail.skip(4));
                assert(right.skip(right_at + 4) == tail.skip(4));
                lemma_network_start_shift(left, right, left_at + 4, right_at + 4);
            }
        } else {
            assert(left.skip(left_at + 2) == tail.skip(2));
            assert(right.skip(right_at + 2) == tail.skip(2));
        }
    }
}

/// A VLAN tag is transparent: inserting one behind the two hardware addresses of
/// a frame leaves the enclosed packet as it was.
pub proof fn vlan_tag_is_transparent(addresses: Seq<u8>, tag: Seq<u8>, rest: Seq<u8>)
    requires
        addresses.len() == 12,
        tag.len() == 4,
        is_vlan(be16(tag, 0)),
    ensures
        ethernet_payload(addresses + tag + rest) == ethernet_payload(addresses + rest),
        frame_packet(LinkType::Ethernet, addresses + tag + rest) == frame_packet(
            LinkType::Ethernet,
            addresses + rest,
        ),
{
    let tagged = addresses + tag + rest;
    let plain = addresses + rest;
    assert(tagged[12] == tag[0] && tagged[13] == tag[1]);
    assert(tagged.skip(16) == rest);
    assert(plain.skip(12) == rest);
    lemma_network_start_shift(tagged, plain, 16, 12);
}

/// Framing is undone: a packet that normalizes to itself comes back from the
/// frame that any of the link types puts around it, with any padding behind it.
pub proof fn framed_packet_comes_back(
    packet: Seq<u8>,
    padding: Seq<u8>,
    family: Seq<u8>,
    ethernet: Seq<u8>,
)
    requires
        normalized(packet) == Some(packet),
        family.len() == 4,
        host32(family, 0) == AF_INET || host32(family, 0) == AF_INET6,
        ethernet.len() == 14,
        be16(ethernet, 12) == ETHERTYPE_IPV4 || be16(ethernet, 12) == ETHERTYPE_IPV6,
    ensures
        frame_packet(LinkType::Raw, packet + padding) == Some(packet),
        frame_packet(LinkType::Null, family + (packet + padding)) == Some(packet),
        frame_packet(LinkType::Ethernet, ethernet + (packet + padding)) == Some(packet),
{
    let payload = packet + padding;
    normalizing_settles(packet, padding);
    let null_frame = family + payload;
    assert(null_frame.skip(4) == payload);
    assert(forall|i: int| 0 <= i < 4 ==> null_frame[i] == family[i]);
    let ethernet_frame = ethernet + payload;
    assert(ethernet_frame.skip(14) == payload);
    assert(ethernet_frame[12] == ethernet[12] && ethernet_frame[13] == ethernet[13]);
}

/// Of the bytes that start with an IPv4 header, exactly those are understood that
/// have no IP options, carry TCP, are no later fragment, and hold the length that
/// the header gives, which is enough for both headers. They are cut to that
/// length and otherwise unchanged.
pub proof fn ipv4_packets_are_cut_to_their_length(packet: Seq<u8>)
    requires
        packet.len() > 0,
        packet[0] / 16 == 4,
    ensures
        normalized(packet) is Some <==> {
            &&& packet.len() >= 40
            &&& packet[0] == 69
            &&& packet[9] == 6
            &&& 40 <= packet[2] * 256 + packet[3] <= packet.len()
            &&& packet[6] % 32 == 0 && packet[7] == 0
        },
        normalized(packet) matches Some(bytes) ==> {
            &&& bytes.len() == packet[2] * 256 + packet[3]
            &&& forall|i: int| 0 <= i < bytes.len() ==> (#[trigger] bytes[i]) == packet[i]
        },
{
}

/// Of the bytes that start with an IPv6 header, exactly those are understood that
/// carry TCP right behind it and hold the length that the header gives, which is
/// enough for a TCP header. They are cut to that length and otherwise unchanged.
pub proof fn ipv6_packets_are_cut_to_their_length(packet: Seq<u8>)
    requires
        packet.len() > 0,
        packet[0] / 16 == 6,
    ensures
        normalized(packet) is Some <==> {
            &&& packet.len() >= 60
            &&& packet[6] == 6
            &&& 20 <= packet[4] * 256 + packet[5]
            &&& 40 + packet[4] * 256 + packet[5] <= packet.len()
        },
        normalized(packet) matches Some(bytes) ==> {
            &&& bytes.len() == 40 + packet[4] * 256 + packet[5]
            &&& forall|i: int| 0 <= i < bytes.len() ==> (#[trigger] bytes[i]) == packet[i]
        },
{
}

/// Nothing but IPv4 and IPv6 is understood.
pub proof fn other_packets_are_not_understood(packet: Seq<u8>)
    requires
        packet.len() == 0 || packet[0] / 16 != 4 && packet[0] / 16 != 6,
    ensures
        normalized(packet) is None,
        source_endpoint(packet) is None,
{
}

/// An Ethernet frame holds its packet behind its EtherType, the two bytes at 12,
/// when that is the one of IPv4 or IPv6. One of the three EtherTypes of VLAN tags
/// makes the frame the same as the one without the four bytes of the tag. Every
/// other frame holds nothing.
pub proof fn ethernet_frames_hold_packets_behind_their_type(frame: Seq<u8>)
    ensures
        frame.len() < 14 ==> ethernet_payload(frame) is None,
        frame.len() >= 14 ==> {
            let kind = frame[12] * 256 + frame[13];
            if kind == 0x0800 || kind == 0x86dd {
                ethernet_payload(frame) == Some(frame.subrange(14, frame.len() as int))
            } else if kind == 0x8100 || kind == 0x88a8 || kind == 0x9100 {
                ethernet_payload(frame) == if frame.len() < 18 {
                    None
                } else {
                    ethernet_payload(frame.take(12) + frame.skip(16))
                }
            } else {
                ethernet_payload(frame) is None
            }
        },
{
    if frame.len() >= 14 {
        assert(frame.skip(14) == frame.subrange(14, frame.len() as int));
        let kind = frame[12] * 256 + frame[13];
        if kind == 0x8100 || kind == 0x88a8 || kind == 0x9100 {
            if frame.len() < 18 {
                assert(network_start(frame, 16) is None);
            } else {
                let tag = frame.subrange(12, 16);
                assert(frame == frame.take(12) + tag + frame.skip(16));
                assert(tag[0] == frame[12] && tag[1] == frame[13]);
                vlan_tag_is_transparent(frame.take(12), tag, frame.skip(16));
            }
        }
    }
}

/// A loopback frame holds its packet behind four bytes that give Darwin's number
/// of IPv4 or IPv6, the last byte weighing most; a raw frame is the packet.
pub proof fn other_frames_hold_packets_behind_their_family(frame: Seq<u8>)
    ensures
        link_payload(LinkType::Raw, frame) == Some(frame),
        link_payload(LinkType::Ethernet, frame) == ethernet_payload(frame),
        link_payload(LinkType::Null, frame) == if frame.len() >= 4 && (frame[0] == 2 || frame[0]
            == 30) && frame[1] == 0 && frame[2] == 0 && frame[3] == 0 {
            Some(frame.subrange(4, frame.len() as int))
        } else {
            None
        },
{
    if frame.len() >= 4 {
        assert(frame.skip(4) == frame.subrange(4, frame.len() as int));
    }
}

/// The packet of a frame is the understood part of what its link layer holds.
pub proof fn a_frame_gives_the_packet_it_holds(link_type: LinkType, frame: Seq<u8>)
    ensures
        link_payload(link_type, frame) is None ==> frame_packet(link_type, frame) is None,
        link_payload(link_type, frame) matches Some(payload) ==> frame_packet(link_type, frame)
            == normalized(payload),
{
}

/// An IPv4 packet with both headers names its source in the four bytes at 12, the
/// first weighing most, and in the two at 20.
pub proof fn ipv4_sources_are_read_byte_by_byte(packet: Seq<u8>)
    requires
        packet.len() >= 40,
        packet[0] / 16 == 4,
        packet[9] == 6,
    ensures
        source_endpoint(packet) matches Some(SocketAddr::V4(source)) && source.ip == big_endian(
            packet.subrange(12, 16),
        ) && source.port == packet[20] * 256 + packet[21],
{
    network_fields_are_big_endian(packet, 12);
    assert(be32(packet, 12) < 0x1_0000_0000);
}

/// An IPv6 packet with both headers names its source in the sixteen bytes at 8,
/// the first weighing most, and in the two at 40.
pub proof fn ipv6_sources_are_read_byte_by_byte(packet: Seq<u8>)
    requires
        packet.len() >= 60,
        packet[0] / 16 == 6,
        packet[6] == 6,
    ensures
        source_endpoint(packet) matches Some(SocketAddr::V6(source)) && source.ip == big_endian(
            packet.subrange(8, 24),
        ) && source.port == packet[40] * 256 + packet[41] && source.flowinfo == 0 && source.scope_id
            == 0,
{
    network_fields_are_big_endian(packet, 8);
    assert(be32(packet, 8) < 0x1_0000_0000);
    assert(be128(packet, 8) <= u128::MAX);
}

/// A packet that carries something other than TCP, or is too short for its
/// headers, names no source.
pub proof fn only_tcp_packets_name_a_source(packet: Seq<u8>)
    ensures
        source_endpoint(packet) is Some ==> {
            ||| packet.len() >= 40 && packet[0] / 16 == 4 && packet[9] == 6
            ||| packet.len() >= 60 && packet[0] / 16 == 6 && packet[6] == 6
        },
{
}

} // verus!
