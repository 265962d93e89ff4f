//! Packets on their way to the raw IP sockets of Darwin.

use vstd::prelude::*;
use vstd::slice::{slice_subrange, slice_to_vec};

use crate::error::{Error, ErrorKind, ErrorView};
use crate::frame::{is_ipv4_tcp, normalized, IPPROTO_TCP};
use crate::net::{SocketAddr, SocketAddrV4, SocketAddrV6};
use crate::wire::{
    be128, be16, be32, big_endian, host16, network_fields_are_big_endian, read_be16,
};

verus! {

/// The failure with the message, on a packet that is not as it has to be.
pub open spec fn invalid_packet(message: Seq<char>) -> ErrorView {
    ErrorView { kind: ErrorKind::InvalidData, message }
}

/// The packet with the length and the fragment field of its IPv4 header turned
/// from network order to host order.
pub open spec fn host_order_header(packet: Seq<u8>) -> Seq<u8> {
    packet.update(2, packet[3]).update(3, packet[2]).update(6, packet[7]).update(7, packet[6])
}

/// What keeps a packet from a raw IPv4 socket.
pub open spec fn ipv4_header_fault(packet: Seq<u8>) -> Option<ErrorView> {
    if packet.len() < 20 {
        Some(invalid_packet("IPv4 fake-TCP packet is shorter than its IP header"@))
    } else if packet[0] % 16 < 5 || packet[0] % 16 * 4 > packet.len() || be16(packet, 2)
        != packet.len() {
        Some(invalid_packet("IPv4 fake-TCP packet has an invalid total length"@))
    } else {
        None
    }
}

/// Turns a packet from the form on the wire to the form that a raw socket of
/// Darwin takes. With the header supplied by the sender, Darwin reads the length
/// and the fragment field in host order.
pub fn macos_raw_ipv4_packet(packet: &[u8]) -> (result: Result<Vec<u8>, Error>)
    ensures
        match ipv4_header_fault(packet@) {
            Some(fault) => result matches Err(error) && error@ == fault,
            None => result matches Ok(prepared) && prepared@ == host_order_header(packet@),
        },
{
    if packet.len() < 20 {
        return Err(
            Error::new(
                ErrorKind::InvalidData,
                "IPv4 fake-TCP packet is shorter than its IP header",
            ),
        );
    }
    let header_len: usize = (packet[0] % 16) as usize * 4;
    let total_len: usize = read_be16(packet, 2) as usize;
    if header_len < 20 || header_len > packet.len() || total_len != packet.len() {
        return Err(
            Error::new(
                ErrorKind::InvalidData,
                "IPv4 fake-TCP packet has an invalid total length",
            ),
        );
    }
    let mut prepared: Vec<u8> = slice_to_vec(packet);
    prepared[2] = packet[3];
    prepared[3] = packet[2];
    prepared[6] = packet[7];
    prepared[7] = packet[6];
    Ok(prepared)
}

/// What keeps a packet from the raw IPv6 socket.
pub open spec fn ipv6_packet_fault(packet: Seq<u8>) -> Option<ErrorView> {
    if packet.len() < 60 || packet[0] / 16 != 6 || packet[6] != IPPROTO_TCP {
        Some(invalid_packet("IPv6 raw socket received an invalid fake-TCP packet"@))
    } else if be16(packet, 4) < 20 || be16(packet, 4) + 40 != packet.len() {
        Some(invalid_packet("IPv6 fake-TCP packet has an invalid payload length"@))
    } else {
        None
    }
}

/// The TCP segment of an IPv6 packet; the kernel writes the IPv6 header itself.
pub fn ipv6_tcp_payload(packet: &[u8]) -> (result: Result<&[u8], Error>)
    ensures
        match ipv6_packet_fault(packet@) {
            Some(fault) => result matches Err(error) && error@ == fault,
            None => result matches Ok(payload) && payload@ == packet@.skip(40),
        },
{
    if packet.len() < 60 || packet[0] / 16 != 6 || packet[6] != IPPROTO_TCP {
        return Err(
            Error::new(
                ErrorKind::InvalidData,
                "IPv6 raw socket received an invalid fake-TCP packet",
            ),
        );
    }
    let payload_len: usize = read_be16(packet, 4) as usize;
    if payload_len < 20 || payload_len + 40 != packet.len() {
        return Err(
            Error::new(
                ErrorKind::InvalidData,
                "IPv6 fake-TCP packet has an invalid payload length",
            ),
        );
    }
    let payload = slice_subrange(packet, 40, packet.len());
    assert(payload@ == packet@.skip(40));
    Ok(payload)
}

/// The 16-bit number in network order.
pub open spec fn network16(value: int) -> Seq<u8> {
    seq![(value / 0x100) as u8, (value % 0x100) as u8]
}

/// The 32-bit number in network order.
pub open spec fn network32(value: int) -> Seq<u8> {
    network16(value / 0x1_0000) + network16(value % 0x1_0000)
}

/// The 128-bit number in network order.
pub open spec fn network128(value: int) -> Seq<u8> {
    network32(value / 0x1_0000_0000_0000_0000_0000_0000) + network32(
        value / 0x1_0000_0000_0000_0000 % 0x1_0000_0000,
    ) + network32(value / 0x1_0000_0000 % 0x1_0000_0000) + network32(value % 0x1_0000_0000)
}

/// The 32-bit number in the order of the host.
pub open spec fn stored32(value: int) -> Seq<u8> {
    network32(value).reverse()
}

fn push_network16(bytes: &mut Vec<u8>, value: u16)
    ensures
        final(bytes)@ == old(bytes)@ + network16(value as int),
{
    let ghost before = bytes@;
    bytes.push((value / 0x100) as u8);
    bytes.push((value % 0x100) as u8);
    assert(bytes@ == before + network16(value as int));
}

fn push_network32(bytes: &mut Vec<u8>, value: u32)
    ensures
        final(bytes)@ == old(bytes)@ + network32(value as int),
{
    let ghost before = bytes@;
    push_network16(bytes, (value / 0x1_0000) as u16);
    push_network16(bytes, (value % 0x1_0000) as u16);
    assert(bytes@ == before + network32(value as int));
}

fn push_network128(bytes: &mut Vec<u8>, value: u128)
    ensures
        final(bytes)@ == old(bytes)@ + network128(value as int),
{
    let ghost before = bytes@;
    push_network32(bytes, (value / 0x1_0000_0000_0000_0000_0000_0000) as u32);
    push_network32(bytes, (value / 0x1_0000_0000_0000_0000 % 0x1_0000_0000) as u32);
    push_network32(bytes, (value / 0x1_0000_0000 % 0x1_0000_0000) as u32);
    push_network32(bytes, (value % 0x1_0000_0000) as u32);
    assert(bytes@ == before + network128(value as int));
}

fn push_stored32(bytes: &mut Vec<u8>, value: u32)
    ensures
        final(bytes)@ == old(bytes)@ + stored32(value as int),
{
    let ghost before = bytes@;
    let high: u16 = (value / 0x1_0000) as u16;
    let low: u16 = (value % 0x1_0000) as u16;
    bytes.push((low % 0x100) as u8);
    bytes.push((low / 0x100) as u8);
    bytes.push((high % 0x100) as u8);
    bytes.push((high / 0x100) as u8);
    assert(bytes@ == before + stored32(value as int));
}

/// Darwin's `sockaddr_in`: its length, the address family, the port and the
/// address in network order, eight zeros.
pub open spec fn sockaddr_in(address: SocketAddrV4) -> Seq<u8> {
    seq![16u8, 2u8] + network16(address.port as int) + network32(address.ip as int) + seq![
        0u8, 0u8, 0u8, 0u8, 0u8, 0u8, 0u8, 0u8,
    ]
}

/// Darwin's `sockaddr_in6`: its length, the address family, the port in network
/// order, the flow label, the address in network order, the scope.
pub open spec fn sockaddr_in6(address: SocketAddrV6) -> Seq<u8> {
    seq![28u8, 30u8] + network16(address.port as int) + stored32(address.flowinfo as int)
        + network128(address.ip as int) + stored32(address.scope_id as int)
}

/// Lays out an IPv4 endpoint for a system call.
pub fn sockaddr_v4(address: SocketAddrV4) -> (bytes: Vec<u8>)
    ensures
        bytes@ == sockaddr_in(address),
        bytes.len() == 16,
{
    let mut bytes: Vec<u8> = Vec::new();
    bytes.push(16);
    bytes.push(2);
    push_network16(&mut bytes, address.port);
    push_network32(&mut bytes, address.ip);
    let mut index: usize = 0;
    let ghost front = bytes@;
    while index < 8
        invariant
            index <= 8,
            bytes@ == front + Seq::new(index as nat, |i: int| 0u8),
        decreases 8 - index,
    {
        bytes.push(0);
        index += 1;
        assert(bytes@ == front + Seq::new(index as nat, |i: int| 0u8));
    }
    assert(bytes@ == sockaddr_in(address));
    bytes
}

/// Lays out an IPv6 endpoint for a system call.
pub fn sockaddr_v6(address: SocketAddrV6) -> (bytes: Vec<u8>)
    ensures
        bytes@ == sockaddr_in6(address),
        bytes.len() == 28,
{
    let mut bytes: Vec<u8> = Vec::new();
    bytes.push(28);
    bytes.push(30);
    push_network16(&mut bytes, address.port);
    push_stored32(&mut bytes, address.flowinfo);
    push_network128(&mut bytes, address.ip);
    push_stored32(&mut bytes, address.scope_id);
    assert(bytes@ == sockaddr_in6(address));
    bytes
}

/// Lays out the destination of a raw IPv4 socket. The port stands in the packet;
/// Darwin rejects a destination with a port.
pub fn raw_destination_v4(address: SocketAddrV4) -> (bytes: Vec<u8>)
    ensures
        bytes@ == sockaddr_in(SocketAddrV4 { port: 0, ..address }),
        bytes.len() == 16,
{
    sockaddr_v4(SocketAddrV4 { ip: address.ip, port: 0 })
}

/// Lays out the destination of a raw IPv6 socket, without the port as well.
pub fn raw_destination_v6(address: SocketAddrV6) -> (bytes: Vec<u8>)
    ensures
        bytes@ == sockaddr_in6(SocketAddrV6 { port: 0, ..address }),
        bytes.len() == 28,
{
    sockaddr_v6(
        SocketAddrV6 {
            ip: address.ip,
            port: 0,
            flowinfo: address.flowinfo,
            scope_id: address.scope_id,
        },
    )
}

/// How packets go out to the tunnel server.
#[derive(Clone, Debug, PartialEq, Eq)]
pub enum RawPacketSender {
    /// Through a raw IP socket that takes whole packets with their header.
    Ipv4 {
        destination: Vec<u8>,
    },
    /// Through a raw TCP socket bound to the source, which takes TCP segments.
    Ipv6 {
        source: Vec<u8>,
        destination: Vec<u8>,
    },
}

/// The number of the protocol "raw IP".
pub const IPPROTO_RAW: i32 = 255;

impl RawPacketSender {
    /// Plans how packets go out to the remote endpoint. An IPv6 endpoint needs a
    /// local address.
    pub fn new(remote_addr: SocketAddr, local_ipv6: Option<SocketAddrV6>) -> (result: Result<
        RawPacketSender,
        Error,
    >)
        ensures
            match (remote_addr, local_ipv6) {
                (SocketAddr::V4(remote), _) => result matches Ok(
                    RawPacketSender::Ipv4 { destination },
                ) && destination@ == sockaddr_in(SocketAddrV4 { port: 0, ..remote }),
                (SocketAddr::V6(remote), Some(local)) => result matches Ok(
                    RawPacketSender::Ipv6 { source, destination },
                ) && {
                    &&& source@ == sockaddr_in6(SocketAddrV6 { port: 0, ..local })
                    &&& destination@ == sockaddr_in6(SocketAddrV6 { port: 0, ..remote })
                },
                (SocketAddr::V6(_), None) => result matches Err(error) && error@ == (ErrorView {
                    kind: ErrorKind::AddrNotAvailable,
                    message: "no local IPv6 address is available for the configured remote"@,
                }),
            },
    {
        match remote_addr {
            SocketAddr::V4(remote) => Ok(
                RawPacketSender::Ipv4 { destination: raw_destination_v4(remote) },
            ),
            SocketAddr::V6(remote) => match local_ipv6 {
                None => Err(
                    Error::new(
                        ErrorKind::AddrNotAvailable,
                        "no local IPv6 address is available for the configured remote",
                    ),
                ),
                Some(local) => Ok(
                    RawPacketSender::Ipv6 {
                        source: sockaddr_v6(
                            SocketAddrV6 {
                                ip: local.ip,
                                port: 0,
                                flowinfo: local.flowinfo,
                                scope_id: local.scope_id,
                            },
                        ),
                        destination: raw_destination_v6(remote),
                    },
                ),
            },
        }
    }

    /// The address family and the protocol of the socket, in Darwin's numbers.
    pub fn socket_parameters(&self) -> (parameters: (i32, i32))
        ensures
            parameters == match self {
                RawPacketSender::Ipv4 { .. } => (2i32, IPPROTO_RAW),
                RawPacketSender::Ipv6 { .. } => (30i32, IPPROTO_TCP as i32),
            },
    {
        match self {
            RawPacketSender::Ipv4 { .. } => (2, IPPROTO_RAW),
            RawPacketSender::Ipv6 { .. } => (30, IPPROTO_TCP as i32),
        }
    }

    /// What goes into the socket for the packet, or what keeps it from going.
    pub open spec fn outgoing(self, packet: Seq<u8>) -> Result<Seq<u8>, ErrorView> {
        match self {
            RawPacketSender::Ipv4 { .. } => if packet.len() == 0 || packet[0] / 16 != 4 {
                Err(invalid_packet("IPv4 raw socket received a non-IPv4 fake-TCP packet"@))
            } else {
                match ipv4_header_fault(packet) {
                    Some(fault) => Err(fault),
                    None => Ok(host_order_header(packet)),
                }
            },
            RawPacketSender::Ipv6 { .. } => match ipv6_packet_fault(packet) {
                Some(fault) => Err(fault),
                None => Ok(packet.skip(40)),
            },
        }
    }

    /// Prepares the packet for the socket.
    pub fn prepare(&self, packet: &[u8]) -> (result: Result<Vec<u8>, Error>)
        ensures
            match self.outgoing(packet@) {
                Ok(bytes) => result matches Ok(prepared) && prepared@ == bytes,
                Err(fault) => result matches Err(error) && error@ == fault,
            },
    {
        match self {
            RawPacketSender::Ipv4 { .. } => {
                if packet.len() == 0 || packet[0] / 16 != 4 {
                    return Err(
                        Error::new(
                            ErrorKind::InvalidData,
                            "IPv4 raw socket received a non-IPv4 fake-TCP packet",
                        ),
                    );
                }
                macos_raw_ipv4_packet(packet)
            },
            RawPacketSender::Ipv6 { .. } => match ipv6_tcp_payload(packet) {
                Ok(payload) => Ok(slice_to_vec(payload)),
                Err(error) => Err(error),
            },
        }
    }

    /// Reports a packet of the given length as sent, when the socket took all
    /// that was prepared for it.
    pub fn finish(
        &self,
        packet_len: usize,
        prepared_len: usize,
        outcome: Result<usize, Error>,
    ) -> (result: Result<usize, Error>)
        ensures
            match outcome {
                Err(error) => result == Err::<usize, Error>(error),
                Ok(size) => if size != prepared_len {
                    result matches Err(error) && error@ == (ErrorView {
                        kind: ErrorKind::WriteZero,
                        message: "short write to raw IP socket"@,
                    })
                } else {
                    match self {
                        RawPacketSender::Ipv4 { .. } => result == Ok::<usize, Error>(size),
                        RawPacketSender::Ipv6 { .. } => result == Ok::<usize, Error>(packet_len),
                    }
                },
            },
    {
        match outcome {
            Err(error) => Err(error),
            Ok(size) => {
                if size != prepared_len {
                    return Err(Error::new(ErrorKind::WriteZero, "short write to raw IP socket"));
                }
                match self {
                    RawPacketSender::Ipv4 { .. } => Ok(size),
                    RawPacketSender::Ipv6 { .. } => Ok(packet_len),
                }
            },
        }
    }
}

/// Turning the header fields to host order twice gives the packet back, and the
/// first turn leaves every other byte and the length alone.
pub proof fn host_order_is_its_own_inverse(packet: Seq<u8>)
    requires
        packet.len() >= 20,
    ensures
        host_order_header(host_order_header(packet)) == packet,
        host_order_header(packet).len() == packet.len(),
        host16(host_order_header(packet), 2) == be16(packet, 2),
        host16(host_order_header(packet), 6) == be16(packet, 6),
        forall|i: int|
            0 <= i < packet.len() && i != 2 && i != 3 && i != 6 && i != 7 ==> (#[trigger]
            host_order_header(packet)[i]) == packet[i],
{
    assert(host_order_header(host_order_header(packet)) == packet);
}

/// A packet that was received from a frame can be sent: a normalized packet of
/// the sender's family is never refused, and goes out whole, the header fields
/// of IPv4 turned to host order, the IPv6 header left to the kernel.
pub proof fn normalized_packets_are_sendable(sender: RawPacketSender, packet: Seq<u8>)
    requires
        normalized(packet) == Some(packet),
        packet[0] / 16 == match sender {
            RawPacketSender::Ipv4 { .. } => 4u8,
            RawPacketSender::Ipv6 { .. } => 6u8,
        },
    ensures
        sender.outgoing(packet) == Ok::<Seq<u8>, ErrorView>(
            match sender {
                RawPacketSender::Ipv4 { .. } => host_order_header(packet),
                RawPacketSender::Ipv6 { .. } => packet.skip(40),
            },
        ),
{
    assert(packet.take(be16(packet, 2)).len() == be16(packet, 2) || !is_ipv4_tcp(packet));
}

/// Numbers in network order read back: the bytes of a number, the first weighing
/// most, denote the number.
pub proof fn network_numbers_read_back(value: int)
    requires
        0 <= value,
    ensures
        value < 0x1_0000 ==> network16(value).len() == 2 && big_endian(network16(value)) == value,
        value < 0x1_0000_0000 ==> network32(value).len() == 4 && big_endian(network32(value))
            == value,
        value <= u128::MAX ==> network128(value).len() == 16 && big_endian(network128(value))
            == value,
{
    if value < 0x1_0000 {
        network_fields_are_big_endian(network16(value), 0);
        assert(network16(value).subrange(0, 2) == network16(value));
    }
    if value < 0x1_0000_0000 {
        lemma_network32(value);
    }
    if value <= u128::MAX {
        lemma_network128(value);
    }
}

proof fn lemma_network32(value: int)
    requires
        0 <= value < 0x1_0000_0000,
    ensures
        network32(value).len() == 4,
        be32(network32(value), 0) == value,
        big_endian(network32(value)) == value,
{
    network_fields_are_big_endian(network32(value), 0);
    assert(network32(value).subrange(0, 4) == network32(value));
}

/// A part of a sequence is read as if it stood alone.
proof fn lemma_field_in_part(bytes: Seq<u8>, at: int)
    requires
        0 <= at,
        at + 4 <= bytes.len(),
    ensures
        be32(bytes, at) == be32(bytes.subrange(at, at + 4), 0),
{
    let part = bytes.subrange(at, at + 4);
    assert(part[0] == bytes[at] && part[1] == bytes[at + 1]);
    assert(part[2] == bytes[at + 2] && part[3] == bytes[at + 3]);
}

/// The 32-bit digits of a 128-bit number.
proof fn lemma_word_digits(value: int)
    requires
        0 <= value <= u128::MAX,
    ensures
        value / 0x1_0000_0000_0000_0000_0000_0000 < 0x1_0000_0000,
        value / 0x1_0000_0000_0000_0000_0000_0000 * 0x1_0000_0000_0000_0000_0000_0000 + value
            / 0x1_0000_0000_0000_0000 % 0x1_0000_0000 * 0x1_0000_0000_0000_0000 + value
            / 0x1_0000_0000 % 0x1_0000_0000 * 0x1_0000_0000 + value % 0x1_0000_0000 == value,
{
    let high = value / 0x1_0000_0000;
    let higher = high / 0x1_0000_0000;
    assert(higher == value / 0x1_0000_0000_0000_0000);
    assert(higher / 0x1_0000_0000 == value / 0x1_0000_0000_0000_0000_0000_0000);
}

proof fn lemma_network128(value: int)
    requires
        0 <= value <= u128::MAX,
    ensures
        network128(value).len() == 16,
        big_endian(network128(value)) == value,
{
    let bytes = network128(value);
    let a = value / 0x1_0000_0000_0000_0000_0000_0000;
    let b = value / 0x1_0000_0000_0000_0000 % 0x1_0000_0000;
    let c = value / 0x1_0000_0000 % 0x1_0000_0000;
    let d = value % 0x1_0000_0000;
    lemma_word_digits(value);
    lemma_network32(a);
    lemma_network32(b);
    lemma_network32(c);
    lemma_network32(d);
    assert(bytes.len() == 16);
    assert(bytes.subrange(0, 4) == network32(a));
    assert(bytes.subrange(4, 8) == network32(b));
    assert(bytes.subrange(8, 12) == network32(c));
    assert(bytes.subrange(12, 16) == network32(d));
    lemma_field_in_part(bytes, 0);
    lemma_field_in_part(bytes, 4);
    lemma_field_in_part(bytes, 8);
    lemma_field_in_part(bytes, 12);
    assert(be128(bytes, 0) == value) by {
        assert(be128(bytes, 0) == be32(bytes, 0) * 0x1_0000_0000_0000_0000_0000_0000 + be32(bytes, 4)
            * 0x1_0000_0000_0000_0000 + be32(bytes, 8) * 0x1_0000_0000 + be32(bytes, 12));
    }
    network_fields_are_big_endian(bytes, 0);
    assert(bytes.subrange(0, 16) == bytes);
}

/// A laid-out IPv4 endpoint reads back: length and family in front, then the port
/// and the address, the first byte of each weighing most, then zeros.
pub proof fn ipv4_endpoints_read_back(address: SocketAddrV4)
    ensures
        ({
            let bytes = sockaddr_in(address);
            &&& bytes.len() == 16
            &&& bytes[0] == 16
            &&& bytes[1] == 2
            &&& big_endian(bytes.subrange(2, 4)) == address.port
            &&& big_endian(bytes.subrange(4, 8)) == address.ip
            &&& forall|i: int| 8 <= i < 16 ==> bytes[i] == 0
        }),
{
    let bytes = sockaddr_in(address);
    network_numbers_read_back(address.port as int);
    network_numbers_read_back(address.ip as int);
    assert(bytes.subrange(2, 4) == network16(address.port as int));
    assert(bytes.subrange(4, 8) == network32(address.ip as int));
}

/// A laid-out IPv6 endpoint reads back: length and family in front, then the
/// port, the flow label, the address and the scope; the first byte of port and
/// address weighs most, the last byte of flow label and scope.
pub proof fn ipv6_endpoints_read_back(address: SocketAddrV6)
    ensures
        ({
            let bytes = sockaddr_in6(address);
            &&& bytes.len() == 28
            &&& bytes[0] == 28
            &&& bytes[1] == 30
            &&& big_endian(bytes.subrange(2, 4)) == address.port
            &&& big_endian(bytes.subrange(4, 8).reverse()) == address.flowinfo
            &&& big_endian(bytes.subrange(8, 24)) == address.ip
            &&& big_endian(bytes.subrange(24, 28).reverse()) == address.scope_id
        }),
{
    let bytes = sockaddr_in6(address);
    network_numbers_read_back(address.port as int);
    network_numbers_read_back(address.flowinfo as int);
    network_numbers_read_back(address.ip as int);
    network_numbers_read_back(address.scope_id as int);
    assert(bytes.subrange(2, 4) == network16(address.port as int));
    assert(bytes.subrange(4, 8).reverse() == network32(address.flowinfo as int));
    assert(bytes.subrange(8, 24) == network128(address.ip as int));
    assert(bytes.subrange(24, 28).reverse() == network32(address.scope_id as int));
}

/// What the IPv4 socket takes: exactly the IPv4 packets whose header is whole and
/// gives their length. They go out with the two bytes of the length, and the two
/// of the fragment field, in the other order, and are otherwise unchanged.
pub proof fn the_ipv4_socket_takes_whole_packets(sender: RawPacketSender, packet: Seq<u8>)
    requires
        sender is Ipv4,
    ensures
        sender.outgoing(packet) is Ok <==> {
            &&& packet.len() >= 20
            &&& packet[0] / 16 == 4
            &&& 20 <= packet[0] % 16 * 4 <= packet.len()
            &&& packet[2] * 256 + packet[3] == packet.len()
        },
        sender.outgoing(packet) matches Ok(bytes) ==> {
            &&& bytes.len() == packet.len()
            &&& bytes[2] == packet[3] && bytes[3] == packet[2]
            &&& bytes[6] == packet[7] && bytes[7] == packet[6]
            &&& forall|i: int|
                0 <= i < packet.len() && i != 2 && i != 3 && i != 6 && i != 7 ==> (#[trigger]
                bytes[i]) == packet[i]
        },
        sender.outgoing(packet) matches Err(error) ==> error.kind == ErrorKind::InvalidData,
{
}

/// What the IPv6 socket takes: exactly the IPv6 packets with a TCP segment behind
/// the fixed header and with the length that the header gives. Their segment goes
/// out unchanged.
pub proof fn the_ipv6_socket_takes_tcp_segments(sender: RawPacketSender, packet: Seq<u8>)
    requires
        sender is Ipv6,
    ensures
        sender.outgoing(packet) is Ok <==> {
            &&& packet.len() >= 60
            &&& packet[0] / 16 == 6
            &&& packet[6] == 6
            &&& packet[4] * 256 + packet[5] + 40 == packet.len()
        },
        sender.outgoing(packet) matches Ok(bytes) ==> {
            &&& bytes.len() == packet.len() - 40
            &&& forall|i: int| 0 <= i < bytes.len() ==> (#[trigger] bytes[i]) == packet[i + 40]
        },
        sender.outgoing(packet) matches Err(error) ==> error.kind == ErrorKind::InvalidData,
{
}

/// A packet is kept from the IPv4 socket by the first that holds: it is no IPv4
/// packet, it is shorter than a header, or its header does not give its length.
pub proof fn ipv4_refusals_tell_what_is_wrong(sender: RawPacketSender, packet: Seq<u8>)
    requires
        sender is Ipv4,
    ensures
        packet.len() == 0 || packet[0] / 16 != 4 ==> sender.outgoing(packet) == Err::<
            Seq<u8>,
            ErrorView,
        >(invalid_packet("IPv4 raw socket received a non-IPv4 fake-TCP packet"@)),
        0 < packet.len() < 20 && packet[0] / 16 == 4 ==> sender.outgoing(packet) == Err::<
            Seq<u8>,
            ErrorView,
        >(invalid_packet("IPv4 fake-TCP packet is shorter than its IP header"@)),
        packet.len() >= 20 && packet[0] / 16 == 4 ==> (sender.outgoing(packet) matches Err(error)
            ==> error == invalid_packet("IPv4 fake-TCP packet has an invalid total length"@)),
        ipv4_header_fault(packet) is None <==> {
            &&& packet.len() >= 20
            &&& 20 <= packet[0] % 16 * 4 <= packet.len()
            &&& packet[2] * 256 + packet[3] == packet.len()
        },
        ipv4_header_fault(packet) matches Some(error) ==> error == invalid_packet(
            if packet.len() < 20 {
                "IPv4 fake-TCP packet is shorter than its IP header"@
            } else {
                "IPv4 fake-TCP packet has an invalid total length"@
            },
        ),
{
}

/// A packet is kept from the IPv6 socket by the first that holds: it is no IPv6
/// packet with a TCP header, or its header does not give its length.
pub proof fn ipv6_refusals_tell_what_is_wrong(packet: Seq<u8>)
    ensures
        packet.len() < 60 || packet[0] / 16 != 6 || packet[6] != 6 ==> ipv6_packet_fault(packet)
            == Some(invalid_packet("IPv6 raw socket received an invalid fake-TCP packet"@)),
        packet.len() >= 60 && packet[0] / 16 == 6 && packet[6] == 6 ==> ipv6_packet_fault(packet)
            == if packet[4] * 256 + packet[5] + 40 == packet.len() {
            None
        } else {
            Some(invalid_packet("IPv6 fake-TCP packet has an invalid payload length"@))
        },
{
}

/// A packet that is not as it has to be is told as data that is not valid, with
/// the message as it is.
pub proof fn refusals_keep_their_message(message: Seq<char>)
    ensures
        invalid_packet(message).kind == ErrorKind::InvalidData,
        invalid_packet(message).message == message,
        IPPROTO_RAW == 255,
{
}

} // verus!
