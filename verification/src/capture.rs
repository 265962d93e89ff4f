//! Buffers of captured frames, as the Berkeley packet filter of Darwin hands
//! them out.
//!
//! A buffer holds records. A record is a header, the captured frame and padding
//! to the next multiple of four; the last record may come without padding. The
//! header holds the length of the captured frame and its own length, in host
//! byte order.

use std::collections::VecDeque;

use vstd::prelude::*;
use vstd::slice::{slice_subrange, slice_to_vec};

use crate::error::{Error, ErrorKind, ErrorView};
use crate::frame::{
    ethernet_frames_hold_packets_behind_their_type, frame_packet,
    ipv4_packets_are_cut_to_their_length, ipv4_sources_are_read_byte_by_byte,
    ipv6_packets_are_cut_to_their_length, ipv6_sources_are_read_byte_by_byte,
    is_expected_remote_packet, link_payload, normalized, normalizing_settles,
    packet_from_link_frame, source_endpoint, LinkType,
};
use crate::net::{SocketAddr, SocketAddrV4, SocketAddrV6};
use crate::wire::{
    big_endian, host16, host32, host_fields_are_little_endian, read_host16, read_host32,
};

verus! {

/// Where a record header holds the length of the captured frame.
pub const BPF_CAPLEN_OFFSET: usize = 8;

/// Where a record header holds its own length.
pub const BPF_HDRLEN_OFFSET: usize = 16;

/// The shortest record header.
pub const BPF_HEADER_MIN_SIZE: usize = 18;

/// The next multiple of four.
pub open spec fn word_aligned(value: int) -> int {
    (value + 3) / 4 * 4
}

/// Rounds up to a multiple of four.
pub fn bpf_word_align(value: usize) -> (aligned: usize)
    requires
        value + 3 <= usize::MAX,
    ensures
        aligned == word_aligned(value as int),
        aligned % 4 == 0,
        value <= aligned < value + 4,
{
    (value + 3) / 4 * 4
}

/// What can be wrong with a buffer of records.
pub enum RecordFault {
    /// The buffer ends inside a record header.
    TruncatedHeader,
    /// A header is too short, or its frame reaches over the end of the buffer.
    Boundaries,
    /// The buffer ends inside the padding of a record.
    Alignment,
}

impl RecordFault {
    /// The failure that reports the fault.
    pub open spec fn error(self) -> ErrorView {
        ErrorView {
            kind: ErrorKind::InvalidData,
            message: match self {
                RecordFault::TruncatedHeader => "truncated macOS BPF record header"@,
                RecordFault::Boundaries => "invalid macOS BPF record boundaries"@,
                RecordFault::Alignment => "invalid macOS BPF record alignment"@,
            },
        }
    }
}

/// The TCP/IP packet in the frame, when it comes from the remote endpoint: a
/// sequence of one packet or of none.
#[verifier::opaque]
pub open spec fn accepted(link_type: LinkType, frame: Seq<u8>, remote: SocketAddr) -> Seq<
    Seq<u8>,
> {
    match frame_packet(link_type, frame) {
        Some(packet) => if source_endpoint(packet) == Some(remote) {
            seq![packet]
        } else {
            Seq::empty()
        },
        None => Seq::empty(),
    }
}

/// Whether the packet comes from the remote endpoint and is cut to the length
/// that its own header gives.
pub open spec fn comes_from(packet: Seq<u8>, remote: SocketAddr) -> bool {
    source_endpoint(packet) == Some(remote) && normalized(packet) == Some(packet)
}

/// The packets with the outcome of what follows them.
pub open spec fn followed_by(
    packets: Seq<Seq<u8>>,
    rest: Result<Seq<Seq<u8>>, RecordFault>,
) -> Result<Seq<Seq<u8>>, RecordFault> {
    match rest {
        Ok(more) => Ok(packets + more),
        Err(fault) => Err(fault),
    }
}

/// Packets in front of packets in front of an outcome.
proof fn lemma_followed_twice(
    first: Seq<Seq<u8>>,
    second: Seq<Seq<u8>>,
    rest: Result<Seq<Seq<u8>>, RecordFault>,
)
    ensures
        followed_by(first, followed_by(second, rest)) == followed_by(first + second, rest),
{
    if let Ok(more) = rest {
        assert(first + (second + more) == (first + second) + more);
    }
}

/// Where the frame of the record at `at` starts and ends.
pub open spec fn frame_bounds(records: Seq<u8>, at: int) -> Result<(int, int), RecordFault> {
    let header_len = host16(records, at + BPF_HDRLEN_OFFSET);
    let start = at + header_len;
    let end = start + host32(records, at + BPF_CAPLEN_OFFSET);
    if records.len() - at < BPF_HEADER_MIN_SIZE {
        Err(RecordFault::TruncatedHeader)
    } else if header_len < BPF_HEADER_MIN_SIZE || end > records.len() {
        Err(RecordFault::Boundaries)
    } else {
        Ok((start, end))
    }
}

/// Where the record behind a frame that ends at `end` starts, in a buffer of
/// length `len`. The last frame may end the buffer without padding.
pub open spec fn next_record(len: int, end: int) -> Result<int, RecordFault> {
    if word_aligned(end) <= len {
        Ok(word_aligned(end))
    } else if end == len {
        Ok(len)
    } else {
        Err(RecordFault::Alignment)
    }
}

/// The accepted packets of the records from `at` on, in the order of the
/// records.
pub open spec fn decoded(
    records: Seq<u8>,
    at: int,
    link_type: LinkType,
    remote: SocketAddr,
) -> Result<Seq<Seq<u8>>, RecordFault>
    decreases records.len() - at,
{
    if at < 0 || at >= records.len() {
        Ok(Seq::empty())
    } else {
        match frame_bounds(records, at) {
            Err(fault) => Err(fault),
            Ok((start, end)) => match next_record(records.len() as int, end) {
                Err(fault) => Err(fault),
                Ok(next) => followed_by(
                    accepted(link_type, records.subrange(start, end), remote),
                    decoded(records, next, link_type, remote),
                ),
            },
        }
    }
}

/// The contents of the packets.
pub open spec fn contents(packets: Seq<Vec<u8>>) -> Seq<Seq<u8>> {
    packets.map_values(|packet: Vec<u8>| packet@)
}

/// Appends the packet in the frame, when it comes from the remote endpoint.
fn push_accepted(
    packets: &mut Vec<Vec<u8>>,
    link_type: LinkType,
    frame: &[u8],
    remote_addr: SocketAddr,
)
    ensures
        contents(final(packets)@) == contents(old(packets)@) + accepted(
            link_type,
            frame@,
            remote_addr,
        ),
{
    let ghost before = packets@;
    match packet_from_link_frame(link_type, frame) {
        Some(packet) => {
            if is_expected_remote_packet(packet, remote_addr) {
                packets.push(slice_to_vec(packet));
            }
        },
        None => {},
    }
    proof {
        reveal(accepted);
    }
    assert(contents(packets@) == contents(before) + accepted(link_type, frame@, remote_addr));
}

/// Reads the header of the record at `at`.
fn read_frame_bounds(records: &[u8], at: usize) -> (result: Result<(usize, usize), Error>)
    requires
        at < records.len(),
    ensures
        match frame_bounds(records@, at as int) {
            Ok((start, end)) => (result matches Ok(bounds) && bounds.0 == start && bounds.1 == end)
                && at < start <= end <= records@.len(),
            Err(fault) => result matches Err(error) && error@ == fault.error(),
        },
{
    if records.len() - at < BPF_HEADER_MIN_SIZE {
        return Err(Error::new(ErrorKind::InvalidData, "truncated macOS BPF record header"));
    }
    let header_len: usize = read_host16(records, at + BPF_HDRLEN_OFFSET) as usize;
    let caplen: usize = read_host32(records, at + BPF_CAPLEN_OFFSET) as usize;
    if header_len < BPF_HEADER_MIN_SIZE || header_len > records.len() - at || caplen > records.len()
        - at - header_len {
        return Err(Error::new(ErrorKind::InvalidData, "invalid macOS BPF record boundaries"));
    }
    Ok((at + header_len, at + header_len + caplen))
}

/// Finds the record behind a frame that ends at `end`.
fn find_next_record(len: usize, end: usize) -> (result: Result<usize, Error>)
    requires
        end <= len,
    ensures
        match next_record(len as int, end as int) {
            Ok(next) => (result matches Ok(found) && found == next) && end <= next <= len,
            Err(fault) => result matches Err(error) && error@ == fault.error(),
        },
{
    let padding: usize = (4 - end % 4) % 4;
    if padding <= len - end {
        Ok(bpf_word_align(end))
    } else if end == len {
        Ok(len)
    } else {
        Err(Error::new(ErrorKind::InvalidData, "invalid macOS BPF record alignment"))
    }
}

/// Overwrites the front of the output with the bytes.
fn copy_front(output: &mut [u8], bytes: &[u8])
    requires
        bytes@.len() <= old(output)@.len(),
    ensures
        final(output)@ == bytes@ + old(output)@.skip(bytes@.len() as int),
{
    let ghost before = output@;
    let mut index: usize = 0;
    while index < bytes.len()
        invariant
            index <= bytes.len() <= before.len(),
            output@ == bytes@.take(index as int) + before.skip(index as int),
        decreases bytes.len() - index,
    {
        output[index] = bytes[index];
        index += 1;
        assert(output@ == bytes@.take(index as int) + before.skip(index as int));
    }
    assert(bytes@.take(index as int) == bytes@);
}

/// The capture of one interface: what it accepts, and the packets that were
/// captured and not handed out yet.
pub struct BpfCapture {
    pub buffer_len: usize,
    pub link_type: LinkType,
    pub remote_addr: SocketAddr,
    pub pending: VecDeque<Vec<u8>>,
}

/// How many of the packets at the front are too long for the room.
pub open spec fn too_long(packets: Seq<Seq<u8>>, room: nat) -> nat
    decreases packets.len(),
{
    if packets.len() > 0 && packets[0].len() > room {
        1 + too_long(packets.drop_first(), room)
    } else {
        0
    }
}

/// Whether the numbers are the lengths of the packets.
pub open spec fn are_lengths(lengths: Seq<usize>, packets: Seq<Seq<u8>>) -> bool {
    &&& lengths.len() == packets.len()
    &&& forall|i: int| 0 <= i < packets.len() ==> #[trigger] lengths[i] == packets[i].len()
}

/// What follows an attempt to get the next packet.
pub enum ReadStep {
    /// A packet of this size stands in the output; packets of these lengths were
    /// dropped before it.
    Deliver { size: usize, dropped: Vec<usize> },
    /// No packet waits, the device is to be read into a buffer of this length;
    /// packets of these lengths were dropped.
    Read { buffer_len: usize, dropped: Vec<usize> },
    /// Reading failed.
    Fail(Error),
}

impl BpfCapture {
    /// The packets that wait, in the order in which they go out.
    pub open spec fn waiting(&self) -> Seq<Seq<u8>> {
        contents(self.pending@)
    }

    /// Whether only packets of the remote endpoint wait.
    pub open spec fn only_from_remote(&self) -> bool {
        forall|i: int|
            0 <= i < self.waiting().len() ==> comes_from(
                #[trigger] self.waiting()[i],
                self.remote_addr,
            )
    }

    /// The packets that wait when the device was read with this outcome, or the
    /// failure. The outcome is missing when the device was not read, and holds no
    /// records when there were none to read.
    pub open spec fn queued(&self, read: Option<Result<Option<Vec<u8>>, Error>>) -> Result<
        Seq<Seq<u8>>,
        ErrorView,
    > {
        match read {
            None => Ok(self.waiting()),
            Some(Ok(None)) => Ok(self.waiting()),
            Some(Ok(Some(records))) => match decoded(
                records@,
                0,
                self.link_type,
                self.remote_addr,
            ) {
                Ok(packets) => Ok(self.waiting() + packets),
                Err(fault) => Err(fault.error()),
            },
            Some(Err(error)) => Err(error@),
        }
    }

    /// The same capture, up to the packets that wait.
    pub open spec fn same_source(&self, other: &BpfCapture) -> bool {
        &&& self.buffer_len == other.buffer_len
        &&& self.link_type == other.link_type
        &&& self.remote_addr == other.remote_addr
    }

    /// A capture without packets.
    pub fn new(buffer_len: usize, link_type: LinkType, remote_addr: SocketAddr) -> (capture:
        BpfCapture)
        ensures
            capture.buffer_len == buffer_len,
            capture.link_type == link_type,
            capture.remote_addr == remote_addr,
            capture.waiting() == Seq::<Seq<u8>>::empty(),
            capture.only_from_remote(),
    {
        let pending: VecDeque<Vec<u8>> = VecDeque::new();
        assert(contents(pending@) == Seq::<Seq<u8>>::empty());
        BpfCapture { buffer_len, link_type, remote_addr, pending }
    }

    /// Copies the first waiting packet that fits to the front of the output and
    /// returns its length. The packets before it, too long for the output, are
    /// dropped.
    pub fn copy_pending_packet(&mut self, output: &mut [u8]) -> (size: Option<usize>)
        ensures
            final(self).same_source(old(self)),
            ({
                let skipped = too_long(old(self).waiting(), old(output)@.len());
                if skipped < old(self).waiting().len() {
                    let packet = old(self).waiting()[skipped as int];
                    &&& size == Some(packet.len() as usize)
                    &&& packet.len() <= old(output)@.len()
                    &&& final(output)@ == packet + old(output)@.skip(packet.len() as int)
                    &&& final(self).waiting() == old(self).waiting().skip(skipped as int + 1)
                } else {
                    &&& size is None
                    &&& final(output)@ == old(output)@
                    &&& final(self).waiting() == Seq::<Seq<u8>>::empty()
                }
            }),
            old(self).only_from_remote() ==> final(self).only_from_remote(),
            old(self).only_from_remote() ==> (size matches Some(len) ==> comes_from(
                final(output)@.take(len as int),
                old(self).remote_addr,
            )),
    {
        let ghost all = self.waiting();
        let ghost room = output@.len();
        let ghost mut dropped: nat = 0;
        assert(all.skip(0) == all);
        loop
            invariant
                self.same_source(old(self)),
                output@ == old(output)@,
                room == output@.len(),
                dropped <= all.len(),
                self.waiting() == all.skip(dropped as int),
                too_long(all, room) == dropped + too_long(all.skip(dropped as int), room),
                all == old(self).waiting(),
            decreases self.pending@.len(),
        {
            let ghost before = self.waiting();
            match self.pending.pop_front() {
                None => {
                    assert(before.len() == 0);
                    assert(self.waiting() == Seq::<Seq<u8>>::empty());
                    return None;
                },
                Some(packet) => {
                    proof {
                        assert(before[0] == packet@);
                        assert(self.waiting() == before.drop_first());
                        assert(before.drop_first() == all.skip(dropped as int + 1));
                        assert(all[dropped as int] == packet@);
                    }
                    if packet.len() > output.len() {
                        proof {
                            dropped = dropped + 1;
                        }
                    } else {
                        copy_front(output, packet.as_slice());
                        assert(output@.take(packet@.len() as int) == all[dropped as int]);
                        return Some(packet.len());
                    }
                },
            }
        }
    }

    /// Takes over a buffer of records: its accepted packets wait behind the
    /// others. After a fault in the buffer nothing of it waits.
    pub fn take_records(&mut self, records: &[u8]) -> (result: Result<(), Error>)
        ensures
            final(self).same_source(old(self)),
            match decoded(records@, 0, old(self).link_type, old(self).remote_addr) {
                Ok(packets) => result is Ok && final(self).waiting() == old(self).waiting()
                    + packets,
                Err(fault) => (result matches Err(error) && error@ == fault.error())
                    && final(self).waiting() == old(self).waiting(),
            },
            old(self).only_from_remote() ==> final(self).only_from_remote(),
    {
        proof {
            decoded_packets_come_from_the_remote(records@, 0, self.link_type, self.remote_addr);
        }
        match BpfCapture::decode_records(records, self.link_type, self.remote_addr) {
            Ok(packets) => {
                let ghost before = self.waiting();
                let ghost found = packets@;
                for packet in iter: packets
                    invariant
                        iter.seq() == found,
                        self.same_source(old(self)),
                        self.waiting() == before + contents(found.take(iter.index())),
                {
                    let ghost so_far = self.pending@;
                    self.pending.push_back(packet);
                    proof {
                        assert(self.waiting() == contents(so_far).push(packet@));
                        assert(contents(found.take(iter.index() + 1)) == contents(
                            found.take(iter.index()),
                        ).push(packet@));
                    }
                }
                assert(found.take(found.len() as int) == found);
                Ok(())
            },
            Err(error) => Err(error),
        }
    }

    /// The lengths of the packets at the front that are too long for the room.
    fn oversized(&self, room: usize) -> (lengths: Vec<usize>)
        ensures
            are_lengths(
                lengths@,
                self.waiting().take(too_long(self.waiting(), room as nat) as int),
            ),
            too_long(self.waiting(), room as nat) <= self.waiting().len(),
    {
        let ghost all = self.waiting();
        let mut lengths: Vec<usize> = Vec::new();
        let mut at: usize = 0;
        assert(all.skip(0) == all);
        while at < self.pending.len() && self.pending[at].len() > room
            invariant
                all == self.waiting(),
                at <= self.pending@.len(),
                too_long(all, room as nat) == at + too_long(all.skip(at as int), room as nat),
                are_lengths(lengths@, all.take(at as int)),
            decreases self.pending@.len() - at,
        {
            let len: usize = self.pending[at].len();
            lengths.push(len);
            proof {
                assert(all[at as int].len() == len);
                assert(all.skip(at as int).drop_first() == all.skip(at + 1));
                assert(all.take(at + 1) == all.take(at as int).push(all[at as int]));
            }
            at += 1;
        }
        proof {
            if at < all.len() {
                assert(all.skip(at as int)[0] == all[at as int]);
            }
            assert(too_long(all.skip(at as int), room as nat) == 0);
        }
        lengths
    }

    /// Goes on towards the next packet, with the outcome of reading the device,
    /// if it was read. A failure is passed on. Records that were read wait behind
    /// the others; the first waiting packet that fits goes out, and without one
    /// the device is to be read.
    pub fn next_packet(
        &mut self,
        output: &mut [u8],
        read: Option<Result<Option<Vec<u8>>, Error>>,
    ) -> (step: ReadStep)
        ensures
            final(self).same_source(old(self)),
            old(self).only_from_remote() ==> final(self).only_from_remote(),
            match old(self).queued(read) {
                Err(failure) => {
                    &&& step matches ReadStep::Fail(error) && error@ == failure
                    &&& final(output)@ == old(output)@
                    &&& final(self).waiting() == old(self).waiting()
                },
                Ok(queue) => {
                    let skipped = too_long(queue, old(output)@.len());
                    if skipped < queue.len() {
                        let packet = queue[skipped as int];
                        &&& step matches ReadStep::Deliver { size, dropped } && size
                            == packet.len() && are_lengths(
                            dropped@,
                            queue.take(skipped as int),
                        )
                        &&& packet.len() <= old(output)@.len()
                        &&& final(output)@ == packet + old(output)@.skip(packet.len() as int)
                        &&& final(self).waiting() == queue.skip(skipped as int + 1)
                        &&& old(self).only_from_remote() ==> comes_from(
                            packet,
                            old(self).remote_addr,
                        )
                    } else {
                        &&& step matches ReadStep::Read { buffer_len, dropped } && buffer_len
                            == old(self).buffer_len && are_lengths(dropped@, queue)
                        &&& final(output)@ == old(output)@
                        &&& final(self).waiting() == Seq::<Seq<u8>>::empty()
                    }
                },
            },
    {
        match read {
            None => {},
            Some(Ok(None)) => {},
            Some(Ok(Some(records))) => {
                if let Err(error) = self.take_records(records.as_slice()) {
                    return ReadStep::Fail(error);
                }
            },
            Some(Err(error)) => {
                return ReadStep::Fail(error);
            },
        }
        let ghost queue = self.waiting();
        let ghost skipped = too_long(queue, output@.len());
        let dropped = self.oversized(output.len());
        match self.copy_pending_packet(output) {
            Some(size) => {
                assert(output@.take(size as int) == queue[skipped as int]);
                ReadStep::Deliver { size, dropped }
            },
            None => {
                assert(queue.take(queue.len() as int) == queue);
                ReadStep::Read { buffer_len: self.buffer_len, dropped }
            },
        }
    }

    /// Splits a buffer of records into the packets that come from the remote
    /// endpoint.
    pub fn decode_records(records: &[u8], link_type: LinkType, remote_addr: SocketAddr) -> (result:
        Result<Vec<Vec<u8>>, Error>)
        ensures
            match decoded(records@, 0, link_type, remote_addr) {
                Ok(packets) => result matches Ok(found) && contents(found@) == packets,
                Err(fault) => result matches Err(error) && error@ == fault.error(),
            },
    {
        let mut offset: usize = 0;
        let mut packets: Vec<Vec<u8>> = Vec::new();
        assert(contents(packets@) == Seq::<Seq<u8>>::empty());
        while offset < records.len()
            invariant
                offset <= records.len(),
                decoded(records@, 0, link_type, remote_addr) == followed_by(
                    contents(packets@),
                    decoded(records@, offset as int, link_type, remote_addr),
                ),
            decreases records.len() - offset,
        {
            let (start, end) = match read_frame_bounds(records, offset) {
                Ok(bounds) => bounds,
                Err(error) => {
                    return Err(error);
                },
            };
            let next: usize = match find_next_record(records.len(), end) {
                Ok(next) => next,
                Err(error) => {
                    return Err(error);
                },
            };
            let frame = slice_subrange(records, start, end);
            let ghost before = contents(packets@);
            push_accepted(&mut packets, link_type, frame, remote_addr);
            proof {
                lemma_followed_twice(
                    before,
                    accepted(link_type, frame@, remote_addr),
                    decoded(records@, next as int, link_type, remote_addr),
                );
            }
            offset = next;
        }
        assert(contents(packets@) + Seq::<Seq<u8>>::empty() == contents(packets@));
        Ok(packets)
    }
}

/// A record as the capture device writes it.
pub struct CapturedRecord {
    pub header: Seq<u8>,
    pub frame: Seq<u8>,
    pub padding: Seq<u8>,
}

impl CapturedRecord {
    /// The header gives its own length, in the two bytes at 16, and the length of
    /// the frame, in the four at 8; the last byte of each weighs most.
    #[verifier::opaque]
    pub open spec fn header_matches(self) -> bool {
        &&& self.header.len() >= 18
        &&& big_endian(self.header.subrange(16, 18).reverse()) == self.header.len()
        &&& big_endian(self.header.subrange(8, 12).reverse()) == self.frame.len()
    }

    /// The header is right and the padding reaches to the next multiple of four.
    pub open spec fn complete(self) -> bool {
        &&& self.header_matches()
        &&& self.bytes().len() == word_aligned((self.header.len() + self.frame.len()) as int)
    }

    pub open spec fn bytes(self) -> Seq<u8> {
        self.header + self.frame + self.padding
    }
}

/// The records one behind the other.
pub open spec fn encoded(records: Seq<CapturedRecord>) -> Seq<u8>
    decreases records.len(),
{
    if records.len() == 0 {
        Seq::empty()
    } else {
        records[0].bytes() + encoded(records.drop_first())
    }
}

/// The accepted packets of the records, in order.
pub open spec fn accepted_from(
    records: Seq<CapturedRecord>,
    link_type: LinkType,
    remote: SocketAddr,
) -> Seq<Seq<u8>>
    decreases records.len(),
{
    if records.len() == 0 {
        Seq::empty()
    } else {
        accepted(link_type, records[0].frame, remote) + accepted_from(
            records.drop_first(),
            link_type,
            remote,
        )
    }
}

/// A record is read the same way wherever it stands.
proof fn lemma_bounds_behind(front: Seq<u8>, back: Seq<u8>, at: int)
    requires
        0 <= at < back.len(),
    ensures
        match frame_bounds(back, at) {
            Ok((start, end)) => {
                &&& frame_bounds(front + back, front.len() + at) == Ok::<(int, int), RecordFault>(
                    (front.len() + start, front.len() + end),
                )
                &&& at < start <= end <= back.len()
                &&& (front + back).subrange(front.len() + start, front.len() + end)
                    == back.subrange(start, end)
            },
            Err(fault) => frame_bounds(front + back, front.len() + at) == Err::<
                (int, int),
                RecordFault,
            >(fault),
        },
{
    let all = front + back;
    let shift = front.len() as int;
    if back.len() - at >= BPF_HEADER_MIN_SIZE {
        assert(all[shift + at + 16] == back[at + 16]);
        assert(all[shift + at + 17] == back[at + 17]);
        assert(all[shift + at + 8] == back[at + 8]);
        assert(all[shift + at + 9] == back[at + 9]);
        assert(all[shift + at + 10] == back[at + 10]);
        assert(all[shift + at + 11] == back[at + 11]);
        if let Ok((start, end)) = frame_bounds(back, at) {
            assert(all.subrange(shift + start, shift + end) == back.subrange(start, end));
        }
    }
}

/// A whole number of words in front moves the next multiple of four by as much.
proof fn lemma_aligned_behind(shift: int, value: int)
    requires
        shift % 4 == 0,
    ensures
        word_aligned(shift + value) == shift + word_aligned(value),
{
    vstd::arithmetic::div_mod::lemma_hoist_over_denominator(value + 3, shift / 4, 4);
}

/// The record behind a frame is found the same way wherever it stands.
proof fn lemma_next_behind(shift: int, len: int, end: int)
    requires
        shift >= 0,
        shift % 4 == 0,
        0 <= end <= len,
    ensures
        match next_record(len, end) {
            Ok(next) => next_record(shift + len, shift + end) == Ok::<int, RecordFault>(
                shift + next,
            ) && end <= next <= len,
            Err(fault) => next_record(shift + len, shift + end) == Err::<int, RecordFault>(fault),
        },
{
    lemma_aligned_behind(shift, end);
}

/// What stands behind a whole number of words is decoded as if it stood alone.
proof fn lemma_decoded_behind(
    front: Seq<u8>,
    back: Seq<u8>,
    at: int,
    link_type: LinkType,
    remote: SocketAddr,
)
    requires
        front.len() % 4 == 0,
        at >= 0,
    ensures
        decoded(front + back, front.len() + at, link_type, remote) == decoded(
            back,
            at,
            link_type,
            remote,
        ),
    decreases back.len() - at,
{
    if at < back.len() {
        lemma_bounds_behind(front, back, at);
        if let Ok((start, end)) = frame_bounds(back, at) {
            lemma_next_behind(front.len() as int, back.len() as int, end);
            if let Ok(next) = next_record(back.len() as int, end) {
                lemma_decoded_behind(front, back, next, link_type, remote);
            }
        }
    }
}

/// A record is read the same way whatever stands behind it.
proof fn lemma_bounds_before(front: Seq<u8>, back: Seq<u8>, at: int)
    requires
        0 <= at < front.len(),
        frame_bounds(front, at) is Ok,
    ensures
        frame_bounds(front + back, at) == frame_bounds(front, at),
        ({
            let (start, end) = frame_bounds(front, at)->Ok_0;
            &&& at < start <= end <= front.len()
            &&& (front + back).subrange(start, end) == front.subrange(start, end)
        }),
{
    let all = front + back;
    assert(all[at + 16] == front[at + 16]);
    assert(all[at + 17] == front[at + 17]);
    assert(all[at + 8] == front[at + 8]);
    assert(all[at + 9] == front[at + 9]);
    assert(all[at + 10] == front[at + 10]);
    assert(all[at + 11] == front[at + 11]);
    let (start, end) = frame_bounds(front, at)->Ok_0;
    assert(all.subrange(start, end) == front.subrange(start, end));
}

/// The records at the front are decoded whatever stands behind them.
proof fn lemma_decoded_before(
    front: Seq<u8>,
    back: Seq<u8>,
    at: int,
    link_type: LinkType,
    remote: SocketAddr,
)
    requires
        front.len() % 4 == 0,
        0 <= at <= front.len(),
        decoded(front, at, link_type, remote) is Ok,
    ensures
        decoded(front + back, at, link_type, remote) == followed_by(
            decoded(front, at, link_type, remote)->Ok_0,
            decoded(front + back, front.len() as int, link_type, remote),
        ),
    decreases front.len() - at,
{
    let all = front + back;
    let tail = decoded(all, front.len() as int, link_type, remote);
    if at == front.len() {
        if tail is Ok {
            assert(Seq::<Seq<u8>>::empty() + tail->Ok_0 == tail->Ok_0);
        }
    } else {
        lemma_bounds_before(front, back, at);
        let (start, end) = frame_bounds(front, at)->Ok_0;
        let next = word_aligned(end);
        assert(next_record(front.len() as int, end) == Ok::<int, RecordFault>(next));
        assert(next_record(all.len() as int, end) == Ok::<int, RecordFault>(next));
        lemma_decoded_before(front, back, next, link_type, remote);
        lemma_followed_twice(
            accepted(link_type, front.subrange(start, end), remote),
            decoded(front, next, link_type, remote)->Ok_0,
            tail,
        );
    }
}

/// Decoding works record by record: a buffer whose length is a multiple of four
/// and that decodes without fault gives its packets, and what follows it gives
/// the outcome that it gives alone.
pub proof fn decoding_splits_at_words(
    front: Seq<u8>,
    back: Seq<u8>,
    link_type: LinkType,
    remote: SocketAddr,
)
    requires
        front.len() % 4 == 0,
        decoded(front, 0, link_type, remote) is Ok,
    ensures
        decoded(front + back, 0, link_type, remote) == followed_by(
            decoded(front, 0, link_type, remote)->Ok_0,
            decoded(back, 0, link_type, remote),
        ),
{
    lemma_decoded_before(front, back, 0, link_type, remote);
    lemma_decoded_behind(front, back, 0, link_type, remote);
}

/// One record alone, with its padding or without.
proof fn lemma_single_record(
    record: CapturedRecord,
    bytes: Seq<u8>,
    link_type: LinkType,
    remote: SocketAddr,
)
    requires
        record.header_matches(),
        bytes == record.header + record.frame || record.complete() && bytes == record.bytes(),
    ensures
        decoded(bytes, 0, link_type, remote) == Ok::<Seq<Seq<u8>>, RecordFault>(
            accepted(link_type, record.frame, remote),
        ),
{
    reveal(CapturedRecord::header_matches);
    host_fields_are_little_endian(record.header, 16);
    host_fields_are_little_endian(record.header, 8);
    assert(bytes[16] == record.header[16]);
    assert(bytes[17] == record.header[17]);
    assert(bytes[8] == record.header[8]);
    assert(bytes[9] == record.header[9]);
    assert(bytes[10] == record.header[10]);
    assert(bytes[11] == record.header[11]);
    let start = record.header.len() as int;
    let end = start + record.frame.len();
    assert(bytes.subrange(start, end) == record.frame);
    let packets = accepted(link_type, record.frame, remote);
    assert(packets + Seq::<Seq<u8>>::empty() == packets);
    assert(next_record(bytes.len() as int, end) == Ok::<int, RecordFault>(bytes.len() as int));
    assert(decoded(bytes, bytes.len() as int, link_type, remote) == Ok::<
        Seq<Seq<u8>>,
        RecordFault,
    >(Seq::empty()));
}

/// Reading gives back what the capture device wrote: from any number of complete
/// records, the accepted packets of their frames, in order, none left out and
/// none added.
pub proof fn decoding_inverts_encoding(
    records: Seq<CapturedRecord>,
    link_type: LinkType,
    remote: SocketAddr,
)
    requires
        forall|i: int| 0 <= i < records.len() ==> (#[trigger] records[i]).complete(),
    ensures
        encoded(records).len() % 4 == 0,
        decoded(encoded(records), 0, link_type, remote) == Ok::<Seq<Seq<u8>>, RecordFault>(
            accepted_from(records, link_type, remote),
        ),
    decreases records.len(),
{
    if records.len() > 0 {
        let first = records[0];
        assert(first.complete());
        lemma_single_record(first, first.bytes(), link_type, remote);
        decoding_inverts_encoding(records.drop_first(), link_type, remote);
        decoding_splits_at_words(
            first.bytes(),
            encoded(records.drop_first()),
            link_type,
            remote,
        );
    }
}

/// The last record of a buffer may come without its padding.
pub proof fn last_record_needs_no_padding(
    records: Seq<CapturedRecord>,
    last: CapturedRecord,
    link_type: LinkType,
    remote: SocketAddr,
)
    requires
        forall|i: int| 0 <= i < records.len() ==> (#[trigger] records[i]).complete(),
        last.header_matches(),
    ensures
        decoded(encoded(records) + (last.header + last.frame), 0, link_type, remote) == Ok::<
            Seq<Seq<u8>>,
            RecordFault,
        >(accepted_from(records, link_type, remote) + accepted(link_type, last.frame, remote)),
{
    decoding_inverts_encoding(records, link_type, remote);
    lemma_single_record(last, last.header + last.frame, link_type, remote);
    decoding_splits_at_words(encoded(records), last.header + last.frame, link_type, remote);
}

/// Only packets of the remote endpoint come out of a buffer, each cut to the
/// length that its own header gives.
pub proof fn decoded_packets_come_from_the_remote(
    records: Seq<u8>,
    at: int,
    link_type: LinkType,
    remote: SocketAddr,
)
    ensures
        decoded(records, at, link_type, remote) matches Ok(packets) ==> forall|i: int|
            0 <= i < packets.len() ==> comes_from(#[trigger] packets[i], remote),
    decreases records.len() - at,
{
    if decoded(records, at, link_type, remote) is Ok && 0 <= at < records.len() {
        let start = at + host16(records, at + BPF_HDRLEN_OFFSET);
        let end = start + host32(records, at + BPF_CAPLEN_OFFSET);
        let frame = records.subrange(start, end);
        let here = accepted(link_type, frame, remote);
        assert forall|i: int| 0 <= i < here.len() implies comes_from(
            #[trigger] here[i],
            remote,
        ) by {
            reveal(accepted);
            normalizing_settles(link_payload(link_type, frame).unwrap(), Seq::empty());
        }
        let next = next_record(records.len() as int, end)->Ok_0;
        decoded_packets_come_from_the_remote(records, next, link_type, remote);
    }
}

/// What goes out is the first waiting packet that fits: every packet before it
/// is too long.
pub proof fn the_first_packet_that_fits_goes_out(packets: Seq<Seq<u8>>, room: nat)
    ensures
        too_long(packets, room) <= packets.len(),
        forall|i: int|
            0 <= i < too_long(packets, room) ==> (#[trigger] packets[i]).len() > room,
        too_long(packets, room) < packets.len() ==> packets[too_long(
            packets,
            room,
        ) as int].len() <= room,
    decreases packets.len(),
{
    if packets.len() > 0 && packets[0].len() > room {
        let rest = packets.drop_first();
        the_first_packet_that_fits_goes_out(rest, room);
        assert forall|i: int| 0 <= i < too_long(packets, room) implies (
        #[trigger] packets[i]).len() > room by {
            if i > 0 {
                assert(packets[i] == rest[i - 1]);
            }
        }
    }
}

/// The packets that go out one after the other when nothing more is read.
pub open spec fn drained(queue: Seq<Seq<u8>>, room: nat) -> Seq<Seq<u8>>
    decreases queue.len(),
{
    let skipped = too_long(queue, room);
    if skipped < queue.len() {
        seq![queue[skipped as int]] + drained(queue.skip(skipped as int + 1), room)
    } else {
        Seq::empty()
    }
}

/// The packets that fit into the room.
pub open spec fn fitting(queue: Seq<Seq<u8>>, room: nat) -> Seq<Seq<u8>>
    decreases queue.len(),
{
    if queue.len() == 0 {
        Seq::empty()
    } else if queue[0].len() <= room {
        seq![queue[0]] + fitting(queue.drop_first(), room)
    } else {
        fitting(queue.drop_first(), room)
    }
}

/// Every waiting packet that fits goes out, in order, and nothing else does.
pub proof fn every_fitting_packet_goes_out(queue: Seq<Seq<u8>>, room: nat)
    ensures
        drained(queue, room) == fitting(queue, room),
    decreases queue.len(),
{
    if queue.len() > 0 {
        let rest = queue.drop_first();
        every_fitting_packet_goes_out(rest, room);
        if queue[0].len() <= room {
            assert(queue.skip(1) == rest);
        } else {
            let skipped = too_long(rest, room);
            if skipped < rest.len() {
                assert(queue[skipped as int + 1] == rest[skipped as int]);
                assert(queue.skip(skipped as int + 2) == rest.skip(skipped as int + 1));
            }
        }
    }
}

/// Rounding up gives the next multiple of four.
pub proof fn words_are_four_bytes_long(value: int)
    requires
        0 <= value,
    ensures
        word_aligned(value) % 4 == 0,
        value <= word_aligned(value) < value + 4,
{
}

/// The frame of a record stands where the header says: behind as many bytes as
/// the two at 16 give, and as long as the four at 8 give, the last byte of each
/// weighing most. A header that is cut off or too short, and a frame that does
/// not end within the buffer, are faults.
pub proof fn headers_place_their_frame(records: Seq<u8>, at: int)
    requires
        0 <= at < records.len(),
    ensures
        records.len() - at < 18 ==> frame_bounds(records, at) == Err::<(int, int), RecordFault>(
            RecordFault::TruncatedHeader,
        ),
        records.len() - at >= 18 ==> {
            let header_len = big_endian(records.subrange(at + 16, at + 18).reverse());
            let frame_len = big_endian(records.subrange(at + 8, at + 12).reverse());
            frame_bounds(records, at) == if header_len < 18 || at + header_len + frame_len
                > records.len() {
                Err::<(int, int), RecordFault>(RecordFault::Boundaries)
            } else {
                Ok::<(int, int), RecordFault>((at + header_len, at + header_len + frame_len))
            }
        },
{
    host_fields_are_little_endian(records, at + 16);
    host_fields_are_little_endian(records, at + 8);
}

/// The next record stands at the next multiple of four; only behind a frame that
/// ends the buffer may it be missing together with its padding.
pub proof fn records_stand_at_multiples_of_four(len: int, end: int)
    requires
        0 <= end <= len,
    ensures
        match next_record(len, end) {
            Ok(next) => end <= next <= len && (next % 4 == 0 && next < end + 4 || next == end && end
                == len),
            Err(fault) => fault == RecordFault::Alignment && end < len && forall|i: int|
                end <= i <= len ==> #[trigger] (i % 4) != 0,
        },
{
}

/// The outcome of a buffer is that of its first record and that of the rest: a
/// fault of either is the outcome, and otherwise the packet of the first record,
/// if it is accepted, comes before those of the rest.
pub proof fn records_are_decoded_one_by_one(
    records: Seq<u8>,
    at: int,
    link_type: LinkType,
    remote: SocketAddr,
)
    requires
        0 <= at <= records.len(),
    ensures
        at == records.len() ==> decoded(records, at, link_type, remote) == Ok::<
            Seq<Seq<u8>>,
            RecordFault,
        >(Seq::empty()),
        at < records.len() ==> match frame_bounds(records, at) {
            Err(fault) => decoded(records, at, link_type, remote) == Err::<
                Seq<Seq<u8>>,
                RecordFault,
            >(fault),
            Ok((start, end)) => match next_record(records.len() as int, end) {
                Err(fault) => decoded(records, at, link_type, remote) == Err::<
                    Seq<Seq<u8>>,
                    RecordFault,
                >(fault),
                Ok(next) => match decoded(records, next, link_type, remote) {
                    Err(fault) => decoded(records, at, link_type, remote) == Err::<
                        Seq<Seq<u8>>,
                        RecordFault,
                    >(fault),
                    Ok(rest) => decoded(records, at, link_type, remote) == Ok::<
                        Seq<Seq<u8>>,
                        RecordFault,
                    >(accepted(link_type, records.subrange(start, end), remote) + rest),
                },
            },
        },
{
}

/// A frame is accepted exactly when it holds a packet that names the remote
/// endpoint as its source, and then gives that packet.
pub proof fn frames_of_the_remote_are_accepted(
    link_type: LinkType,
    frame: Seq<u8>,
    remote: SocketAddr,
)
    ensures
        accepted(link_type, frame, remote) == match frame_packet(link_type, frame) {
            Some(packet) if source_endpoint(packet) == Some(remote) => seq![packet],
            _ => Seq::empty(),
        },
{
    reveal(accepted);
}

/// An IPv4 packet that names the server as its source, byte by byte, is accepted
/// from its Ethernet frame, and one that names another source is not.
pub proof fn ipv4_packets_of_the_server_are_accepted(
    ethernet: Seq<u8>,
    packet: Seq<u8>,
    padding: Seq<u8>,
    server: SocketAddrV4,
)
    requires
        ethernet.len() == 14,
        ethernet[12] == 0x08 && ethernet[13] == 0x00,
        packet.len() >= 40,
        packet[0] == 69,
        packet[9] == 6,
        packet[2] * 256 + packet[3] == packet.len(),
        packet[6] % 32 == 0 && packet[7] == 0,
    ensures
        accepted(LinkType::Ethernet, ethernet + (packet + padding), SocketAddr::V4(server))
            == if big_endian(packet.subrange(12, 16)) == server.ip && packet[20] * 256 + packet[21]
            == server.port {
            seq![packet]
        } else {
            Seq::empty()
        },
{
    reveal(accepted);
    lemma_understood(packet, padding);
    lemma_framed(ethernet, packet + padding);
    ipv4_sources_are_read_byte_by_byte(packet);
}

/// An IPv6 packet that names the server as its source, byte by byte, is accepted
/// from its Ethernet frame, and one that names another source is not.
pub proof fn ipv6_packets_of_the_server_are_accepted(
    ethernet: Seq<u8>,
    packet: Seq<u8>,
    padding: Seq<u8>,
    server: SocketAddrV6,
)
    requires
        ethernet.len() == 14,
        ethernet[12] == 0x86 && ethernet[13] == 0xdd,
        packet.len() >= 60,
        packet[0] / 16 == 6,
        packet[6] == 6,
        packet[4] * 256 + packet[5] + 40 == packet.len(),
        server.flowinfo == 0 && server.scope_id == 0,
    ensures
        accepted(LinkType::Ethernet, ethernet + (packet + padding), SocketAddr::V6(server))
            == if big_endian(packet.subrange(8, 24)) == server.ip && packet[40] * 256 + packet[41]
            == server.port {
            seq![packet]
        } else {
            Seq::empty()
        },
{
    reveal(accepted);
    lemma_understood(packet, padding);
    lemma_framed(ethernet, packet + padding);
    ipv6_sources_are_read_byte_by_byte(packet);
}

/// A whole packet is understood whatever stands behind it.
proof fn lemma_understood(packet: Seq<u8>, padding: Seq<u8>)
    requires
        packet.len() >= 40,
        packet[0] == 69 ==> packet[9] == 6 && packet[2] * 256 + packet[3] == packet.len()
            && packet[6] % 32 == 0 && packet[7] == 0,
        packet[0] != 69 ==> packet[0] / 16 == 6 && packet.len() >= 60 && packet[6] == 6 && packet[4]
            * 256 + packet[5] + 40 == packet.len(),
    ensures
        normalized(packet + padding) == Some(packet),
{
    let all = packet + padding;
    assert(all[0] == packet[0] && all[2] == packet[2] && all[3] == packet[3]);
    assert(all[4] == packet[4] && all[5] == packet[5] && all[6] == packet[6]);
    assert(all[7] == packet[7] && all[9] == packet[9]);
    if packet[0] == 69 {
        ipv4_packets_are_cut_to_their_length(all);
    } else {
        ipv6_packets_are_cut_to_their_length(all);
    }
    assert(normalized(all).unwrap() == packet);
}

/// An untagged Ethernet frame holds what stands behind its header.
proof fn lemma_framed(ethernet: Seq<u8>, payload: Seq<u8>)
    requires
        ethernet.len() == 14,
        ethernet[12] * 256 + ethernet[13] == 0x0800 || ethernet[12] * 256 + ethernet[13] == 0x86dd,
    ensures
        link_payload(LinkType::Ethernet, ethernet + payload) == Some(payload),
{
    let frame = ethernet + payload;
    assert(frame[12] == ethernet[12] && frame[13] == ethernet[13]);
    ethernet_frames_hold_packets_behind_their_type(frame);
    assert(frame.subrange(14, frame.len() as int) == payload);
}

/// What was read waits behind what waited before; a read without records, and no
/// read, leave the queue alone; a failure, and a fault in the records, is the
/// outcome.
pub proof fn what_is_read_waits_behind_the_rest(
    capture: BpfCapture,
    records: Vec<u8>,
    error: Error,
)
    ensures
        capture.queued(None) == Ok::<Seq<Seq<u8>>, ErrorView>(capture.waiting()),
        capture.queued(Some(Ok(None))) == Ok::<Seq<Seq<u8>>, ErrorView>(capture.waiting()),
        capture.queued(Some(Err(error))) == Err::<Seq<Seq<u8>>, ErrorView>(error@),
        match decoded(records@, 0, capture.link_type, capture.remote_addr) {
            Ok(packets) => capture.queued(Some(Ok(Some(records)))) == Ok::<
                Seq<Seq<u8>>,
                ErrorView,
            >(capture.waiting() + packets),
            Err(fault) => capture.queued(Some(Ok(Some(records)))) matches Err(told) && told.kind
                == ErrorKind::InvalidData,
        },
        capture.waiting().len() == capture.pending@.len(),
        forall|i: int|
            0 <= i < capture.pending@.len() ==> #[trigger] capture.waiting()[i]
                == capture.pending@[i]@,
{
}

/// Each fault in a buffer is told by its own message, as data that is not valid.
pub proof fn faults_are_told_apart(fault: RecordFault)
    ensures
        fault.error().kind == ErrorKind::InvalidData,
        fault.error().message == if fault is TruncatedHeader {
            "truncated macOS BPF record header"@
        } else if fault is Boundaries {
            "invalid macOS BPF record boundaries"@
        } else {
            "invalid macOS BPF record alignment"@
        },
{
}

/// Lengths that are told are those of the packets, one for each, in order.
pub proof fn lengths_are_told_in_order(lengths: Seq<usize>, packets: Seq<Seq<u8>>, at: int)
    requires
        are_lengths(lengths, packets),
        0 <= at < packets.len(),
    ensures
        lengths.len() == packets.len(),
        lengths[at] == packets[at].len(),
{
}

/// A capture stays the one that it was: its buffer, its link type and its server.
pub proof fn captures_stay_what_they_were(left: BpfCapture, right: BpfCapture)
    ensures
        left.same_source(&right) <==> left.buffer_len == right.buffer_len && left.link_type
            == right.link_type && left.remote_addr == right.remote_addr,
{
}

/// When only packets of the server wait, every one of them names the server as its
/// source and is as long as its own header says.
pub proof fn waiting_packets_name_the_server(capture: BpfCapture, at: int)
    requires
        capture.only_from_remote(),
        0 <= at < capture.pending@.len(),
    ensures
        source_endpoint(capture.pending@[at]@) == Some(capture.remote_addr),
        normalized(capture.pending@[at]@) == Some(capture.pending@[at]@),
{
    assert(comes_from(capture.waiting()[at], capture.remote_addr));
}

} // verus!
