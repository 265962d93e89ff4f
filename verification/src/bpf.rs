//! Opening, configuring and reading a Berkeley packet filter device.
//!
//! The system calls are the program's. Each function here takes what a call
//! gave and says what to do next.

use vstd::prelude::*;

use crate::capture::BpfCapture;
use crate::error::{contextual_error, in_context, Error, ErrorKind, ErrorView};
use crate::frame::LinkType;
use crate::net::{append_ip, ip_text, IpAddr, SocketAddr, SocketAddrV4, SocketAddrV6};
use crate::text::{append_numeral, integer_text, numeral};

verus! {

/// Darwin's error numbers.
pub const EINTR: i32 = 4;

pub const EBUSY: i32 = 16;

pub const EAGAIN: i32 = 35;

/// The number of bytes that an interface name may take, the final zero included.
pub const IFNAMSIZ: usize = 16;

/// The receive buffer that the client asks for.
pub const BPF_BUFFER_REQUESTED: u32 = 0x0008_0000;

/// The path of a packet filter device.
pub fn bpf_device_path(index: u8) -> (path: String)
    ensures
        path@ == "/dev/bpf"@ + numeral(index as nat, 10),
{
    let mut path = "/dev/bpf".to_owned();
    append_numeral(&mut path, index as u128, 10);
    path
}

/// What to do while a free packet filter device is looked for.
pub enum ProbeStep {
    /// Open the device with this number.
    Open(u8),
    /// Use the device that was opened.
    Use,
    /// Give up.
    Fail(Error),
}

/// Whether the next device is tried after a failure of this kind.
pub open spec fn tries_next(index: int, kind: ErrorKind) -> bool {
    kind == ErrorKind::Os(EBUSY) && index < 255
}

/// Decides what follows an attempt to open the device with the number: a busy
/// device leads to the next one, up to number 255; every other failure ends the
/// search.
pub fn after_open(index: u8, outcome: Result<(), Error>) -> (step: ProbeStep)
    ensures
        match outcome {
            Ok(_) => step is Use,
            Err(error) => if tries_next(index as int, error.kind) {
                step == ProbeStep::Open((index + 1) as u8)
            } else {
                step == ProbeStep::Fail(error)
            },
        },
{
    match outcome {
        Ok(_) => ProbeStep::Use,
        Err(error) => {
            if error.kind == ErrorKind::Os(EBUSY) && index < 255 {
                ProbeStep::Open(index + 1)
            } else {
                ProbeStep::Fail(error)
            }
        },
    }
}

/// A request to the packet filter device.
#[derive(Clone, Debug, PartialEq, Eq)]
pub enum BpfRequest {
    /// Ask for a receive buffer of this length.
    SetBufferLength(u32),
    /// Attach to the interface.
    Attach(String),
    /// Hand out packets at once.
    SetImmediate(u32),
    /// Show frames that this host sends as well: the server may be reached
    /// through loopback.
    SetSeeSent(u32),
    /// Tell the number of the link type.
    GetLinkType,
    /// Install the filter that the expression describes, for the link type.
    SetFilter { link_type: LinkType, expression: String },
    /// Tell the length of the receive buffer.
    GetBufferLength,
}

/// How far the configuration of a device has come.
#[derive(Clone, Copy, Debug, PartialEq, Eq, Structural)]
pub enum SetupStage {
    BufferLength,
    Interface,
    Immediate,
    SeeSent,
    LinkTypeNumber,
    Filter(LinkType),
    ActualLength(LinkType),
}

/// The configuration of a device, under way.
pub struct BpfSetup {
    pub interface_name: String,
    pub remote_addr: SocketAddr,
    pub stage: SetupStage,
}

/// What follows a request.
pub enum SetupStep {
    /// The next request.
    Continue(BpfSetup),
    /// The device is ready.
    Ready(BpfCapture),
}

/// The signed number with the same 32 bits.
pub open spec fn as_signed(value: u32) -> int {
    if value <= i32::MAX {
        value as int
    } else {
        value - 0x1_0000_0000
    }
}

impl SetupStage {
    /// The context of a failure of the request that belongs to the stage.
    pub open spec fn context(self) -> Seq<char> {
        match self {
            SetupStage::BufferLength => "BIOCSBLEN"@,
            SetupStage::Interface => "BIOCSETIF"@,
            SetupStage::Immediate => "BIOCIMMEDIATE"@,
            SetupStage::SeeSent => "BIOCSSEESENT"@,
            SetupStage::LinkTypeNumber => "BIOCGDLT"@,
            SetupStage::Filter(_) => "install BPF filter"@,
            SetupStage::ActualLength(_) => "BIOCGBLEN"@,
        }
    }

    /// The stage that follows when the request gave the value, or the failure;
    /// nothing behind the last stage.
    pub open spec fn after(self, value: u32) -> Result<Option<SetupStage>, ErrorView> {
        match self {
            SetupStage::BufferLength => Ok(Some(SetupStage::Interface)),
            SetupStage::Interface => Ok(Some(SetupStage::Immediate)),
            SetupStage::Immediate => Ok(Some(SetupStage::SeeSent)),
            SetupStage::SeeSent => Ok(Some(SetupStage::LinkTypeNumber)),
            SetupStage::LinkTypeNumber => match LinkType::with_number(as_signed(value) as i32) {
                Some(link_type) => Ok(Some(SetupStage::Filter(link_type))),
                None => Err(LinkType::unsupported(as_signed(value) as i32)),
            },
            SetupStage::Filter(link_type) => Ok(Some(SetupStage::ActualLength(link_type))),
            SetupStage::ActualLength(_) => if value == 0 {
                Err(
                    ErrorView {
                        kind: ErrorKind::InvalidData,
                        message: "macOS BPF returned an empty receive buffer"@,
                    },
                )
            } else {
                Ok(None)
            },
        }
    }

    fn context_text(&self) -> (context: &'static str)
        ensures
            context@ == self.context(),
    {
        match self {
            SetupStage::BufferLength => "BIOCSBLEN",
            SetupStage::Interface => "BIOCSETIF",
            SetupStage::Immediate => "BIOCIMMEDIATE",
            SetupStage::SeeSent => "BIOCSSEESENT",
            SetupStage::LinkTypeNumber => "BIOCGDLT",
            SetupStage::Filter(_) => "install BPF filter",
            SetupStage::ActualLength(_) => "BIOCGBLEN",
        }
    }
}

/// The failure on an interface name that does not fit.
pub open spec fn name_too_long(interface_name: Seq<char>) -> ErrorView {
    ErrorView {
        kind: ErrorKind::InvalidInput,
        message: "network interface name is too long: "@ + interface_name,
    }
}

impl BpfSetup {
    /// Starts the configuration of a device.
    pub fn configure_bpf(interface_name: &str, remote_addr: SocketAddr) -> (result: Result<
        BpfSetup,
        Error,
    >)
        ensures
            if vstd::utf8::encode_utf8(interface_name@).len() >= IFNAMSIZ {
                result matches Err(error) && error@ == name_too_long(interface_name@)
            } else {
                result matches Ok(setup) && {
                    &&& setup.interface_name@ == interface_name@
                    &&& setup.remote_addr == remote_addr
                    &&& setup.stage == SetupStage::BufferLength
                }
            },
    {
        if interface_name.as_bytes().len() >= IFNAMSIZ {
            let mut message = "network interface name is too long: ".to_owned();
            message.append(interface_name);
            return Err(Error { kind: ErrorKind::InvalidInput, message });
        }
        Ok(
            BpfSetup {
                interface_name: interface_name.to_owned(),
                remote_addr,
                stage: SetupStage::BufferLength,
            },
        )
    }

    /// The filter for the remote endpoint of the device.
    pub fn filter(&self) -> (expression: String)
        ensures
            expression@ == filter_expression(self.remote_addr),
    {
        bpf_filter_expression(self.remote_addr)
    }

    /// The request that belongs to the stage.
    pub fn request(&self) -> (request: BpfRequest)
        ensures
            match self.stage {
                SetupStage::BufferLength => request == BpfRequest::SetBufferLength(
                    BPF_BUFFER_REQUESTED,
                ),
                SetupStage::Interface => request matches BpfRequest::Attach(name) && name@
                    == self.interface_name@,
                SetupStage::Immediate => request == BpfRequest::SetImmediate(1),
                SetupStage::SeeSent => request == BpfRequest::SetSeeSent(1),
                SetupStage::LinkTypeNumber => request == BpfRequest::GetLinkType,
                SetupStage::Filter(link_type) => request matches BpfRequest::SetFilter {
                    link_type: l,
                    expression,
                } && l == link_type && expression@ == filter_expression(self.remote_addr),
                SetupStage::ActualLength(_) => request == BpfRequest::GetBufferLength,
            },
    {
        match self.stage {
            SetupStage::BufferLength => BpfRequest::SetBufferLength(BPF_BUFFER_REQUESTED),
            SetupStage::Interface => BpfRequest::Attach(self.interface_name.clone()),
            SetupStage::Immediate => BpfRequest::SetImmediate(1),
            SetupStage::SeeSent => BpfRequest::SetSeeSent(1),
            SetupStage::LinkTypeNumber => BpfRequest::GetLinkType,
            SetupStage::Filter(link_type) => BpfRequest::SetFilter {
                link_type,
                expression: self.filter(),
            },
            SetupStage::ActualLength(_) => BpfRequest::GetBufferLength,
        }
    }

    /// Takes the outcome of the request: the value that the device left in its
    /// argument, or the failure.
    pub fn reply(self, outcome: Result<u32, Error>) -> (result: Result<SetupStep, Error>)
        ensures
            match outcome {
                Err(error) => result matches Err(told) && told@ == in_context(
                    self.stage.context(),
                    error@,
                ),
                Ok(value) => match self.stage.after(value) {
                    Err(failure) => result matches Err(told) && told@ == failure,
                    Ok(Some(stage)) => result matches Ok(SetupStep::Continue(setup)) && {
                        &&& setup.stage == stage
                        &&& setup.interface_name == self.interface_name
                        &&& setup.remote_addr == self.remote_addr
                    },
                    Ok(None) => result matches Ok(SetupStep::Ready(capture)) && {
                        &&& self.stage == SetupStage::ActualLength(capture.link_type)
                        &&& capture.buffer_len == value
                        &&& capture.remote_addr == self.remote_addr
                        &&& capture.waiting() == Seq::<Seq<u8>>::empty()
                        &&& capture.only_from_remote()
                    },
                },
            },
    {
        let value: u32 = match outcome {
            Ok(value) => value,
            Err(error) => {
                return Err(contextual_error(self.stage.context_text(), error));
            },
        };
        let stage = match self.stage {
            SetupStage::BufferLength => SetupStage::Interface,
            SetupStage::Interface => SetupStage::Immediate,
            SetupStage::Immediate => SetupStage::SeeSent,
            SetupStage::SeeSent => SetupStage::LinkTypeNumber,
            SetupStage::LinkTypeNumber => {
                let number: i32 = if value <= 0x7fff_ffff {
                    value as i32
                } else {
                    (value as i64 - 0x1_0000_0000) as i32
                };
                match LinkType::from_dlt(number) {
                    Ok(link_type) => SetupStage::Filter(link_type),
                    Err(error) => {
                        return Err(error);
                    },
                }
            },
            SetupStage::Filter(link_type) => SetupStage::ActualLength(link_type),
            SetupStage::ActualLength(link_type) => {
                if value == 0 {
                    return Err(
                        Error::new(
                            ErrorKind::InvalidData,
                            "macOS BPF returned an empty receive buffer",
                        ),
                    );
                }
                return Ok(
                    SetupStep::Ready(
                        BpfCapture::new(value as usize, link_type, self.remote_addr),
                    ),
                );
            },
        };
        Ok(
            SetupStep::Continue(
                BpfSetup {
                    interface_name: self.interface_name,
                    remote_addr: self.remote_addr,
                    stage,
                },
            ),
        )
    }
}

/// Tells the failure to open a capture: of its device, or of configuring the
/// device that was opened.
pub fn capture_failure(opened: bool, error: Error) -> (told: Error)
    ensures
        told@ == in_context(
            if opened {
                "configure /dev/bpf"@
            } else {
                "open /dev/bpf"@
            },
            error@,
        ),
{
    if opened {
        contextual_error("configure /dev/bpf", error)
    } else {
        contextual_error("open /dev/bpf", error)
    }
}

/// The filter that selects the TCP packets of the remote endpoint.
pub open spec fn filter_expression(remote: SocketAddr) -> Seq<char> {
    "tcp and src host "@ + ip_text(remote.spec_ip()) + " and src port "@ + numeral(
        remote.spec_port() as nat,
        10,
    )
}

/// Writes the filter that selects the TCP packets of the remote endpoint.
pub fn bpf_filter_expression(remote_addr: SocketAddr) -> (expression: String)
    ensures
        expression@ == filter_expression(remote_addr),
{
    let mut expression = "tcp and src host ".to_owned();
    append_ip(&mut expression, remote_addr.ip());
    expression.append(" and src port ");
    append_numeral(&mut expression, remote_addr.port() as u128, 10);
    expression
}

/// What to do after waiting for packets.
pub enum PollStep {
    /// Wait again.
    Again,
    /// Nothing to read for now.
    Nothing,
    /// Read the device.
    Read,
    /// Give up.
    Fail(Error),
}

/// Whether the bit with the given weight is set.
pub open spec fn has_bit(bits: u16, weight: int) -> bool {
    bits as int / weight % 2 == 1
}

/// Whether the device reported an error, a hangup or an invalid descriptor.
pub open spec fn has_error_event(events: u16) -> bool {
    has_bit(events, 8) || has_bit(events, 16) || has_bit(events, 32)
}

/// The failure on the events.
pub open spec fn poll_failure(events: u16) -> ErrorView {
    ErrorView {
        kind: ErrorKind::Other,
        message: "macOS BPF poll returned error events: 0x"@ + numeral(events as nat, 16),
    }
}

/// Decides what follows waiting for packets. On success the outcome is the
/// number of ready descriptors, not negative, and the events of the device.
pub fn after_poll(outcome: Result<(u32, u16), Error>) -> (step: PollStep)
    ensures
        match outcome {
            Err(error) => if error.kind == ErrorKind::Os(EINTR) {
                step is Again
            } else {
                step == PollStep::Fail(error)
            },
            Ok((ready, events)) => if ready == 0 {
                step is Nothing
            } else if has_error_event(events) {
                step matches PollStep::Fail(error) && error@ == poll_failure(events)
            } else if has_bit(events, 1) {
                step is Read
            } else {
                step is Nothing
            },
        },
{
    match outcome {
        Err(error) => {
            if error.kind == ErrorKind::Os(EINTR) {
                PollStep::Again
            } else {
                PollStep::Fail(error)
            }
        },
        Ok((ready, events)) => {
            if ready == 0 {
                PollStep::Nothing
            } else if events / 8 % 2 == 1 || events / 16 % 2 == 1 || events / 32 % 2 == 1 {
                let mut message = "macOS BPF poll returned error events: 0x".to_owned();
                append_numeral(&mut message, events as u128, 16);
                PollStep::Fail(Error { kind: ErrorKind::Other, message })
            } else if events % 2 == 1 {
                PollStep::Read
            } else {
                PollStep::Nothing
            }
        },
    }
}

/// Decides what follows reading the device into the buffer: the bytes that were
/// read, nothing when none were there, or the failure.
pub fn after_read(buffer: Vec<u8>, outcome: Result<usize, Error>) -> (result: Result<
    Option<Vec<u8>>,
    Error,
>)
    requires
        outcome matches Ok(size) ==> size <= buffer.len(),
    ensures
        match outcome {
            Err(error) => if error.kind == ErrorKind::Os(EAGAIN) {
                result == Ok::<Option<Vec<u8>>, Error>(None)
            } else {
                result == Err::<Option<Vec<u8>>, Error>(error)
            },
            Ok(size) => if size == 0 {
                result matches Err(error) && error@ == (ErrorView {
                    kind: ErrorKind::UnexpectedEof,
                    message: "macOS BPF device closed"@,
                })
            } else {
                result matches Ok(Some(records)) && records@ == buffer@.take(size as int)
            },
        },
{
    match outcome {
        Err(error) => {
            if error.kind == ErrorKind::Os(EAGAIN) {
                Ok(None)
            } else {
                Err(error)
            }
        },
        Ok(size) => {
            if size == 0 {
                return Err(Error::new(ErrorKind::UnexpectedEof, "macOS BPF device closed"));
            }
            let mut records = buffer;
            records.truncate(size);
            assert(records@ == buffer@.take(size as int));
            Ok(Some(records))
        },
    }
}

/// Where the configuration stands when the requests gave these values, one
/// after the other: at a stage, done, or failed.
pub open spec fn stage_after(values: Seq<u32>) -> Result<Option<SetupStage>, ErrorView>
    decreases values.len(),
{
    if values.len() == 0 {
        Ok(Some(SetupStage::BufferLength))
    } else {
        match stage_after(values.drop_last()) {
            Ok(Some(stage)) => stage.after(values.last()),
            other => other,
        }
    }
}

/// The configuration is done after seven requests that succeed, no earlier: the
/// device is asked for a buffer, attached, switched to immediate hand-out and to
/// seeing sent frames, asked for its link type, given the filter for just that
/// link type, and asked for the length of its buffer.
pub proof fn setup_takes_seven_requests(values: Seq<u32>, link_type: LinkType)
    requires
        values.len() == 7,
        values[4] == link_type.number(),
        values[6] > 0,
    ensures
        stage_after(values.take(0)) == Ok::<Option<SetupStage>, ErrorView>(
            Some(SetupStage::BufferLength),
        ),
        stage_after(values.take(1)) == Ok::<Option<SetupStage>, ErrorView>(
            Some(SetupStage::Interface),
        ),
        stage_after(values.take(2)) == Ok::<Option<SetupStage>, ErrorView>(
            Some(SetupStage::Immediate),
        ),
        stage_after(values.take(3)) == Ok::<Option<SetupStage>, ErrorView>(
            Some(SetupStage::SeeSent),
        ),
        stage_after(values.take(4)) == Ok::<Option<SetupStage>, ErrorView>(
            Some(SetupStage::LinkTypeNumber),
        ),
        stage_after(values.take(5)) == Ok::<Option<SetupStage>, ErrorView>(
            Some(SetupStage::Filter(link_type)),
        ),
        stage_after(values.take(6)) == Ok::<Option<SetupStage>, ErrorView>(
            Some(SetupStage::ActualLength(link_type)),
        ),
        stage_after(values) == Ok::<Option<SetupStage>, ErrorView>(None),
{
    assert(values.take(1).drop_last() == values.take(0));
    assert(values.take(2).drop_last() == values.take(1));
    assert(values.take(3).drop_last() == values.take(2));
    assert(values.take(4).drop_last() == values.take(3));
    assert(values.take(5).drop_last() == values.take(4));
    assert(values.take(6).drop_last() == values.take(5));
    assert(values.drop_last() == values.take(6));
}

/// The device that the search ends with when opening the one with number `i`
/// gives `outcomes[i]`, a failure's kind or none; nothing when the search fails.
pub open spec fn probed(outcomes: Seq<Option<ErrorKind>>, index: int) -> Option<int>
    decreases 256 - index,
{
    if index < 0 || index > 255 {
        None
    } else {
        match outcomes[index] {
            None => Some(index),
            Some(kind) => if tries_next(index, kind) {
                probed(outcomes, index + 1)
            } else {
                None
            },
        }
    }
}

/// The search ends with a device exactly when some device opens and all before
/// it are busy, and with the first such device.
pub proof fn probing_takes_the_first_free_device(outcomes: Seq<Option<ErrorKind>>, device: int)
    requires
        outcomes.len() == 256,
    ensures
        probed(outcomes, 0) == Some(device) <==> {
            &&& 0 <= device <= 255
            &&& outcomes[device] is None
            &&& forall|i: int| 0 <= i < device ==> outcomes[i] == Some(ErrorKind::Os(EBUSY))
        },
{
    lemma_probed_from(outcomes, 0, device);
}

proof fn lemma_probed_from(outcomes: Seq<Option<ErrorKind>>, index: int, device: int)
    requires
        outcomes.len() == 256,
        0 <= index <= 256,
    ensures
        probed(outcomes, index) == Some(device) <==> {
            &&& index <= device <= 255
            &&& outcomes[device] is None
            &&& forall|i: int| index <= i < device ==> outcomes[i] == Some(ErrorKind::Os(EBUSY))
        },
    decreases 256 - index,
{
    if index <= 255 {
        lemma_probed_from(outcomes, index + 1, device);
    }
}

/// The filter names the server, its address and its port, and no other: it is
/// made of the two fixed parts, the address as people write it and the decimal
/// port.
pub proof fn filters_name_the_server(four: SocketAddrV4, six: SocketAddrV6)
    ensures
        filter_expression(SocketAddr::V4(four)) == "tcp and src host "@ + ip_text(
            IpAddr::V4(four.ip),
        ) + " and src port "@ + numeral(four.port as nat, 10),
        filter_expression(SocketAddr::V6(six)) == "tcp and src host "@ + ip_text(
            IpAddr::V6(six.ip),
        ) + " and src port "@ + numeral(six.port as nat, 10),
{
}

/// An event is looked at by its bit in the number.
pub proof fn events_are_bits(events: u16)
    ensures
        has_bit(events, 1) == (events & 1 != 0),
        has_error_event(events) == (events & 8 != 0 || events & 16 != 0 || events & 32 != 0),
{
    assert(events & 1 != 0 <==> events % 2 == 1) by (bit_vector);
    assert(events & 8 != 0 <==> events / 8 % 2 == 1) by (bit_vector);
    assert(events & 16 != 0 <==> events / 16 % 2 == 1) by (bit_vector);
    assert(events & 32 != 0 <==> events / 32 % 2 == 1) by (bit_vector);
}

/// The failure on error events gives them in hexadecimal.
pub proof fn error_events_are_told_in_hexadecimal(events: u16)
    ensures
        poll_failure(events).kind == ErrorKind::Other,
        poll_failure(events).message == "macOS BPF poll returned error events: 0x"@ + numeral(
            events as nat,
            16,
        ),
{
}

/// The signed number is the unsigned one, or that less 2^32, whichever fits into
/// 32 bits.
pub proof fn signed_numbers_have_the_same_bits(value: u32)
    ensures
        i32::MIN <= as_signed(value) <= i32::MAX,
        as_signed(value) == value || as_signed(value) + 0x1_0000_0000 == value,
{
}

/// The configuration goes on after every request but two: it needs a link type
/// that the client understands, and a buffer that is not empty.
pub proof fn setup_needs_a_link_type_and_a_buffer(link_type: LinkType, value: u32)
    ensures
        SetupStage::LinkTypeNumber.after(value) is Ok <==> value == 0 || value == 1 || value == 12,
        SetupStage::LinkTypeNumber.after(0) == Ok::<Option<SetupStage>, ErrorView>(
            Some(SetupStage::Filter(LinkType::Null)),
        ),
        SetupStage::LinkTypeNumber.after(1) == Ok::<Option<SetupStage>, ErrorView>(
            Some(SetupStage::Filter(LinkType::Ethernet)),
        ),
        SetupStage::LinkTypeNumber.after(12) == Ok::<Option<SetupStage>, ErrorView>(
            Some(SetupStage::Filter(LinkType::Raw)),
        ),
        SetupStage::LinkTypeNumber.after(value) matches Err(error) ==> error.kind
            == ErrorKind::Unsupported && error.message == "unsupported macOS BPF datalink type "@
            + integer_text(as_signed(value)),
        SetupStage::ActualLength(link_type).after(value) is Ok <==> value != 0,
        SetupStage::BufferLength.after(value) is Ok,
        SetupStage::Interface.after(value) is Ok,
        SetupStage::Immediate.after(value) is Ok,
        SetupStage::SeeSent.after(value) is Ok,
        SetupStage::Filter(link_type).after(value) is Ok,
{
}

/// The search for a device goes on exactly after a busy one that is not the last.
pub proof fn only_a_busy_device_leads_to_the_next(index: int, kind: ErrorKind)
    ensures
        tries_next(index, kind) <==> index < 255 && kind == ErrorKind::Os(16),
{
}

/// The name that did not fit is told.
pub proof fn a_long_name_is_told(interface_name: Seq<char>)
    ensures
        name_too_long(interface_name).kind == ErrorKind::InvalidInput,
        name_too_long(interface_name).message == "network interface name is too long: "@
            + interface_name,
{
}

/// The error numbers and limits are those of Darwin.
pub proof fn numbers_are_those_of_darwin()
    ensures
        EINTR == 4,
        EBUSY == 16,
        EAGAIN == 35,
        IFNAMSIZ == 16,
        BPF_BUFFER_REQUESTED == 512 * 1024,
{
}

/// The failure of a request is told by the name of the request.
pub proof fn failed_requests_are_told_by_name(link_type: LinkType)
    ensures
        SetupStage::BufferLength.context() == "BIOCSBLEN"@,
        SetupStage::Interface.context() == "BIOCSETIF"@,
        SetupStage::Immediate.context() == "BIOCIMMEDIATE"@,
        SetupStage::SeeSent.context() == "BIOCSSEESENT"@,
        SetupStage::LinkTypeNumber.context() == "BIOCGDLT"@,
        SetupStage::Filter(link_type).context() == "install BPF filter"@,
        SetupStage::ActualLength(link_type).context() == "BIOCGBLEN"@,
{
}

} // verus!
