//! The packet device: the parts that it is made of, and the order in which they
//! come into being.

use vstd::pervasive::unreached;
use vstd::prelude::*;

use crate::capture::BpfCapture;
use crate::error::{contextual_error, in_context, Error, ErrorView};
use crate::firewall::FirewallGuard;
use crate::net::{IpAddr, SocketAddr, SocketAddrV6};
use crate::route::device_name;
use crate::sender::RawPacketSender;

verus! {

/// A packet device: it sends the packets of the fake-TCP connections, receives
/// the TCP packets of the server only, and keeps those from the operating
/// system.
pub struct MacPacketDevice {
    pub capture: BpfCapture,
    pub sender: RawPacketSender,
    pub firewall: FirewallGuard,
    pub interface_name: String,
}

/// The making of a packet device for a server, under way.
pub struct DeviceSetup {
    pub remote_addr: SocketAddr,
    pub local_ipv6: Option<SocketAddrV6>,
    pub stage: DeviceStage,
}

/// What there is of a packet device so far.
pub enum DeviceStage {
    /// The interface towards the server is to be found.
    Routing,
    /// The capture on the interface is to be opened.
    Capturing { interface: String },
    /// The sender is to be opened.
    Sending { interface: String, capture: BpfCapture },
    /// The packet filter rule is to be installed.
    Filtering { interface: String, capture: BpfCapture, sender: RawPacketSender },
}

/// A request to make the part that is next.
#[derive(Clone, Debug, PartialEq, Eq)]
pub enum DeviceRequest {
    /// Find the interface towards the address.
    FindInterface(IpAddr),
    /// Open the capture of the packets of the server on the interface.
    OpenCapture { interface: String, remote_addr: SocketAddr },
    /// Open the sender to the server, from the local endpoint when it is IPv6.
    OpenSender { remote_addr: SocketAddr, local_ipv6: Option<SocketAddrV6> },
    /// Install the rule against the packets of the server.
    InstallRule(SocketAddr),
}

/// A part of a packet device.
pub enum DevicePart {
    Interface(String),
    Capture(BpfCapture),
    Sender(RawPacketSender),
    Firewall(FirewallGuard),
}

/// What follows when a part is there.
pub enum DeviceStep {
    /// The next part is to be made.
    Continue(DeviceSetup),
    /// The device is complete.
    Ready(MacPacketDevice),
}

impl DeviceStage {
    /// The context of a failure to make the part that is next.
    pub open spec fn context(self) -> Seq<char> {
        match self {
            DeviceStage::Routing => "resolve the outbound interface"@,
            DeviceStage::Capturing { .. } => "open the macOS BPF capture"@,
            DeviceStage::Sending { .. } => "open the raw TCP sender"@,
            DeviceStage::Filtering { .. } => "install the temporary PF rule"@,
        }
    }

    fn context_text(&self) -> (context: &'static str)
        ensures
            context@ == self.context(),
    {
        match self {
            DeviceStage::Routing => "resolve the outbound interface",
            DeviceStage::Capturing { .. } => "open the macOS BPF capture",
            DeviceStage::Sending { .. } => "open the raw TCP sender",
            DeviceStage::Filtering { .. } => "install the temporary PF rule",
        }
    }

    /// Whether the part is the one that is next.
    pub open spec fn awaits(self, part: DevicePart) -> bool {
        match self {
            DeviceStage::Routing => part is Interface,
            DeviceStage::Capturing { .. } => part is Capture,
            DeviceStage::Sending { .. } => part is Sender,
            DeviceStage::Filtering { .. } => part is Firewall,
        }
    }
}

impl DeviceSetup {
    /// The setup for the same server at the stage.
    pub open spec fn at(self, stage: DeviceStage) -> DeviceSetup {
        DeviceSetup { stage, ..self }
    }

    /// The request to make the part that is next, always for the server of the
    /// device.
    pub fn request(&self) -> (request: DeviceRequest)
        ensures
            match self.stage {
                DeviceStage::Routing => request == DeviceRequest::FindInterface(
                    self.remote_addr.spec_ip(),
                ),
                DeviceStage::Capturing { interface } => request
                    matches DeviceRequest::OpenCapture { interface: name, remote_addr } && name@
                    == interface@ && remote_addr == self.remote_addr,
                DeviceStage::Sending { .. } => request == (DeviceRequest::OpenSender {
                    remote_addr: self.remote_addr,
                    local_ipv6: self.local_ipv6,
                }),
                DeviceStage::Filtering { .. } => request == DeviceRequest::InstallRule(
                    self.remote_addr,
                ),
            },
    {
        match &self.stage {
            DeviceStage::Routing => DeviceRequest::FindInterface(self.remote_addr.ip()),
            DeviceStage::Capturing { interface } => DeviceRequest::OpenCapture {
                interface: interface.clone(),
                remote_addr: self.remote_addr,
            },
            DeviceStage::Sending { .. } => DeviceRequest::OpenSender {
                remote_addr: self.remote_addr,
                local_ipv6: self.local_ipv6,
            },
            DeviceStage::Filtering { .. } => DeviceRequest::InstallRule(self.remote_addr),
        }
    }

    /// Takes the part that is next, or the failure to make it. A failure ends the
    /// making, so that the rule of the packet filter comes only when everything
    /// else is there.
    pub fn reply(self, outcome: Result<DevicePart, Error>) -> (result: Result<DeviceStep, Error>)
        requires
            outcome matches Ok(part) ==> self.stage.awaits(part),
        ensures
            match outcome {
                Err(error) => result matches Err(told) && told@ == in_context(
                    self.stage.context(),
                    error@,
                ),
                Ok(part) => match (self.stage, part) {
                    (DeviceStage::Routing, DevicePart::Interface(interface)) => result == Ok::<
                        DeviceStep,
                        Error,
                    >(DeviceStep::Continue(self.at(DeviceStage::Capturing { interface }))),
                    (
                        DeviceStage::Capturing { interface },
                        DevicePart::Capture(capture),
                    ) => result == Ok::<DeviceStep, Error>(
                        DeviceStep::Continue(self.at(DeviceStage::Sending { interface, capture })),
                    ),
                    (
                        DeviceStage::Sending { interface, capture },
                        DevicePart::Sender(sender),
                    ) => result == Ok::<DeviceStep, Error>(
                        DeviceStep::Continue(
                            self.at(DeviceStage::Filtering { interface, capture, sender }),
                        ),
                    ),
                    (
                        DeviceStage::Filtering { interface, capture, sender },
                        DevicePart::Firewall(firewall),
                    ) => result matches Ok(DeviceStep::Ready(device)) && {
                        &&& device.capture == capture
                        &&& device.sender == sender
                        &&& device.firewall == firewall
                        &&& device.interface_name@ == "BPF/"@ + interface@
                    },
                    _ => false,
                },
            },
    {
        let part = match outcome {
            Ok(part) => part,
            Err(error) => {
                return Err(contextual_error(self.stage.context_text(), error));
            },
        };
        let stage = match (self.stage, part) {
            (
                DeviceStage::Routing,
                DevicePart::Interface(interface),
            ) => DeviceStage::Capturing { interface },
            (
                DeviceStage::Capturing { interface },
                DevicePart::Capture(capture),
            ) => DeviceStage::Sending { interface, capture },
            (
                DeviceStage::Sending { interface, capture },
                DevicePart::Sender(sender),
            ) => DeviceStage::Filtering { interface, capture, sender },
            (
                DeviceStage::Filtering { interface, capture, sender },
                DevicePart::Firewall(firewall),
            ) => {
                return Ok(
                    DeviceStep::Ready(
                        MacPacketDevice {
                            capture,
                            sender,
                            firewall,
                            interface_name: device_name(interface.as_str()),
                        },
                    ),
                );
            },
            _ => {
                return unreached();
            },
        };
        Ok(
            DeviceStep::Continue(
                DeviceSetup {
                    remote_addr: self.remote_addr,
                    local_ipv6: self.local_ipv6,
                    stage,
                },
            ),
        )
    }
}

impl MacPacketDevice {
    /// Starts the making of a device for the server.
    pub fn new(remote_addr: SocketAddr, local_ipv6: Option<SocketAddrV6>) -> (setup: DeviceSetup)
        ensures
            setup == (DeviceSetup { remote_addr, local_ipv6, stage: DeviceStage::Routing }),
    {
        DeviceSetup { remote_addr, local_ipv6, stage: DeviceStage::Routing }
    }
}

/// The failure to make the device, as the client reports it.
pub open spec fn device_failure(error: ErrorView) -> ErrorView {
    in_context(
        "failed to open macOS packet device (administrator privileges may be required)"@,
        error,
    )
}

/// Tells the failure to make the device.
pub fn report_device_failure(error: Error) -> (told: Error)
    ensures
        told@ == device_failure(error@),
{
    contextual_error(
        "failed to open macOS packet device (administrator privileges may be required)",
        error,
    )
}

/// A stage changes nothing of the server that the device is made for.
pub proof fn stages_keep_the_server(setup: DeviceSetup, stage: DeviceStage)
    ensures
        setup.at(stage).remote_addr == setup.remote_addr,
        setup.at(stage).local_ipv6 == setup.local_ipv6,
        setup.at(stage).stage == stage,
{
}

/// The parts are made in one order: the interface, the capture, the sender, the
/// rule.
pub proof fn parts_come_in_order(
    interface: String,
    capture: BpfCapture,
    sender: RawPacketSender,
    part: DevicePart,
)
    ensures
        DeviceStage::Routing.awaits(part) <==> part is Interface,
        (DeviceStage::Capturing { interface }).awaits(part) <==> part is Capture,
        (DeviceStage::Sending { interface, capture }).awaits(part) <==> part is Sender,
        (DeviceStage::Filtering { interface, capture, sender }).awaits(part) <==> part is Firewall,
{
}

/// A failure keeps its kind; its message comes behind what was to be made, and in
/// the end behind what the client needs.
pub proof fn failures_tell_what_was_to_be_made(stage: DeviceStage, error: ErrorView)
    ensures
        stage.context() == if stage is Routing {
            "resolve the outbound interface"@
        } else if stage is Capturing {
            "open the macOS BPF capture"@
        } else if stage is Sending {
            "open the raw TCP sender"@
        } else {
            "install the temporary PF rule"@
        },
        device_failure(error).kind == error.kind,
        device_failure(error).message
            == "failed to open macOS packet device (administrator privileges may be required)"@
            + seq![':', ' '] + error.message,
{
}

} // verus!
