//! The interface through which the tunnel server is reached.

use vstd::prelude::*;

use crate::error::{Error, ErrorKind, ErrorView};
use crate::net::{append_ip, ip_text, IpAddr};
use crate::process::{lossy_text, utf8_lossy, CommandOutput};
use crate::text::{chars_of, field_value, find_field, text_of, trim, trimmed};

verus! {

/// The arguments of the route lookup.
pub fn route_arguments(remote_ip: IpAddr) -> (arguments: Vec<String>)
    ensures
        arguments.len() == 3,
        arguments[0]@ == "-n"@,
        arguments[1]@ == "get"@,
        arguments[2]@ == ip_text(remote_ip),
{
    let mut address = String::new();
    append_ip(&mut address, remote_ip);
    assert(address@ == ip_text(remote_ip));
    let mut arguments: Vec<String> = Vec::new();
    arguments.push("-n".to_owned());
    arguments.push("get".to_owned());
    arguments.push(address);
    arguments
}

/// Finds the interface in the report of the route lookup.
pub fn parse_route_interface(output: &str) -> (interface: Option<String>)
    ensures
        interface is Some <==> field_value(output@, "interface"@) is Some,
        interface matches Some(name) ==> name@ == field_value(output@, "interface"@).unwrap(),
{
    find_field(output, "interface")
}

/// The interface that a route lookup reports, given the text that it printed and
/// the text of its complaints; or the failure.
pub open spec fn reported_interface(
    remote_ip: IpAddr,
    success: bool,
    report: Seq<char>,
    complaints: Seq<char>,
) -> Result<Seq<char>, ErrorView> {
    if !success {
        Err(
            ErrorView {
                kind: ErrorKind::Other,
                message: "unable to resolve outbound interface for "@ + ip_text(remote_ip) + ": "@
                    + trimmed(complaints),
            },
        )
    } else {
        match field_value(report, "interface"@) {
            Some(name) => Ok(name),
            None => Err(
                ErrorView {
                    kind: ErrorKind::Other,
                    message: "route lookup did not report an interface for "@ + ip_text(remote_ip),
                },
            ),
        }
    }
}

/// Reads the interface from what a route lookup printed.
pub fn read_interface(remote_ip: IpAddr, success: bool, report: &str, complaints: &str) -> (result:
    Result<String, Error>)
    ensures
        match reported_interface(remote_ip, success, report@, complaints@) {
            Ok(name) => result matches Ok(found) && found@ == name,
            Err(failure) => result matches Err(error) && error@ == failure,
        },
{
    if !success {
        let mut message = "unable to resolve outbound interface for ".to_owned();
        append_ip(&mut message, remote_ip);
        message.append(": ");
        let chars = chars_of(complaints);
        message.append(text_of(trim(chars.as_slice())).as_str());
        return Err(Error { kind: ErrorKind::Other, message });
    }
    match parse_route_interface(report) {
        Some(name) => Ok(name),
        None => {
            let mut message = "route lookup did not report an interface for ".to_owned();
            append_ip(&mut message, remote_ip);
            Err(Error { kind: ErrorKind::Other, message })
        },
    }
}

/// The interface through which the address is reached, from the outcome of the
/// route lookup.
pub fn route_interface(remote_ip: IpAddr, output: &CommandOutput) -> (result: Result<
    String,
    Error,
>)
    ensures
        match reported_interface(
            remote_ip,
            output.success,
            utf8_lossy(output.stdout@),
            utf8_lossy(output.stderr@),
        ) {
            Ok(name) => result matches Ok(found) && found@ == name,
            Err(failure) => result matches Err(error) && error@ == failure,
        },
{
    let report = lossy_text(output.stdout.as_slice());
    let complaints = lossy_text(output.stderr.as_slice());
    read_interface(remote_ip, output.success, report.as_str(), complaints.as_str())
}

/// The name of the packet device on the interface.
pub fn device_name(interface: &str) -> (name: String)
    ensures
        name@ == "BPF/"@ + interface@,
{
    let mut name = "BPF/".to_owned();
    name.append(interface);
    name
}

/// A route lookup gives the interface exactly when it succeeded and its report
/// has one; its failure tells the address that was looked up, and the complaint.
pub proof fn lookups_give_the_reported_interface(
    remote_ip: IpAddr,
    success: bool,
    report: Seq<char>,
    complaints: Seq<char>,
)
    ensures
        reported_interface(remote_ip, success, report, complaints) is Ok <==> success
            && field_value(report, "interface"@) is Some,
        reported_interface(remote_ip, success, report, complaints) matches Ok(name)
            ==> field_value(report, "interface"@) == Some(name),
        reported_interface(remote_ip, success, report, complaints) matches Err(error)
            ==> error.kind == ErrorKind::Other && error.message == if success {
            "route lookup did not report an interface for "@ + ip_text(remote_ip)
        } else {
            "unable to resolve outbound interface for "@ + ip_text(remote_ip) + ": "@ + trimmed(
                complaints,
            )
        },
{
}

} // verus!
