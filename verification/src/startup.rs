//! The addresses that the client starts with.

use vstd::prelude::*;

use crate::error::{Error, ErrorKind, ErrorView};
use crate::forwarder::{ForwarderConfig, UDP_TTL_MILLIS};
use crate::net::{SocketAddr, SocketAddrV6};

verus! {

/// The failure when the probe has no address of the family.
pub open spec fn no_address(message: Seq<char>) -> ErrorView {
    ErrorView { kind: ErrorKind::AddrNotAvailable, message }
}

/// The local IPv4 address, from the local endpoint of a socket that was
/// connected to the server.
pub fn discover_local_ipv4(probe: Result<SocketAddr, Error>) -> (result: Result<u32, Error>)
    ensures
        match probe {
            Err(error) => result == Err::<u32, Error>(error),
            Ok(SocketAddr::V4(address)) => result == Ok::<u32, Error>(address.ip),
            Ok(SocketAddr::V6(_)) => result matches Err(error) && error@ == no_address(
                "no IPv4 address available"@,
            ),
        },
{
    match probe {
        Err(error) => Err(error),
        Ok(SocketAddr::V4(address)) => Ok(address.ip),
        Ok(SocketAddr::V6(_)) => Err(
            Error::new(ErrorKind::AddrNotAvailable, "no IPv4 address available"),
        ),
    }
}

/// The local IPv6 endpoint, from the local endpoint of a socket that was
/// connected to the server. The server has to be an IPv6 endpoint.
pub fn discover_local_ipv6(remote_addr: SocketAddr, probe: Result<SocketAddr, Error>) -> (result:
    Result<SocketAddrV6, Error>)
    ensures
        if remote_addr is V4 {
            result matches Err(error) && error@ == (ErrorView {
                kind: ErrorKind::InvalidInput,
                message: "IPv6 source discovery requires an IPv6 remote"@,
            })
        } else {
            match probe {
                Err(error) => result == Err::<SocketAddrV6, Error>(error),
                Ok(SocketAddr::V6(address)) => result == Ok::<SocketAddrV6, Error>(address),
                Ok(SocketAddr::V4(_)) => result matches Err(error) && error@ == no_address(
                    "no IPv6 address available"@,
                ),
            }
        },
{
    if remote_addr.is_ipv4() {
        return Err(
            Error::new(
                ErrorKind::InvalidInput,
                "IPv6 source discovery requires an IPv6 remote",
            ),
        );
    }
    match probe {
        Err(error) => Err(error),
        Ok(SocketAddr::V6(address)) => Ok(address),
        Ok(SocketAddr::V4(_)) => Err(
            Error::new(ErrorKind::AddrNotAvailable, "no IPv6 address available"),
        ),
    }
}

/// The local addresses of the client: the IPv4 address, zero when it is not
/// used, and the IPv6 endpoint, when it is.
#[derive(Clone, Copy, Debug, PartialEq, Eq, Structural)]
pub struct LocalAddresses {
    pub ipv4: u32,
    pub ipv6: Option<SocketAddrV6>,
}

/// The local addresses for the server: only the family of the server is looked
/// for.
pub fn local_addresses(remote_addr: SocketAddr, probe: Result<SocketAddr, Error>) -> (result:
    Result<LocalAddresses, Error>)
    ensures
        match (remote_addr, probe) {
            (_, Err(error)) => result == Err::<LocalAddresses, Error>(error),
            (SocketAddr::V4(_), Ok(SocketAddr::V4(address))) => result == Ok::<
                LocalAddresses,
                Error,
            >(LocalAddresses { ipv4: address.ip, ipv6: None }),
            (SocketAddr::V6(_), Ok(SocketAddr::V6(address))) => result == Ok::<
                LocalAddresses,
                Error,
            >(LocalAddresses { ipv4: 0, ipv6: Some(address) }),
            (SocketAddr::V4(_), Ok(SocketAddr::V6(_))) => result matches Err(error) && error@
                == no_address("no IPv4 address available"@),
            (SocketAddr::V6(_), Ok(SocketAddr::V4(_))) => result matches Err(error) && error@
                == no_address("no IPv6 address available"@),
        },
{
    if remote_addr.is_ipv4() {
        match discover_local_ipv4(probe) {
            Ok(ipv4) => Ok(LocalAddresses { ipv4, ipv6: None }),
            Err(error) => Err(error),
        }
    } else {
        match discover_local_ipv6(remote_addr, probe) {
            Ok(address) => Ok(LocalAddresses { ipv4: 0, ipv6: Some(address) }),
            Err(error) => Err(error),
        }
    }
}

/// What the forwarder works with, on a machine with so many cores.
pub fn forwarder_config(remote_addr: SocketAddr, local: LocalAddresses, cores: usize) -> (config:
    ForwarderConfig)
    ensures
        config == (ForwarderConfig {
            remote_addr,
            fake_tcp_local_ipv4: local.ipv4,
            fake_tcp_local_ipv6: match local.ipv6 {
                Some(address) => Some(address.ip),
                None => None,
            },
            worker_count: cores,
            udp_ttl_millis: UDP_TTL_MILLIS,
        }),
{
    ForwarderConfig {
        remote_addr,
        fake_tcp_local_ipv4: local.ipv4,
        fake_tcp_local_ipv6: match local.ipv6 {
            Some(address) => Some(address.ip),
            None => None,
        },
        worker_count: cores,
        udp_ttl_millis: UDP_TTL_MILLIS,
    }
}

/// A missing address is told as one that is not available, with the message as it
/// is.
pub proof fn missing_addresses_are_not_available(message: Seq<char>)
    ensures
        no_address(message).kind == ErrorKind::AddrNotAvailable,
        no_address(message).message == message,
{
}

} // verus!
