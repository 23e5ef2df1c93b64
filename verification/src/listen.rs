//! Where the server listens.

use vstd::prelude::*;

use crate::address::{ip_addr, parse_ip_addr, IpAddr, SocketAddr, IPV4_LOCALHOST};
use crate::text::{is_white_space, trim, trimmed};
use crate::text_laws::{is_blank, only_white_space_is_trimmed, trimmed_text_is_the_middle};

verus! {

/// A bind address that is none.
pub struct BindAddressError {
    /// The text that was given, without white space around it.
    pub address: String,
}

impl BindAddressError {
    /// What is wrong.
    pub fn message(&self) -> (r: String)
        ensures
            r@ == "Invalid bind address: "@ + self.address@,
    {
        String::from_str("Invalid bind address: ").concat(self.address.as_str())
    }

    /// Why that is wrong.
    pub fn cause(&self) -> (r: String)
        ensures
            r@ == "invalid IP address syntax"@,
    {
        String::from_str("invalid IP address syntax")
    }
}

/// The address that the setting `value` gives to listen at; none, where it is blank.
pub fn parse_bind_address(value: &str) -> (r: Result<Option<IpAddr>, BindAddressError>)
    ensures
        match r {
            Ok(None) => trimmed(value@).len() == 0,
            Ok(Some(ip)) => trimmed(value@).len() > 0 && ip_addr(trimmed(value@)) == Some(ip),
            Err(error) => trimmed(value@).len() > 0 && ip_addr(trimmed(value@)) is None
                && error.address@ == trimmed(value@),
        },
{
    let address: String = trim(value);
    if address.as_str().is_empty() {
        return Ok(None);
    }
    match parse_ip_addr(address.as_str()) {
        Some(ip) => Ok(Some(ip)),
        None => Err(BindAddressError { address }),
    }
}

/// Whether a listener at `bind_addr` accepts connections to 127.0.0.1.
pub open spec fn covers_ipv4_localhost(bind_addr: Option<IpAddr>) -> bool {
    match bind_addr {
        Some(ip) => ip.unspecified() || ip == IpAddr::V4(IPV4_LOCALHOST),
        None => true,
    }
}

/// Where the console has a listener of its own. The console is reached at 127.0.0.1, so it needs
/// one where the server's listener does not accept connections to that address.
pub fn console_addr(bind_addr: Option<IpAddr>, port: u16) -> (r: Option<SocketAddr>)
    ensures
        r == (if covers_ipv4_localhost(bind_addr) {
            None
        } else {
            Some(SocketAddr { ip: IpAddr::V4(IPV4_LOCALHOST), port })
        }),
{
    match bind_addr {
        Some(ip) => {
            if ip.is_unspecified() || ip == IpAddr::V4(IPV4_LOCALHOST) {
                None
            } else {
                Some(SocketAddr { ip: IpAddr::V4(IPV4_LOCALHOST), port })
            }
        },
        None => None,
    }
}

/// How the server listens.
#[derive(Clone, Copy, PartialEq, Eq, Structural, Debug)]
pub enum Listen {
    /// At this address, which may be taken over from a socket that is closing.
    At(SocketAddr),
    /// At all addresses of the host, at this port.
    Anywhere(u16),
}

/// How the server listens at `port`: at the bind address where there is one, else anywhere.
pub fn listen_tcp(bind_addr: Option<IpAddr>, port: u16) -> (r: Listen)
    ensures
        r == (match bind_addr {
            Some(ip) => Listen::At(SocketAddr { ip, port }),
            None => Listen::Anywhere(port),
        }),
{
    match bind_addr {
        Some(ip) => Listen::At(SocketAddr { ip, port }),
        None => Listen::Anywhere(port),
    }
}

/// Whether a listener accepts connections to 127.0.0.1 at `port`.
pub open spec fn reached_at_ipv4_localhost(listen: Listen, port: u16) -> bool {
    match listen {
        Listen::At(addr) => covers_ipv4_localhost(Some(addr.ip)) && addr.port == port,
        Listen::Anywhere(at) => at == port,
    }
}

/// The console can be reached at 127.0.0.1 and `port`: by the server's own listener or by one for
/// the console, and never by both.
pub proof fn console_is_reached_once(
    bind_addr: Option<IpAddr>,
    port: u16,
    server: Listen,
    console: Option<SocketAddr>,
)
    requires
        call_ensures(listen_tcp, (bind_addr, port), server),
        call_ensures(console_addr, (bind_addr, port), console),
    ensures
        reached_at_ipv4_localhost(server, port) <==> console is None,
        console is Some ==> reached_at_ipv4_localhost(Listen::At(console->0), port),
{
}

/// The console never listens at the server's bind address, and at no other than 127.0.0.1.
pub proof fn console_is_never_external(
    bind_addr: Option<IpAddr>,
    port: u16,
    console: Option<SocketAddr>,
)
    requires
        call_ensures(console_addr, (bind_addr, port), console),
    ensures
        console is Some ==> console->0.ip == IpAddr::V4(IPV4_LOCALHOST) && Some(console->0.ip)
            != bind_addr && console->0.port == port,
{
}

/// The console has a listener of its own exactly where the server is bound to one address, and that
/// is none of 0.0.0.0, :: and 127.0.0.1; and that listener is at 127.0.0.1 and the same port.
pub proof fn console_listens_beside_other_addresses(
    bind_addr: Option<IpAddr>,
    port: u16,
    r: Option<SocketAddr>,
)
    requires
        call_ensures(console_addr, (bind_addr, port), r),
    ensures
        r is None <==> (bind_addr is None || bind_addr == Some(IpAddr::V4(0)) || bind_addr == Some(
            IpAddr::V6(0),
        ) || bind_addr == Some(IpAddr::V4(0x7f00_0001))),
        r is Some ==> r->0.ip == IpAddr::V4(0x7f00_0001) && r->0.port == port,
{
}

/// The server listens at its bind address where it has one and else anywhere, at its port.
pub proof fn server_listens_where_it_is_bound(bind_addr: Option<IpAddr>, port: u16, r: Listen)
    requires
        call_ensures(listen_tcp, (bind_addr, port), r),
    ensures
        match r {
            Listen::At(addr) => bind_addr == Some(addr.ip) && addr.port == port,
            Listen::Anywhere(at) => bind_addr is None && at == port,
        },
{
}

/// A setting that is blank gives no address, and nothing else does.
pub proof fn blank_setting_gives_no_address(
    value: &str,
    r: Result<Option<IpAddr>, BindAddressError>,
)
    requires
        call_ensures(parse_bind_address, (value,), r),
    ensures
        r is Ok && r->Ok_0 is None <==> is_blank(value@),
{
    let empty = Seq::<char>::empty();
    let (before, after) = trimmed_text_is_the_middle(value@);
    if is_blank(value@) {
        assert(value@ =~= value@ + empty + empty);
        only_white_space_is_trimmed(value@, empty, empty);
    } else if trimmed(value@).len() == 0 {
        assert forall|i: int| 0 <= i < value@.len() implies is_white_space(#[trigger] value@[i]) by {
            if i < before.len() {
                assert(value@[i] == before[i]);
            } else {
                assert(value@[i] == after[i - before.len()]);
            }
        }
    }
}

/// A wrong setting is told, without the white space around it.
pub proof fn wrong_setting_is_told(error: &BindAddressError, message: String, cause: String)
    requires
        call_ensures(BindAddressError::message, (error,), message),
        call_ensures(BindAddressError::cause, (error,), cause),
    ensures
        message@ == "Invalid bind address: "@ + error.address@,
        cause@ == "invalid IP address syntax"@,
{
}

/// Only 0.0.0.0 and :: stand for all addresses.
pub proof fn only_zero_is_unspecified(ip: &IpAddr, r: bool)
    requires
        call_ensures(IpAddr::is_unspecified, (ip,), r),
    ensures
        r <==> *ip == IpAddr::V4(0) || *ip == IpAddr::V6(0),
{
}

}
