//! The unified address and the choice of transport that follows from it.
//!
//! An address is either a socket endpoint, reached over TCP, or a path in
//! the filesystem, reached over a Unix-domain socket. Which of the two a
//! text means is decided by its syntax alone: a text that starts with `/` is
//! a path, a text in the form `ip:port` or `[ipv6]:port` is an endpoint, and
//! anything else is a host name that only a lookup can turn into an endpoint.
pub mod readback;
pub mod render;
pub mod syntax;

use crate::io::{ErrorKind, IoError};
use crate::net::render::{socket_v4_chars, socket_v6_chars};
use crate::net::syntax::{ip_value, socket_v4_value, socket_v6_value};
use vstd::prelude::*;
use vstd::std_specs::cmp::PartialEqSpecImpl;
use vstd::std_specs::convert::FromSpecImpl;
use vstd::string::StringSliceAdditionalSpecFns;

verus! {

/// The byte `/`, with which every path starts.
pub const SLASH: u8 = 47;

/// An IP address, held as the number that its bytes write, first byte
/// highest.
#[derive(Clone, Copy, PartialEq, Eq, Debug, Hash, Structural)]
pub enum IpAddr {
    V4(u32),
    V6(u128),
}

impl IpAddr {
    /// The IPv4 address `a.b.c.d`.
    pub fn v4(a: u8, b: u8, c: u8, d: u8) -> (ip: IpAddr)
        ensures
            ip == IpAddr::V4(syntax::quad_bits(a as nat, b as nat, c as nat, d as nat) as u32),
    {
        IpAddr::V4(((a as u32 * 256 + b as u32) * 256 + c as u32) * 256 + d as u32)
    }
}

/// A socket endpoint: an IP address and a port, and for IPv6 the zone that
/// the address belongs to (0 where it has none).
#[derive(Clone, Copy, PartialEq, Eq, Debug, Hash, Structural)]
#[allow(inconsistent_fields)]
pub enum SocketAddr {
    V4 { ip: u32, port: u16 },
    V6 { ip: u128, port: u16, scope_id: u32 },
}

impl SocketAddr {
    /// The address of this endpoint.
    pub open spec fn ip_of(self) -> IpAddr {
        match self {
            SocketAddr::V4 { ip, .. } => IpAddr::V4(ip),
            SocketAddr::V6 { ip, .. } => IpAddr::V6(ip),
        }
    }

    /// The port of this endpoint.
    pub open spec fn port_of(self) -> u16 {
        match self {
            SocketAddr::V4 { port, .. } => port,
            SocketAddr::V6 { port, .. } => port,
        }
    }

    /// This endpoint as text: `a.b.c.d:port`, `[ipv6]:port`, or
    /// `[ipv6%zone]:port` in a zone other than 0.
    pub open spec fn text(self) -> Seq<char> {
        match self {
            SocketAddr::V4 { ip, port } => socket_v4_chars(ip, port),
            SocketAddr::V6 { ip, port, scope_id } => socket_v6_chars(ip, port, scope_id),
        }
    }

    /// This endpoint as text.
    pub fn to_string(&self) -> (s: String)
        ensures
            s@ == self.text(),
    {
        match self {
            SocketAddr::V4 { ip, port } => render::socket_v4_text(*ip, *port),
            SocketAddr::V6 { ip, port, scope_id } => render::socket_v6_text(*ip, *port, *scope_id),
        }
    }

    /// The endpoint at `ip` and `port`, in no zone.
    pub fn new(ip: IpAddr, port: u16) -> (a: SocketAddr)
        ensures
            a.ip_of() == ip,
            a.port_of() == port,
            a matches SocketAddr::V6 { scope_id, .. } ==> scope_id == 0,
    {
        match ip {
            IpAddr::V4(bits) => SocketAddr::V4 { ip: bits, port },
            IpAddr::V6(bits) => SocketAddr::V6 { ip: bits, port, scope_id: 0 },
        }
    }

    /// The address of this endpoint.
    pub fn ip(&self) -> (ip: IpAddr)
        ensures
            ip == self.ip_of(),
    {
        match self {
            SocketAddr::V4 { ip, .. } => IpAddr::V4(*ip),
            SocketAddr::V6 { ip, .. } => IpAddr::V6(*ip),
        }
    }

    /// The port of this endpoint.
    pub fn port(&self) -> (port: u16)
        ensures
            port == self.port_of(),
    {
        match self {
            SocketAddr::V4 { port, .. } => *port,
            SocketAddr::V6 { port, .. } => *port,
        }
    }
}

/// Why a text gave no address.
#[derive(Clone, Copy, PartialEq, Eq, Debug, Structural)]
pub enum AddrError {
    /// The text is neither a path nor a numeric socket address.
    Malformed,
    /// The text is not numeric, and looking it up as a host name failed or
    /// found nothing.
    Unresolved,
}

/// The transport that reaches an address.
#[derive(Clone, Copy, PartialEq, Eq, Debug, Structural)]
pub enum Transport {
    Tcp,
    Unix,
}

/// An address of either family. It does not change once made.
#[derive(Debug)]
pub enum UnifyAddr {
    /// A socket endpoint, reached over TCP.
    Socket(SocketAddr),
    /// A path in the filesystem, reached over a Unix-domain socket.
    Path(String),
}

/// What a unified address is: an endpoint, or the characters of a path.
pub enum AddrView {
    Socket(SocketAddr),
    Path(Seq<char>),
}

impl View for UnifyAddr {
    type V = AddrView;

    open spec fn view(&self) -> AddrView {
        match self {
            UnifyAddr::Socket(a) => AddrView::Socket(*a),
            UnifyAddr::Path(p) => AddrView::Path(p@),
        }
    }
}

/// The endpoint that a numeric text writes, `ip:port` or `[ipv6]:port`.
pub open spec fn socket_of(text: Seq<u8>) -> Option<SocketAddr> {
    match socket_v4_value(text) {
        Some((ip, port)) => Some(SocketAddr::V4 { ip, port }),
        None => match socket_v6_value(text) {
            Some((ip, port, scope_id)) => Some(SocketAddr::V6 { ip, port, scope_id }),
            None => None,
        },
    }
}

/// The address that a bare IP text writes.
pub open spec fn ip_of_text(text: Seq<u8>) -> Option<IpAddr> {
    match ip_value(text) {
        Some(Ok(q)) => Some(IpAddr::V4(q)),
        Some(Err(v)) => Some(IpAddr::V6(v)),
        None => None,
    }
}

/// The address that a text means by its syntax alone, if it means one.
pub open spec fn address_of(s: &str) -> Option<AddrView> {
    let text = s.spec_bytes();
    if text.len() > 0 && text[0] == SLASH {
        Some(AddrView::Path(s@))
    } else {
        match socket_of(text) {
            Some(a) => Some(AddrView::Socket(a)),
            None => None,
        }
    }
}

/// What a lookup settles: the first endpoint found, the others being
/// dropped, or a failure where the lookup failed or found nothing.
pub open spec fn settled(found: Option<Vec<SocketAddr>>) -> Result<UnifyAddr, AddrError> {
    match found {
        Some(v) => if v@.len() > 0 {
            Ok(UnifyAddr::Socket(v@[0]))
        } else {
            Err(AddrError::Unresolved)
        },
        None => Err(AddrError::Unresolved),
    }
}

/// Reads a numeric socket address.
fn socket(text: &[u8]) -> (r: Option<SocketAddr>)
    ensures
        r == socket_of(text@),
{
    match syntax::socket_v4(text) {
        Some((ip, port)) => Some(SocketAddr::V4 { ip, port }),
        None => match syntax::socket_v6(text) {
            Some((ip, port, scope_id)) => Some(SocketAddr::V6 { ip, port, scope_id }),
            None => None,
        },
    }
}

impl UnifyAddr {
    /// Reads an address from its text, without looking anything up.
    ///
    /// A text that starts with `/` is a path, whatever follows. Any other
    /// text must be a numeric socket address; a host name is malformed here.
    pub fn parse(s: &str) -> (r: Result<UnifyAddr, AddrError>)
        ensures
            match address_of(s) {
                Some(v) => r matches Ok(a) && a@ == v,
                None => r == Err::<UnifyAddr, AddrError>(AddrError::Malformed),
            },
    {
        let text = s.as_bytes();
        if text.len() > 0 && text[0] == SLASH {
            return Ok(UnifyAddr::Path(s.to_owned()));
        }
        match socket(text) {
            Some(a) => Ok(UnifyAddr::Socket(a)),
            None => Err(AddrError::Malformed),
        }
    }

    /// Settles the outcome of a host name lookup: `None` for a lookup that
    /// failed, otherwise the endpoints it found, in its order.
    pub fn first_resolved(found: Option<Vec<SocketAddr>>) -> (r: Result<UnifyAddr, AddrError>)
        ensures
            r == settled(found),
    {
        match found {
            Some(v) => if v.len() > 0 {
                Ok(UnifyAddr::Socket(v[0]))
            } else {
                Err(AddrError::Unresolved)
            },
            None => Err(AddrError::Unresolved),
        }
    }

    /// Reads an address from its text, looking it up as a host name where it
    /// is not numeric.
    ///
    /// `lookup` is called only for a text that `parse` rejects, and at most
    /// once. It may block, so it belongs on a worker, off the path that must
    /// stay responsive.
    pub fn resolve<F: FnOnce(&str) -> Option<Vec<SocketAddr>>>(s: &str, lookup: F) -> (r: Result<
        UnifyAddr,
        AddrError,
    >)
        requires
            address_of(s) is None ==> lookup.requires((s,)),
        ensures
            match address_of(s) {
                Some(v) => r matches Ok(a) && a@ == v,
                None => exists|found: Option<Vec<SocketAddr>>|
                    lookup.ensures((s,), found) && r == settled(found),
            },
    {
        match UnifyAddr::parse(s) {
            Ok(a) => Ok(a),
            Err(_) => {
                let found = lookup(s);
                UnifyAddr::first_resolved(found)
            },
        }
    }

    /// This address as text: the text of the endpoint, or the path as it
    /// is.
    pub fn to_string(&self) -> (s: String)
        ensures
            s@ == match self@ {
                AddrView::Socket(a) => a.text(),
                AddrView::Path(p) => p,
            },
    {
        match self {
            UnifyAddr::Socket(a) => a.to_string(),
            UnifyAddr::Path(p) => p.clone(),
        }
    }

    /// The transport that reaches this address.
    pub fn transport(&self) -> (t: Transport)
        ensures
            t == match self@ {
                AddrView::Socket(_) => Transport::Tcp,
                AddrView::Path(_) => Transport::Unix,
            },
    {
        match self {
            UnifyAddr::Socket(_) => Transport::Tcp,
            UnifyAddr::Path(_) => Transport::Unix,
        }
    }
}

/// Whether an address and a text name the same place.
///
/// A path is the same as the text that spells it. An endpoint is the same
/// as the text of an endpoint with the same address, port and zone, and
/// also as the text of its bare IP address, whatever its port: a looseness
/// kept for callers that compare against an IP alone.
pub open spec fn same_place(addr: AddrView, text: &str) -> bool {
    match addr {
        AddrView::Socket(a) => match socket_of(text.spec_bytes()) {
            Some(b) => a == b,
            None => match ip_of_text(text.spec_bytes()) {
                Some(ip) => a.ip_of() == ip,
                None => false,
            },
        },
        AddrView::Path(p) => p == text@,
    }
}

/// Reads a bare IP address.
fn bare_ip(text: &[u8]) -> (r: Option<IpAddr>)
    ensures
        r == ip_of_text(text@),
{
    match syntax::ip(text) {
        Some(Ok(q)) => Some(IpAddr::V4(q)),
        Some(Err(v)) => Some(IpAddr::V6(v)),
        None => None,
    }
}

impl UnifyAddr {
    /// Whether this address and `text` name the same place.
    pub fn eq_str(&self, text: &str) -> (r: bool)
        ensures
            r == same_place(self@, text),
    {
        match self {
            UnifyAddr::Socket(a) => match socket(text.as_bytes()) {
                Some(b) => *a == b,
                None => match bare_ip(text.as_bytes()) {
                    Some(ip) => a.ip() == ip,
                    None => false,
                },
            },
            UnifyAddr::Path(p) => {
                let other = text.to_owned();
                *p == other
            },
        }
    }

    /// The endpoints behind this address: the one endpoint of a socket
    /// address, and an `InvalidInput` error for a path, which has none.
    pub fn to_socket_addrs(&self) -> (r: Result<Vec<SocketAddr>, IoError>)
        ensures
            match self@ {
                AddrView::Socket(a) => r matches Ok(v) && v@ == seq![a],
                AddrView::Path(_) => r matches Err(e) && e.kind == ErrorKind::InvalidInput,
            },
    {
        match self {
            UnifyAddr::Socket(a) => {
                let mut v: Vec<SocketAddr> = Vec::new();
                v.push(*a);
                Ok(v)
            },
            UnifyAddr::Path(_) => Err(
                IoError::new(
                    ErrorKind::InvalidInput,
                    "Unix domain socket paths cannot be converted to SocketAddr",
                ),
            ),
        }
    }
}

impl PartialEq for UnifyAddr {
    fn eq(&self, other: &Self) -> (r: bool) {
        match (self, other) {
            (UnifyAddr::Socket(a), UnifyAddr::Socket(b)) => *a == *b,
            (UnifyAddr::Path(p), UnifyAddr::Path(q)) => *p == *q,
            _ => false,
        }
    }
}

/// Two addresses are equal where they are of the same family and name the
/// same endpoint or spell the same path.
impl PartialEqSpecImpl for UnifyAddr {
    open spec fn obeys_eq_spec() -> bool {
        true
    }

    open spec fn eq_spec(&self, other: &Self) -> bool {
        self@ == other@
    }
}

impl Eq for UnifyAddr {

}

impl From<SocketAddr> for UnifyAddr {
    fn from(addr: SocketAddr) -> (r: Self) {
        UnifyAddr::Socket(addr)
    }
}

impl FromSpecImpl<SocketAddr> for UnifyAddr {
    open spec fn obeys_from_spec() -> bool {
        true
    }

    open spec fn from_spec(addr: SocketAddr) -> Self {
        UnifyAddr::Socket(addr)
    }
}

impl From<(IpAddr, u16)> for UnifyAddr {
    fn from(addr: (IpAddr, u16)) -> (r: Self) {
        UnifyAddr::Socket(SocketAddr::new(addr.0, addr.1))
    }
}

impl FromSpecImpl<(IpAddr, u16)> for UnifyAddr {
    open spec fn obeys_from_spec() -> bool {
        true
    }

    open spec fn from_spec(addr: (IpAddr, u16)) -> Self {
        UnifyAddr::Socket(
            match addr.0 {
                IpAddr::V4(ip) => SocketAddr::V4 { ip, port: addr.1 },
                IpAddr::V6(ip) => SocketAddr::V6 { ip, port: addr.1, scope_id: 0 },
            },
        )
    }
}

impl From<String> for UnifyAddr {
    fn from(path: String) -> (r: Self) {
        UnifyAddr::Path(path)
    }
}

impl FromSpecImpl<String> for UnifyAddr {
    open spec fn obeys_from_spec() -> bool {
        true
    }

    open spec fn from_spec(path: String) -> Self {
        UnifyAddr::Path(path)
    }
}

/// Reading with `str::parse` is `UnifyAddr::parse`: by syntax alone,
/// without looking anything up.
impl core::str::FromStr for UnifyAddr {
    type Err = AddrError;

    fn from_str(s: &str) -> (r: Result<Self, AddrError>)
        ensures
            match address_of(s) {
                Some(v) => r matches Ok(a) && a@ == v,
                None => r == Err::<UnifyAddr, AddrError>(AddrError::Malformed),
            },
    {
        UnifyAddr::parse(s)
    }
}

/// The error for an address that cannot be used as it was given.
pub open spec fn is_addr_invalid(e: IoError) -> bool {
    e.kind == ErrorKind::Other && e.message@ == "addr invalid"@
}

/// Where a stream connects to, or a listener binds, given what resolving
/// the caller's address gave: the address itself, whose family chooses the
/// transport, or an error of kind `Other` where there is no address.
pub fn target(resolved: Result<UnifyAddr, AddrError>) -> (r: Result<UnifyAddr, IoError>)
    ensures
        match resolved {
            Ok(a) => r == Ok::<UnifyAddr, IoError>(a),
            Err(_) => r matches Err(e) && is_addr_invalid(e),
        },
{
    match resolved {
        Ok(a) => Ok(a),
        Err(_) => Err(IoError::new(ErrorKind::Other, "addr invalid")),
    }
}

/// Where a TCP stream connects to, or a TCP listener binds, given what
/// resolving the caller's address gave: the endpoint, or an error of kind
/// `Other` where there is no address or the address is a path.
pub fn tcp_target(resolved: Result<UnifyAddr, AddrError>) -> (r: Result<SocketAddr, IoError>)
    ensures
        match resolved {
            Ok(UnifyAddr::Socket(a)) => r == Ok::<SocketAddr, IoError>(a),
            _ => r matches Err(e) && is_addr_invalid(e),
        },
{
    match resolved {
        Ok(UnifyAddr::Socket(a)) => Ok(a),
        _ => Err(IoError::new(ErrorKind::Other, "addr invalid")),
    }
}

/// The kind of listener that a descriptor is rebuilt as, after a restart
/// that kept it open. The descriptor is not asked: the text that the
/// listener was once bound to decides, by its syntax alone and without any
/// lookup, so the caller must have kept that text.
pub fn recovered_transport(addr: &str) -> (r: Result<Transport, IoError>)
    ensures
        match address_of(addr) {
            Some(AddrView::Socket(_)) => r == Ok::<Transport, IoError>(Transport::Tcp),
            Some(AddrView::Path(_)) => r == Ok::<Transport, IoError>(Transport::Unix),
            None => r matches Err(e) && is_addr_invalid(e),
        },
{
    match UnifyAddr::parse(addr) {
        Ok(a) => Ok(a.transport()),
        Err(_) => Err(IoError::new(ErrorKind::Other, "addr invalid")),
    }
}

/// What binding a Unix-domain listener does first.
#[derive(Clone, Copy, PartialEq, Eq, Debug, Structural)]
pub enum UnixBindStep {
    /// Something is in the way: remove it, then bind. A failure to remove
    /// it is the failure of the bind.
    RemoveThenBind,
    /// The path is free: bind.
    Bind,
}

/// Decides how a Unix-domain listener is bound, given whether anything
/// exists at its path. Whatever is there is taken for the socket file of a
/// listener that is gone, and removed, so that the bind does not fail with
/// "address in use".
pub fn unix_bind_step(entry_exists: bool) -> (step: UnixBindStep)
    ensures
        step == if entry_exists {
            UnixBindStep::RemoveThenBind
        } else {
            UnixBindStep::Bind
        },
{
    if entry_exists {
        UnixBindStep::RemoveThenBind
    } else {
        UnixBindStep::Bind
    }
}

impl Transport {
    /// Whether a stream over this transport can name its peer as a socket
    /// endpoint: a TCP stream can, a Unix-domain stream gives an
    /// `AddrNotAvailable` error.
    pub fn peer_addr_support(self) -> (r: Result<(), IoError>)
        ensures
            match self {
                Transport::Tcp => r is Ok,
                Transport::Unix => r matches Err(e) && e.kind == ErrorKind::AddrNotAvailable,
            },
    {
        match self {
            Transport::Tcp => Ok(()),
            Transport::Unix => Err(
                IoError::new(ErrorKind::AddrNotAvailable, "unix socket don't support peer_addr"),
            ),
        }
    }
}

/// The local address of a Unix-domain listener as text: its path, or an
/// error of kind `Other` for a listener that is bound to no path.
pub fn unix_local_addr(pathname: Option<String>) -> (r: Result<String, IoError>)
    ensures
        match pathname {
            Some(p) => r == Ok::<String, IoError>(p),
            None => r matches Err(e) && e.kind == ErrorKind::Other,
        },
{
    match pathname {
        Some(p) => Ok(p),
        None => Err(IoError::new(ErrorKind::Other, "No pathname for Unix socket")),
    }
}

} // verus!
