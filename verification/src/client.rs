//! From a reply to the server's name and control port.

use crate::codec::{decode, decode_model, DecodeError, DiscoveryReply, DiscoveryRequest};
use crate::port::{parse_port, port_value};
use crate::tag::{json_tag, name_tag, Tag};
use crate::text::read_text;
use vstd::prelude::*;
use vstd::utf8::decode_utf8;

verus! {

/// Why a discovery attempt found no server.
#[derive(Clone, Copy, Debug, PartialEq, Eq, Structural)]
pub enum DiscoveryError {
    /// The local endpoint could not be set up, or the request not sent.
    SocketError,
    /// No reply came within the time allowed.
    Timeout,
    /// A reply came that is not a run of well-formed entries.
    MalformedReply(DecodeError),
    /// A reply came that lacks the name or the port, or whose port is not a
    /// decimal number of sixteen bits.
    MissingField,
}

/// A server: its name and its control port, as mathematical values.
pub struct Discovered {
    pub hostname: Seq<char>,
    pub port: u16,
}

/// A server that answered: its name and the port to connect to.
#[derive(Debug, PartialEq, Eq)]
pub struct DiscoveryResult {
    pub hostname: String,
    pub port: u16,
}

impl View for DiscoveryResult {
    type V = Discovered;

    open spec fn view(&self) -> Discovered {
        Discovered { hostname: self.hostname@, port: self.port }
    }
}

/// The view of the outcome of an attempt.
pub open spec fn outcome_view(res: Result<DiscoveryResult, DiscoveryError>) -> Result<
    Discovered,
    DiscoveryError,
> {
    match res {
        Ok(found) => Ok(found@),
        Err(e) => Err(e),
    }
}

/// The server that the mapping `reply` describes.
///
/// Both `NAME` and `JSON` must be there, and the value of `JSON` must denote
/// a port. The name is the value of `NAME` read as UTF-8.
pub open spec fn select(reply: Map<Seq<u8>, Seq<u8>>) -> Result<Discovered, DiscoveryError> {
    if reply.contains_key(name_tag()) && reply.contains_key(json_tag()) {
        match port_value(reply[json_tag()]) {
            Some(port) => Ok(Discovered { hostname: decode_utf8(reply[name_tag()]), port }),
            None => Err(DiscoveryError::MissingField),
        }
    } else {
        Err(DiscoveryError::MissingField)
    }
}

/// What the datagram `buf` says of the server, read for the wanted `names`.
pub open spec fn reply_model(names: Seq<Seq<u8>>, buf: Seq<u8>) -> Result<
    Discovered,
    DiscoveryError,
> {
    match decode_model(names, buf) {
        Ok(reply) => select(reply),
        Err(e) => Err(DiscoveryError::MalformedReply(e)),
    }
}

/// The server's name as the reply gives it under `NAME`, read as text.
pub fn parse_hostname(reply: &DiscoveryReply) -> (hostname: Option<String>)
    ensures
        hostname is Some <==> reply@.contains_key(name_tag()),
        hostname matches Some(h) ==> h@ == decode_utf8(reply@[name_tag()]),
{
    match reply.get(&Tag::name()) {
        Some(value) => read_text(value.as_slice()),
        None => None,
    }
}

impl DiscoveryResult {
    /// Picks the server's name and port out of a reply.
    ///
    /// Fails with `MissingField` where `NAME` or `JSON` is absent or the
    /// value of `JSON` denotes no port. Nothing is filled in by default.
    pub fn from_reply(reply: &DiscoveryReply) -> (res: Result<DiscoveryResult, DiscoveryError>)
        ensures
            outcome_view(res) == select(reply@),
    {
        let hostname = match parse_hostname(reply) {
            Some(h) => h,
            None => {
                return Err(DiscoveryError::MissingField);
            },
        };
        let port = match reply.get(&Tag::json()) {
            Some(value) => match parse_port(value.as_slice()) {
                Some(p) => p,
                None => {
                    return Err(DiscoveryError::MissingField);
                },
            },
            None => {
                return Err(DiscoveryError::MissingField);
            },
        };
        Ok(DiscoveryResult { hostname, port })
    }
}

/// Reads a reply datagram into the server's name and port.
///
/// A datagram that cannot be read gives `MalformedReply` with the reason; one
/// that can be read but does not name the server and a port gives
/// `MissingField`.
pub fn parse_reply(request: &DiscoveryRequest, payload: &[u8]) -> (res: Result<
    DiscoveryResult,
    DiscoveryError,
>)
    ensures
        outcome_view(res) == reply_model(request.names(), payload@),
{
    match decode(request, payload) {
        Ok(reply) => DiscoveryResult::from_reply(&reply),
        Err(e) => Err(DiscoveryError::MalformedReply(e)),
    }
}

} // verus!
