//! The HTTP inbound front end's core: the service that records a CONNECT
//! request's target, and the parsing of that "host:port" target into a
//! session destination. Serving the connection itself is the caller's I/O.

use vstd::prelude::*;

use crate::addr::{parse_ip, parse_ip_literal, IpAddress};
use crate::bytes::{parse_dec_u16, split_bytes, split_on};

verus! {

/// A proxy stream simply wraps another stream; the wrapping adds nothing.
pub struct SimpleProxyStream<T>(pub T);

/// Records the request target seen on an inbound HTTP connection.
pub struct ProxyService {
    pub uri: Vec<u8>,
}

impl ProxyService {
    /// A fresh service has seen no target.
    pub fn new() -> (r: ProxyService)
        ensures
            r.uri@.len() == 0,
    {
        ProxyService { uri: Vec::new() }
    }

    /// The last target seen.
    pub fn get_uri(&self) -> (r: &Vec<u8>)
        ensures
            r@ == self.uri@,
    {
        &self.uri
    }

    /// Remembers the target of a request.
    pub fn set_uri(&mut self, uri: Vec<u8>)
        ensures
            final(self).uri@ == uri@,
    {
        self.uri = uri;
    }
}

/// A session destination: a literal address or a domain name, with a port.
pub enum Destination {
    Ip(IpAddress, u16),
    Domain(Vec<u8>, u16),
}

/// The mathematical content of a destination.
pub enum DestinationModel {
    Ip(IpAddress, u16),
    Domain(Seq<u8>, u16),
}

impl View for Destination {
    type V = DestinationModel;

    open spec fn view(&self) -> DestinationModel {
        match self {
            Destination::Ip(ip, port) => DestinationModel::Ip(*ip, *port),
            Destination::Domain(host, port) => DestinationModel::Domain(host@, *port),
        }
    }
}

/// What a request target stands for: exactly two colon-separated parts, the
/// second a decimal port; the first is an address when it parses as one,
/// else a domain of at most 255 bytes. Anything else is invalid.
pub open spec fn proxy_target(uri: Seq<u8>) -> Option<DestinationModel> {
    let parts = split_on(uri, 0x3a);
    if parts.len() != 2 {
        None
    } else {
        match parse_dec_u16(parts[1]) {
            None => None,
            Some(port) => match parse_ip(parts[0]) {
                Some(ip) => Some(DestinationModel::Ip(ip, port)),
                None => if 1 <= parts[0].len() <= 255 {
                    Some(DestinationModel::Domain(parts[0], port))
                } else {
                    None
                },
            },
        }
    }
}

/// Parses a recorded request target into a destination.
pub fn parse_proxy_target(uri: &Vec<u8>) -> (r: Option<Destination>)
    ensures
        (match r {
            Some(d) => proxy_target(uri@) == Some(d@),
            None => proxy_target(uri@) is None,
        }),
{
    let parts = split_bytes(uri, 0x3a);
    proof {
        assert(parts@.map_values(|p: Vec<u8>| p@).len() == split_on(uri@, 0x3a).len());
        assert forall|i: int| 0 <= i < parts@.len() implies parts@[i]@ == split_on(uri@, 0x3a)[i] by {
            assert(parts@.map_values(|p: Vec<u8>| p@)[i] == split_on(uri@, 0x3a)[i]);
        }
    }
    if parts.len() != 2 {
        return None;
    }
    let port = match crate::bytes::dec_u16(&parts[1]) {
        Some(p) => p,
        None => {
            return None;
        },
    };
    match parse_ip_literal(&parts[0]) {
        Some(ip) => Some(Destination::Ip(ip, port)),
        None => {
            if parts[0].len() < 1 || parts[0].len() > 255 {
                return None;
            }
            Some(Destination::Domain(parts[0].clone(), port))
        },
    }
}

} // verus!
