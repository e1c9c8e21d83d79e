//! The handshake payload carried inside an `Initial` message: the client's
//! own endpoint and the server-local endpoint it asks to be proxied to,
//! in a fixed 12-byte layout. Only IPv4 endpoints can be carried.

use vstd::prelude::*;

use crate::endian::{
    lemma_be16_roundtrip, lemma_be32_roundtrip, push_be16, push_be32, read_u16_be, read_u32_be,
    spec_be16, spec_be32, spec_u16_of, spec_u32_of,
};
use crate::error::ProtocolError;

verus! {

/// Encoded size of a handshake payload: two ports and two IPv4 addresses.
pub const INIT_LENGTH: usize = 12;

/// An IP address as the tunnel sees it: the 32 bits of an IPv4 address in
/// network order, or an IPv6 address, which the protocol cannot carry.
#[derive(Clone, Copy, Debug, PartialEq, Eq, Structural)]
pub enum IpAddress {
    /// An IPv4 address, most significant octet first.
    V4(u32),
    /// An IPv6 address; the handshake rejects it at construction time.
    V6(u128),
}

/// A socket endpoint: an address and a port.
#[derive(Clone, Copy, Debug, PartialEq, Eq, Structural)]
pub struct SocketAddress {
    pub ip: IpAddress,
    pub port: u16,
}

/// The payload of an `Initial` message: the metadata that associates a
/// client with the target it asks the server to proxy to.
#[derive(Clone, Copy, Debug, PartialEq, Eq, Structural)]
pub struct InitializationMessage {
    /// IPv4 address of the client, most significant octet first.
    pub client_ip: u32,
    /// Port on which the client runs its side of the tunnel.
    pub client_port: u16,
    /// Port the server will proxy data to.
    pub proxy_port: u16,
    /// IPv4 host the server will proxy data to, most significant octet first.
    pub proxy_host: u32,
}

/// The 12 encoded bytes of a handshake payload: client port, proxy port,
/// client address, proxy host, big-endian.
pub open spec fn spec_encode_init(p: InitializationMessage) -> Seq<u8> {
    spec_be16(p.client_port) + spec_be16(p.proxy_port) + spec_be32(p.client_ip)
        + spec_be32(p.proxy_host)
}

/// What decoding a handshake payload yields: the payload parsed from the
/// first 12 bytes, or `Incomplete` when fewer are supplied.
pub open spec fn spec_decode_init(b: Seq<u8>) -> Result<InitializationMessage, ProtocolError> {
    if b.len() < INIT_LENGTH {
        Err(ProtocolError::Incomplete)
    } else {
        Ok(
            InitializationMessage {
                client_port: spec_u16_of(b.subrange(0, 2)),
                proxy_port: spec_u16_of(b.subrange(2, 4)),
                client_ip: spec_u32_of(b.subrange(4, 8)),
                proxy_host: spec_u32_of(b.subrange(8, 12)),
            },
        )
    }
}

impl InitializationMessage {
    /// Build a handshake payload from the client's endpoint and the
    /// endpoint to proxy to; fails unless both are IPv4.
    pub fn new(addr: SocketAddress, proxy_addr: SocketAddress) -> (r: Result<
        InitializationMessage,
        ProtocolError,
    >)
        ensures
            match (addr.ip, proxy_addr.ip) {
                (IpAddress::V4(client), IpAddress::V4(proxy)) => r == Ok::<
                    InitializationMessage,
                    ProtocolError,
                >(
                    InitializationMessage {
                        client_ip: client,
                        client_port: addr.port,
                        proxy_port: proxy_addr.port,
                        proxy_host: proxy,
                    },
                ),
                _ => r == Err::<InitializationMessage, ProtocolError>(
                    ProtocolError::UnsupportedAddressFamily,
                ),
            },
    {
        match (addr.ip, proxy_addr.ip) {
            (IpAddress::V4(client), IpAddress::V4(proxy)) => Ok(
                InitializationMessage {
                    client_ip: client,
                    client_port: addr.port,
                    proxy_port: proxy_addr.port,
                    proxy_host: proxy,
                },
            ),
            _ => Err(ProtocolError::UnsupportedAddressFamily),
        }
    }

    /// Encode the payload into its fixed 12-byte layout.
    pub fn encode(&self) -> (r: Vec<u8>)
        ensures
            r@ == spec_encode_init(*self),
            r@.len() == INIT_LENGTH,
    {
        let mut buffer: Vec<u8> = Vec::new();
        push_be16(&mut buffer, self.client_port);
        push_be16(&mut buffer, self.proxy_port);
        push_be32(&mut buffer, self.client_ip);
        push_be32(&mut buffer, self.proxy_host);
        proof {
            assert(buffer@ =~= spec_encode_init(*self));
        }
        buffer
    }

    /// Decode a handshake payload from the first 12 bytes of `msg`.
    ///
    /// There is no internal length field: the enclosing frame's `length`
    /// already bounds the payload, so fewer than 12 bytes means that frame
    /// declared a wrong length, which the session treats as fatal.
    pub fn decode(msg: &Vec<u8>) -> (r: Result<InitializationMessage, ProtocolError>)
        ensures
            match r {
                Ok(p) => spec_decode_init(msg@) == Ok::<InitializationMessage, ProtocolError>(p),
                Err(e) => spec_decode_init(msg@) == Err::<InitializationMessage, ProtocolError>(e),
            },
    {
        if msg.len() < INIT_LENGTH {
            return Err(ProtocolError::Incomplete);
        }
        let client_port: u16 = read_u16_be(msg, 0);
        let proxy_port: u16 = read_u16_be(msg, 2);
        let client_ip: u32 = read_u32_be(msg, 4);
        let proxy_host: u32 = read_u32_be(msg, 8);
        Ok(
            InitializationMessage {
                client_ip,
                client_port,
                proxy_port,
                proxy_host,
            },
        )
    }
}

/// Round trip: decoding an encoded handshake payload restores it.
pub proof fn lemma_init_round_trip(p: InitializationMessage)
    ensures
        spec_decode_init(spec_encode_init(p)) == Ok::<InitializationMessage, ProtocolError>(p),
{
    let b = spec_encode_init(p);
    assert(b.subrange(0, 2) =~= spec_be16(p.client_port));
    assert(b.subrange(2, 4) =~= spec_be16(p.proxy_port));
    assert(b.subrange(4, 8) =~= spec_be32(p.client_ip));
    assert(b.subrange(8, 12) =~= spec_be32(p.proxy_host));
    lemma_be16_roundtrip(p.client_port);
    lemma_be16_roundtrip(p.proxy_port);
    lemma_be32_roundtrip(p.client_ip);
    lemma_be32_roundtrip(p.proxy_host);
}

} // verus!
