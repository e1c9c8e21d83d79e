//! The atomic protocol unit and its codec: a fixed 39-byte header (magic,
//! version, type, two 16-byte identifiers, payload length) followed by
//! exactly `length` payload bytes, big-endian throughout.

use vstd::prelude::*;

use crate::endian::{
    lemma_be128_roundtrip, lemma_be32_roundtrip, push_be128, push_be32, read_u128_be, read_u32_be,
    spec_be128, spec_be32, spec_u128_of, spec_u32_of,
};
use crate::error::ProtocolError;

verus! {

/// Marker byte at the start of every frame.
pub const MAGIC_BYTE: u8 = 0xAA;

/// Size of the fixed header: magic, version, type, two identifiers, length.
pub const HEADER_LENGTH: usize = 39;

/// How the payload of a message is to be interpreted, and how the session
/// state machine routes it.
#[derive(Clone, Copy, Debug, PartialEq, Eq, Structural)]
pub enum MessageType {
    /// Establishes a new logical connection; carries the handshake payload.
    Initial,
    /// Carries proxied data for an established connection.
    Data,
    /// Asks that the logical connection be closed.
    Close,
    /// Checks that the logical connection is alive.
    Ping,
}

/// The protocol version; a single value is defined.
#[derive(Clone, Copy, Debug, PartialEq, Eq, Structural)]
pub enum ProtocolVersion {
    /// The current and only supported version.
    V1,
}

/// The wire byte of a protocol version.
pub open spec fn spec_version_byte(v: ProtocolVersion) -> u8 {
    match v {
        ProtocolVersion::V1 => 0x01,
    }
}

/// The wire byte of a message type.
pub open spec fn spec_type_byte(t: MessageType) -> u8 {
    match t {
        MessageType::Initial => 0x01,
        MessageType::Data => 0x02,
        MessageType::Close => 0x03,
        MessageType::Ping => 0x04,
    }
}

/// The message type a wire byte stands for, if any.
pub open spec fn spec_type_of_byte(b: u8) -> Option<MessageType> {
    if b == 0x01 {
        Some(MessageType::Initial)
    } else if b == 0x02 {
        Some(MessageType::Data)
    } else if b == 0x03 {
        Some(MessageType::Close)
    } else if b == 0x04 {
        Some(MessageType::Ping)
    } else {
        None
    }
}

/// The mathematical value of a message: its header fields and its payload
/// as a byte sequence.
#[verifier::ext_equal]
pub struct MessageModel {
    pub magic: u8,
    pub version: ProtocolVersion,
    pub message_type: MessageType,
    pub connection_id: u128,
    pub message_id: u128,
    pub length: u32,
    pub payload: Seq<u8>,
}

impl MessageModel {
    /// The declared length matches the payload actually carried.
    pub open spec fn wf(self) -> bool {
        self.length == self.payload.len()
    }
}

/// The core protocol unit transmitted through a transport stream: all
/// metadata plus the payload of one client-server exchange.
#[derive(Clone, Debug, PartialEq, Eq)]
pub struct Message {
    /// Marker identifying the beginning of a frame; one byte on the wire.
    pub magic: u8,
    /// Protocol version; one byte on the wire.
    pub version: ProtocolVersion,
    /// How the payload is interpreted and routed; one byte on the wire.
    pub message_type: MessageType,
    /// Identifies the logical connection; sixteen bytes on the wire, stable
    /// for the lifetime of one tunnel.
    pub connection_id: u128,
    /// Identifies this message; sixteen bytes on the wire, fresh per frame.
    pub message_id: u128,
    /// Payload byte count; four bytes on the wire.
    pub length: u32,
    /// The payload itself: exactly `length` bytes.
    pub payload: Vec<u8>,
}

impl View for Message {
    type V = MessageModel;

    open spec fn view(&self) -> MessageModel {
        MessageModel {
            magic: self.magic,
            version: self.version,
            message_type: self.message_type,
            connection_id: self.connection_id,
            message_id: self.message_id,
            length: self.length,
            payload: self.payload@,
        }
    }
}

/// The 39 header bytes of a message.
pub open spec fn spec_header_bytes(m: MessageModel) -> Seq<u8> {
    seq![m.magic, spec_version_byte(m.version), spec_type_byte(m.message_type)]
        + spec_be128(m.connection_id) + spec_be128(m.message_id) + spec_be32(m.length)
}

/// The full encoded frame of a message: header then payload, no padding.
pub open spec fn spec_encode_message(m: MessageModel) -> Seq<u8> {
    spec_header_bytes(m) + m.payload
}

/// What decoding a buffer yields: the message whose frame starts the
/// buffer, or the precise reason none can be produced yet or ever.
pub open spec fn spec_decode_message(b: Seq<u8>) -> Result<MessageModel, ProtocolError> {
    if b.len() < HEADER_LENGTH {
        Err(ProtocolError::Incomplete)
    } else if b[1] != spec_version_byte(ProtocolVersion::V1) {
        Err(ProtocolError::InvalidVersion)
    } else {
        match spec_type_of_byte(b[2]) {
            None => Err(ProtocolError::InvalidType),
            Some(t) => {
                let length = spec_u32_of(b.subrange(35, 39));
                if b.len() < HEADER_LENGTH + length {
                    Err(ProtocolError::Incomplete)
                } else {
                    Ok(
                        MessageModel {
                            magic: b[0],
                            version: ProtocolVersion::V1,
                            message_type: t,
                            connection_id: spec_u128_of(b.subrange(3, 19)),
                            message_id: spec_u128_of(b.subrange(19, 35)),
                            length,
                            payload: b.subrange(39, 39 + length),
                        },
                    )
                }
            },
        }
    }
}

/// Relies on uuid::Uuid::new_v4 for a fresh random 128-bit identifier;
/// nothing is promised of the value.
#[verifier::external_body]
pub fn generate_uuid() -> u128 {
    uuid::Uuid::new_v4().as_u128()
}

impl Message {
    /// The declared length matches the payload actually carried.
    pub open spec fn wf(self) -> bool {
        self@.wf()
    }

    /// Build a message of the given type for the given connection, deriving
    /// the length from the payload and drawing a fresh message identifier.
    pub fn new(msg_type: MessageType, connection_id: u128, payload: Vec<u8>) -> (r: Message)
        requires
            payload@.len() <= u32::MAX,
        ensures
            r.magic == MAGIC_BYTE,
            r.version == ProtocolVersion::V1,
            r.message_type == msg_type,
            r.connection_id == connection_id,
            r.length == payload@.len(),
            r.payload == payload,
            r.wf(),
    {
        let length: u32 = payload.len() as u32;
        Message {
            magic: MAGIC_BYTE,
            version: ProtocolVersion::V1,
            message_type: msg_type,
            connection_id,
            message_id: generate_uuid(),
            length,
            payload,
        }
    }

    /// Encode the message: magic, version, type, the two identifiers, the
    /// big-endian length, then the payload verbatim.
    pub fn encode(&self) -> (r: Vec<u8>)
        ensures
            r@ == spec_encode_message(self@),
            r@.len() == HEADER_LENGTH + self.payload@.len(),
    {
        let mut buffer: Vec<u8> = Vec::new();
        buffer.push(self.magic);
        let version_byte: u8 = match self.version {
            ProtocolVersion::V1 => 0x01,
        };
        buffer.push(version_byte);
        let type_byte: u8 = match self.message_type {
            MessageType::Initial => 0x01,
            MessageType::Data => 0x02,
            MessageType::Close => 0x03,
            MessageType::Ping => 0x04,
        };
        buffer.push(type_byte);
        push_be128(&mut buffer, self.connection_id);
        push_be128(&mut buffer, self.message_id);
        push_be32(&mut buffer, self.length);
        proof {
            assert(buffer@ =~= spec_header_bytes(self@));
        }
        let payload_len: usize = self.payload.len();
        let mut i: usize = 0;
        while i < payload_len
            invariant
                i <= payload_len,
                payload_len == self.payload@.len(),
                buffer@ == spec_header_bytes(self@) + self.payload@.subrange(0, i as int),
            decreases payload_len - i,
        {
            buffer.push(self.payload[i]);
            i = i + 1;
            proof {
                assert(buffer@ =~= spec_header_bytes(self@) + self.payload@.subrange(0, i as int));
            }
        }
        proof {
            assert(self.payload@.subrange(0, payload_len as int) =~= self.payload@);
            assert(buffer@ == spec_encode_message(self@));
        }
        buffer
    }

    /// Decode the frame at the start of `msg`.
    ///
    /// An `Incomplete` result means the caller should wait for more bytes:
    /// either the header itself or the declared payload has not fully
    /// arrived. `InvalidVersion` and `InvalidType` are fatal. Every 16-byte
    /// value forms a well-formed opaque identifier, so `InvalidIdentifier`
    /// is never produced here. The payload is returned as an independent
    /// copy; bytes past the frame are left for the next decode.
    pub fn decode(msg: &Vec<u8>) -> (r: Result<Message, ProtocolError>)
        ensures
            match r {
                Ok(m) => spec_decode_message(msg@) == Ok::<MessageModel, ProtocolError>(m@)
                    && m.wf(),
                Err(e) => spec_decode_message(msg@) == Err::<MessageModel, ProtocolError>(e),
            },
    {
        let n: usize = msg.len();
        if n < HEADER_LENGTH {
            return Err(ProtocolError::Incomplete);
        }
        let magic: u8 = msg[0];
        let version_byte: u8 = msg[1];
        let version: ProtocolVersion = match version_byte {
            0x01 => ProtocolVersion::V1,
            _ => {
                return Err(ProtocolError::InvalidVersion);
            },
        };
        let type_byte: u8 = msg[2];
        let message_type: MessageType = match type_byte {
            0x01 => MessageType::Initial,
            0x02 => MessageType::Data,
            0x03 => MessageType::Close,
            0x04 => MessageType::Ping,
            _ => {
                return Err(ProtocolError::InvalidType);
            },
        };
        let connection_id: u128 = read_u128_be(msg, 3);
        let message_id: u128 = read_u128_be(msg, 19);
        let length: u32 = read_u32_be(msg, 35);
        if n - HEADER_LENGTH < length as usize {
            return Err(ProtocolError::Incomplete);
        }
        let payload_len: usize = length as usize;
        let mut payload: Vec<u8> = Vec::new();
        let mut i: usize = 0;
        while i < payload_len
            invariant
                i <= payload_len,
                payload_len == length,
                HEADER_LENGTH + payload_len <= n,
                n == msg@.len(),
                payload@ == msg@.subrange(39, 39 + i as int),
            decreases payload_len - i,
        {
            payload.push(msg[HEADER_LENGTH + i]);
            i = i + 1;
            proof {
                assert(payload@ =~= msg@.subrange(39, 39 + i as int));
            }
        }
        let message = Message {
            magic,
            version,
            message_type,
            connection_id,
            message_id,
            length,
            payload,
        };
        proof {
            assert(message@ =~= spec_decode_message(msg@)->Ok_0);
        }
        Ok(message)
    }
}

/// A frame decodes to the message it encodes even when later bytes follow
/// it in the buffer; exactly the 39 + `length` frame bytes are consumed.
pub proof fn lemma_decode_frame_with_trailing(m: MessageModel, extra: Seq<u8>)
    requires
        m.wf(),
    ensures
        spec_decode_message(spec_encode_message(m) + extra) == Ok::<
            MessageModel,
            ProtocolError,
        >(m),
        (spec_encode_message(m) + extra).len() - (HEADER_LENGTH + m.length)
            == extra.len(),
{
    let b = spec_encode_message(m) + extra;
    assert(spec_encode_message(m).len() == 39 + m.payload.len());
    assert(b[1] == spec_version_byte(m.version));
    assert(b[2] == spec_type_byte(m.message_type));
    assert(spec_type_of_byte(spec_type_byte(m.message_type)) == Some(m.message_type));
    assert(b.subrange(35, 39) =~= spec_be32(m.length));
    lemma_be32_roundtrip(m.length);
    assert(b.subrange(3, 19) =~= spec_be128(m.connection_id));
    assert(b.subrange(19, 35) =~= spec_be128(m.message_id));
    lemma_be128_roundtrip(m.connection_id);
    lemma_be128_roundtrip(m.message_id);
    assert(b.subrange(39, 39 + m.length) =~= m.payload);
    assert(spec_decode_message(b)->Ok_0 =~= m);
}

/// Round trip: decoding an encoded message restores it in every field.
pub proof fn lemma_message_round_trip(m: MessageModel)
    requires
        m.wf(),
    ensures
        spec_decode_message(spec_encode_message(m)) == Ok::<MessageModel, ProtocolError>(m),
{
    lemma_decode_frame_with_trailing(m, Seq::<u8>::empty());
    assert(spec_encode_message(m) + Seq::<u8>::empty() =~= spec_encode_message(m));
}

/// Incompleteness monotonicity: every strict prefix of an encoded frame
/// decodes to `Incomplete`, while the full frame decodes to the message.
pub proof fn lemma_prefix_incomplete(m: MessageModel, n: int)
    requires
        m.wf(),
        0 <= n < spec_encode_message(m).len(),
    ensures
        spec_decode_message(spec_encode_message(m).subrange(0, n)) == Err::<
            MessageModel,
            ProtocolError,
        >(ProtocolError::Incomplete),
        spec_decode_message(spec_encode_message(m)) == Ok::<MessageModel, ProtocolError>(m),
{
    lemma_message_round_trip(m);
    let b = spec_encode_message(m);
    let p = b.subrange(0, n);
    assert(b.len() == 39 + m.payload.len());
    if n >= HEADER_LENGTH {
        assert(p[1] == spec_version_byte(m.version));
        assert(p[2] == spec_type_byte(m.message_type));
        assert(spec_type_of_byte(spec_type_byte(m.message_type)) == Some(m.message_type));
        assert(p.subrange(35, 39) =~= spec_be32(m.length));
        lemma_be32_roundtrip(m.length);
        assert(p.len() < HEADER_LENGTH + m.length);
    }
}

} // verus!
