//! The wire-frame codec.
//!
//! A frame is one opcode byte followed by the payload (possibly empty).
//! Opcode `0` publishes the payload; opcode `1` subscribes the sending
//! connection. A read of zero bytes is not a frame: it signals that the
//! peer disconnected. Any other opcode is a protocol error that closes
//! only the offending connection.

use vstd::prelude::*;

verus! {

/// The intent of a frame: publish a message or subscribe as a consumer.
#[derive(Clone, Copy, Debug, PartialEq, Eq, Structural)]
pub enum MessageType {
    Publish,
    Subscribe,
}

/// The opcode byte that stands for `t` on the wire.
pub open spec fn opcode_of(t: MessageType) -> u8 {
    match t {
        MessageType::Publish => 0,
        MessageType::Subscribe => 1,
    }
}

/// The message type encoded by an opcode byte, if any.
pub open spec fn type_of_byte(byte: u8) -> Option<MessageType> {
    if byte == 0 {
        Some(MessageType::Publish)
    } else if byte == 1 {
        Some(MessageType::Subscribe)
    } else {
        None
    }
}

impl MessageType {
    /// Decodes an opcode byte; `None` for a byte outside the protocol.
    pub fn from_byte(byte: u8) -> (t: Option<MessageType>)
        ensures
            t == type_of_byte(byte),
    {
        if byte == 0 {
            Some(MessageType::Publish)
        } else if byte == 1 {
            Some(MessageType::Subscribe)
        } else {
            None
        }
    }

    /// The opcode byte for this message type.
    pub fn as_byte(self) -> (byte: u8)
        ensures
            byte == opcode_of(self),
    {
        match self {
            MessageType::Publish => 0,
            MessageType::Subscribe => 1,
        }
    }
}

/// What one read from a connection means.
#[derive(Debug)]
pub enum Decoded {
    /// A zero-length read: the peer closed the connection.
    Disconnect,
    /// A well-formed frame: its type and a copy of its payload.
    Frame(MessageType, Vec<u8>),
    /// An opcode byte outside the protocol.
    UnknownOpcode(u8),
}

/// The bytes of a frame: the opcode followed by the payload.
pub open spec fn frame_bytes(kind: MessageType, payload: Seq<u8>) -> Seq<u8> {
    seq![opcode_of(kind)] + payload
}

/// Encodes a frame for a producer: one opcode byte, then the payload.
pub fn encode(kind: MessageType, payload: &[u8]) -> (frame: Vec<u8>)
    ensures
        frame@ == frame_bytes(kind, payload@),
{
    let mut frame: Vec<u8> = Vec::new();
    frame.push(kind.as_byte());
    let mut i: usize = 0;
    while i < payload.len()
        invariant
            i <= payload@.len(),
            frame@ == seq![opcode_of(kind)] + payload@.subrange(0, i as int),
        decreases payload@.len() - i,
    {
        frame.push(payload[i]);
        assert(payload@.subrange(0, i + 1 as int) =~= payload@.subrange(0, i as int).push(
            payload@[i as int],
        ));
        i = i + 1;
    }
    assert(frame@ =~= frame_bytes(kind, payload@));
    frame
}

/// Decodes one read: disconnect on zero bytes, else the first byte is
/// the opcode and the remainder is the payload.
pub fn decode(buf: &[u8]) -> (d: Decoded)
    ensures
        buf@.len() == 0 <==> d is Disconnect,
        (d matches Decoded::Frame(kind, payload) ==> {
            &&& buf@.len() > 0
            &&& type_of_byte(buf@[0]) == Some(kind)
            &&& payload@ == buf@.skip(1)
        }),
        buf@.len() > 0 && type_of_byte(buf@[0]) is Some ==> d is Frame,
        (d matches Decoded::UnknownOpcode(byte) ==> {
            &&& buf@.len() > 0
            &&& byte == buf@[0]
            &&& type_of_byte(byte) is None
        }),
        buf@.len() > 0 && type_of_byte(buf@[0]) is None ==> d is UnknownOpcode,
{
    if buf.len() == 0 {
        return Decoded::Disconnect;
    }
    match MessageType::from_byte(buf[0]) {
        None => Decoded::UnknownOpcode(buf[0]),
        Some(kind) => {
            let mut payload: Vec<u8> = Vec::new();
            let mut i: usize = 1;
            while i < buf.len()
                invariant
                    1 <= i <= buf@.len(),
                    payload@ == buf@.subrange(1, i as int),
                decreases buf@.len() - i,
            {
                payload.push(buf[i]);
                assert(buf@.subrange(1, i + 1 as int) =~= buf@.subrange(1, i as int).push(
                    buf@[i as int],
                ));
                i = i + 1;
            }
            assert(payload@ =~= buf@.skip(1));
            Decoded::Frame(kind, payload)
        },
    }
}

} // verus!
