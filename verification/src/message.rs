//! Messages on the wire: the envelope that names sender and recipient and
//! carries a payload, and the frame that tells where a message ends.

use vstd::prelude::*;
use vstd::utf8::{decode_utf8, encode_utf8, encode_utf8_decode_utf8, encode_utf8_valid_utf8, valid_utf8};
use crate::crypto::utf8_text;

verus! {

/// Why bytes are no message.
#[derive(Debug, Clone, Copy, PartialEq, Eq, Structural)]
pub enum WireError {
    /// The bytes end before the message does.
    Incomplete,
    /// The first byte names no kind of message.
    UnknownKind,
    /// A name is not text.
    BadText,
    /// The message is too long for its length to be written.
    TooLong,
}

/// The kind of a message.
#[derive(Debug, Clone, Copy, PartialEq, Eq, Structural)]
pub enum Kind {
    /// What a connection says about itself.
    Control,
    /// A job, sealed for its recipient.
    Data,
}

/// A message as a value.
pub struct MessageView {
    pub kind: Kind,
    pub sender: Seq<char>,
    pub recipient: Seq<char>,
    pub payload: Seq<u8>,
}

/// A message between two peers that are connected.
#[derive(Debug, PartialEq, Eq)]
pub struct Message {
    pub kind: Kind,
    pub sender: String,
    pub recipient: String,
    pub payload: Vec<u8>,
}

impl View for Message {
    type V = MessageView;

    open spec fn view(&self) -> MessageView {
        MessageView {
            kind: self.kind,
            sender: self.sender@,
            recipient: self.recipient@,
            payload: self.payload@,
        }
    }
}

/// A length in four bytes, the most significant first.
pub open spec fn be32(n: int) -> Seq<u8> {
    seq![
        (n / 16777216 % 256) as u8,
        (n / 65536 % 256) as u8,
        (n / 256 % 256) as u8,
        (n % 256) as u8,
    ]
}

/// The length that four bytes denote, the most significant first.
pub open spec fn read32(bytes: Seq<u8>) -> int {
    ((bytes[0] as int * 256 + bytes[1] as int) * 256 + bytes[2] as int) * 256 + bytes[3] as int
}

/// Bytes behind their length.
pub open spec fn framed(payload: Seq<u8>) -> Seq<u8> {
    be32(payload.len() as int) + payload
}

/// The byte that stands for a kind.
pub open spec fn kind_byte(kind: Kind) -> u8 {
    match kind {
        Kind::Control => 0,
        Kind::Data => 1,
    }
}

/// A message as bytes: the kind, the sender and the recipient, each behind
/// its length, and then the payload.
pub open spec fn encoded(message: MessageView) -> Seq<u8> {
    seq![kind_byte(message.kind)] + framed(encode_utf8(message.sender)) + framed(
        encode_utf8(message.recipient),
    ) + message.payload
}

/// Whether the parts of a message are short enough for their lengths to be
/// written.
pub open spec fn fits(message: MessageView) -> bool {
    encode_utf8(message.sender).len() <= u32::MAX && encode_utf8(message.recipient).len()
        <= u32::MAX
}

/// The frame at the start of `bytes`: the bytes that the length in front
/// announces, where they are all there.
pub open spec fn first_frame(bytes: Seq<u8>) -> Option<Seq<u8>> {
    if bytes.len() < 4 || bytes.len() - 4 < read32(bytes) {
        None
    } else {
        Some(bytes.subrange(4, 4 + read32(bytes)))
    }
}

/// The message that `bytes` denote.
pub open spec fn decoded(bytes: Seq<u8>) -> Result<MessageView, WireError> {
    if bytes.len() < 1 {
        Err(WireError::Incomplete)
    } else if bytes[0] > 1 {
        Err(WireError::UnknownKind)
    } else {
        let kind = if bytes[0] == 0 {
            Kind::Control
        } else {
            Kind::Data
        };
        match first_frame(bytes.skip(1)) {
            None => Err(WireError::Incomplete),
            Some(sender) => {
                let rest = bytes.skip(5 + sender.len() as int);
                match first_frame(rest) {
                    None => Err(WireError::Incomplete),
                    Some(recipient) => if valid_utf8(sender) && valid_utf8(recipient) {
                        Ok(
                            MessageView {
                                kind,
                                sender: decode_utf8(sender),
                                recipient: decode_utf8(recipient),
                                payload: rest.skip(4 + recipient.len() as int),
                            },
                        )
                    } else {
                        Err(WireError::BadText)
                    },
                }
            },
        }
    }
}

/// Four bytes denote the length they were written for.
pub proof fn lemma_read_be32(n: int)
    requires
        0 <= n <= u32::MAX,
    ensures
        be32(n).len() == 4,
        read32(be32(n)) == n,
{
    let a = n / 16777216 % 256;
    let b = n / 65536 % 256;
    let c = n / 256 % 256;
    let d = n % 256;
    assert(((a * 256 + b) * 256 + c) * 256 + d == n) by (nonlinear_arith)
        requires
            0 <= n <= 0xffff_ffff,
            a == n / 16777216 % 256,
            b == n / 65536 % 256,
            c == n / 256 % 256,
            d == n % 256,
    ;
}

/// What was framed is the first frame of what follows, whatever follows.
pub proof fn law_frame_reads_back(payload: Seq<u8>, rest: Seq<u8>)
    requires
        payload.len() <= u32::MAX,
    ensures
        first_frame(framed(payload) + rest) == Some(payload),
        (framed(payload) + rest).skip(4 + payload.len() as int) == rest,
{
    lemma_read_be32(payload.len() as int);
    let bytes = framed(payload) + rest;
    assert(bytes[0] == be32(payload.len() as int)[0]);
    assert(bytes[1] == be32(payload.len() as int)[1]);
    assert(bytes[2] == be32(payload.len() as int)[2]);
    assert(bytes[3] == be32(payload.len() as int)[3]);
    assert(bytes.subrange(4, 4 + payload.len() as int) =~= payload);
    assert(bytes.skip(4 + payload.len() as int) =~= rest);
}

/// A message that was written is the message that is read.
pub proof fn law_message_reads_back(message: MessageView)
    requires
        fits(message),
    ensures
        decoded(encoded(message)) == Ok::<MessageView, WireError>(message),
{
    let sender = encode_utf8(message.sender);
    let recipient = encode_utf8(message.recipient);
    let bytes = encoded(message);
    let tail = framed(recipient) + message.payload;
    assert(bytes.skip(1) =~= framed(sender) + tail);
    law_frame_reads_back(sender, tail);
    assert(bytes.skip(5 + sender.len() as int) =~= tail) by {
        assert(bytes.skip(5 + sender.len() as int) =~= bytes.skip(1).skip(4 + sender.len() as int));
    }
    law_frame_reads_back(recipient, message.payload);
    encode_utf8_valid_utf8(message.sender);
    encode_utf8_valid_utf8(message.recipient);
    encode_utf8_decode_utf8(message.sender);
    encode_utf8_decode_utf8(message.recipient);
}

/// Writes a length in four bytes behind `out`.
fn write32(out: &mut Vec<u8>, n: u32)
    ensures
        final(out)@ == old(out)@ + be32(n as int),
{
    let ghost before = out@;
    out.push((n / 16777216 % 256) as u8);
    out.push((n / 65536 % 256) as u8);
    out.push((n / 256 % 256) as u8);
    out.push((n % 256) as u8);
    proof {
        assert(out@ =~= before + be32(n as int));
    }
}

/// Writes `bytes` behind `out`.
fn write_all(out: &mut Vec<u8>, bytes: &[u8])
    ensures
        final(out)@ == old(out)@ + bytes@,
{
    let ghost before = out@;
    let mut i: usize = 0;
    while i < bytes.len()
        invariant
            i <= bytes.len(),
            out@ == before + bytes@.take(i as int),
        decreases bytes.len() - i,
    {
        out.push(bytes[i]);
        proof {
            assert(bytes@.take(i + 1) =~= bytes@.take(i as int).push(bytes@[i as int]));
            assert(out@ =~= before + bytes@.take(i + 1));
        }
        i += 1;
    }
    proof {
        assert(bytes@.take(bytes.len() as int) =~= bytes@);
    }
}

/// Puts `payload` behind its length. `TooLong` where the length does not
/// fit in four bytes.
pub fn frame(payload: &[u8]) -> (r: Result<Vec<u8>, WireError>)
    ensures
        payload@.len() <= u32::MAX ==> (r matches Ok(bytes) && bytes@ == framed(payload@)),
        payload@.len() > u32::MAX ==> r == Err::<Vec<u8>, WireError>(WireError::TooLong),
{
    if payload.len() > u32::MAX as usize {
        return Err(WireError::TooLong);
    }
    let mut out: Vec<u8> = Vec::new();
    write32(&mut out, payload.len() as u32);
    write_all(&mut out, payload);
    proof {
        assert(out@ =~= framed(payload@));
    }
    Ok(out)
}

/// The first frame of `bytes` from position `from` on, and where it ends;
/// nothing where the frame is not all there yet.
pub fn unframe(bytes: &[u8], from: usize) -> (r: Option<(Vec<u8>, usize)>)
    requires
        from <= bytes@.len(),
    ensures
        match first_frame(bytes@.skip(from as int)) {
            Some(payload) => r matches Some(found) && found.0@ == payload && found.1 == from + 4
                + payload.len(),
            None => r is None,
        },
{
    let ghost rest = bytes@.skip(from as int);
    if bytes.len() - from < 4 {
        return None;
    }
    proof {
        assert(rest[0] == bytes@[from as int]);
        assert(rest[1] == bytes@[from + 1]);
        assert(rest[2] == bytes@[from + 2]);
        assert(rest[3] == bytes@[from + 3]);
    }
    let n: u64 = ((bytes[from] as u64 * 256 + bytes[from + 1] as u64) * 256 + bytes[from + 2] as u64)
        * 256 + bytes[from + 3] as u64;
    if ((bytes.len() - from - 4) as u64) < n {
        return None;
    }
    let start = from + 4;
    let end = start + n as usize;
    let mut payload: Vec<u8> = Vec::new();
    let mut i: usize = start;
    while i < end
        invariant
            start <= i <= end <= bytes.len(),
            payload@ == bytes@.subrange(start as int, i as int),
        decreases end - i,
    {
        payload.push(bytes[i]);
        proof {
            assert(bytes@.subrange(start as int, i + 1) =~= bytes@.subrange(
                start as int,
                i as int,
            ).push(bytes@[i as int]));
        }
        i += 1;
    }
    proof {
        assert(rest.subrange(4, 4 + n) =~= bytes@.subrange(start as int, end as int));
    }
    Some((payload, end))
}

impl Message {
    /// The message as bytes. `TooLong` where a name is too long for its
    /// length to be written.
    pub fn encode(&self) -> (r: Result<Vec<u8>, WireError>)
        ensures
            fits(self@) ==> (r matches Ok(bytes) && bytes@ == encoded(self@)),
            !fits(self@) ==> r == Err::<Vec<u8>, WireError>(WireError::TooLong),
    {
        let sender = self.sender.as_str().as_bytes();
        let recipient = self.recipient.as_str().as_bytes();
        if sender.len() > u32::MAX as usize || recipient.len() > u32::MAX as usize {
            return Err(WireError::TooLong);
        }
        let mut out: Vec<u8> = Vec::new();
        out.push(
            match self.kind {
                Kind::Control => 0u8,
                Kind::Data => 1u8,
            },
        );
        write32(&mut out, sender.len() as u32);
        write_all(&mut out, sender);
        write32(&mut out, recipient.len() as u32);
        write_all(&mut out, recipient);
        write_all(&mut out, self.payload.as_slice());
        proof {
            assert(out@ =~= encoded(self@));
        }
        Ok(out)
    }

    /// The message that the bytes denote.
    pub fn decode(bytes: &[u8]) -> (r: Result<Message, WireError>)
        ensures
            match decoded(bytes@) {
                Ok(message) => r matches Ok(m) && m@ == message,
                Err(e) => r == Err::<Message, WireError>(e),
            },
    {
        if bytes.len() < 1 {
            return Err(WireError::Incomplete);
        }
        if bytes[0] > 1 {
            return Err(WireError::UnknownKind);
        }
        let kind = if bytes[0] == 0 {
            Kind::Control
        } else {
            Kind::Data
        };
        let (sender, at) = match unframe(bytes, 1) {
            Some(found) => found,
            None => {
                return Err(WireError::Incomplete);
            },
        };
        let (recipient, end) = match unframe(bytes, at) {
            Some(found) => found,
            None => {
                return Err(WireError::Incomplete);
            },
        };
        let mut payload: Vec<u8> = Vec::new();
        let mut i: usize = end;
        while i < bytes.len()
            invariant
                end <= i <= bytes.len(),
                payload@ == bytes@.subrange(end as int, i as int),
            decreases bytes.len() - i,
        {
            payload.push(bytes[i]);
            proof {
                assert(bytes@.subrange(end as int, i + 1) =~= bytes@.subrange(
                    end as int,
                    i as int,
                ).push(bytes@[i as int]));
            }
            i += 1;
        }
        proof {
            assert(bytes@.skip(at as int).skip(4 + recipient@.len() as int) =~= bytes@.subrange(
                end as int,
                bytes.len() as int,
            ));
        }
        let ghost sender_bytes = sender@;
        let ghost recipient_bytes = recipient@;
        match (utf8_text(sender), utf8_text(recipient)) {
            (Some(sender), Some(recipient)) => Ok(Message { kind, sender, recipient, payload }),
            _ => Err(WireError::BadText),
        }
    }
}

} // verus!
