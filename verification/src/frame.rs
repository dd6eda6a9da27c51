//! Frames of the control stream: a length in four bytes, then a message.
use vstd::prelude::*;
use vstd::slice::slice_subrange;

use crate::number::push_decimal;
use crate::octets::{push_be, read_be};

verus! {

/// The largest message that a frame carries.
pub const MAX_CONTROL_MESSAGE: usize = 65536;

/// Why a frame was refused.
#[derive(Clone, Copy, Debug, PartialEq, Eq, Structural)]
pub enum FrameError {
    /// The message to send is larger than a frame may be.
    TooLarge,
    /// The stream ended within the length.
    NoLength,
    /// The length that arrived is zero or larger than a frame may be.
    InvalidLength(usize),
}

impl FrameError {
    /// What the error says.
    pub open spec fn text(self) -> Seq<char> {
        match self {
            FrameError::TooLarge => "control message too large"@,
            FrameError::NoLength => "read control message length"@,
            FrameError::InvalidLength(len) => "invalid control message length "@
                + crate::number::decimal(len as nat),
        }
    }

    pub fn message(self) -> (res: String)
        ensures
            res@ == self.text(),
    {
        match self {
            FrameError::TooLarge => "control message too large".to_owned(),
            FrameError::NoLength => "read control message length".to_owned(),
            FrameError::InvalidLength(len) => {
                let mut out: String = String::new();
                out.append("invalid control message length ");
                push_decimal(&mut out, len as u64);
                assert(out@ =~= self.text());
                out
            },
        }
    }
}

/// A message in its frame.
pub open spec fn framed(message: Seq<u8>) -> Seq<u8> {
    crate::octets::be_bytes(message.len(), 4) + message
}

/// How many bytes of message the length of a frame announces.
pub open spec fn announced(length: Seq<u8>) -> Result<usize, FrameError> {
    if length.len() < 4 {
        Err(FrameError::NoLength)
    } else {
        let n = crate::octets::be(length.take(4));
        if n == 0 || n > MAX_CONTROL_MESSAGE {
            Err(FrameError::InvalidLength(n as usize))
        } else {
            Ok(n as usize)
        }
    }
}

/// A length-prefixed control message.
pub fn write_msg(message: &[u8]) -> (res: Result<Vec<u8>, FrameError>)
    ensures
        match res {
            Ok(out) => message@.len() <= MAX_CONTROL_MESSAGE && out@ == framed(message@),
            Err(e) => message@.len() > MAX_CONTROL_MESSAGE && e == FrameError::TooLarge,
        },
{
    if message.len() > MAX_CONTROL_MESSAGE {
        return Err(FrameError::TooLarge);
    }
    let mut out: Vec<u8> = Vec::new();
    push_be(&mut out, message.len() as u64, 4);
    out.extend_from_slice(message);
    assert(out@ =~= framed(message@));
    Ok(out)
}

/// How many bytes of message follow the four bytes of a frame's length.
pub fn read_msg_len(length: &[u8]) -> (res: Result<usize, FrameError>)
    ensures
        res == announced(length@),
        res matches Ok(n) ==> 0 < n <= MAX_CONTROL_MESSAGE,
{
    if length.len() < 4 {
        return Err(FrameError::NoLength);
    }
    let n: u64 = read_be(slice_subrange(length, 0, 4));
    assert(length@.subrange(0, 4) =~= length@.take(4));
    proof {
        crate::octets::lemma_be_bound(length@.take(4));
        crate::octets::lemma_pow256_small();
    }
    let len: usize = n as usize;
    if len == 0 || len > MAX_CONTROL_MESSAGE {
        Err(FrameError::InvalidLength(len))
    } else {
        Ok(len)
    }
}

/// A frame announces the message that it carries.
pub proof fn law_frame_roundtrip(message: Seq<u8>)
    requires
        0 < message.len() <= MAX_CONTROL_MESSAGE,
    ensures
        announced(framed(message).take(4)) == Ok::<usize, FrameError>(message.len() as usize),
        framed(message).skip(4) == message,
{
    let n = message.len();
    crate::octets::lemma_be_bytes_len(n, 4);
    crate::octets::lemma_pow256_small();
    crate::octets::law_be_of_be_bytes(n, 4);
    let length = framed(message).take(4);
    assert(length =~= crate::octets::be_bytes(n, 4));
    assert(length.take(4) =~= length);
    assert(framed(message).skip(4) =~= message);
}

/// A frame is the length of the message in four bytes, the high one first, and
/// the message. Lengths from 1 to 65536 are announced; any other is refused.
pub proof fn law_frame_bytes(message: Seq<u8>, a: u8, b: u8, c: u8, d: u8, rest: Seq<u8>)
    ensures
        message.len() == 16777216 * a + 65536 * b + 256 * c + d ==> framed(message) == seq![
            a,
            b,
            c,
            d,
        ] + message,
        ({
            let n = 16777216 * a + 65536 * b + 256 * c + d;
            announced(seq![a, b, c, d] + rest) == (if 1 <= n <= 65536 {
                Ok::<usize, FrameError>(n as usize)
            } else {
                Err(FrameError::InvalidLength(n as usize))
            })
        }),
        announced(seq![a, b, c]) == Err::<usize, FrameError>(FrameError::NoLength),
        announced(Seq::empty()) == Err::<usize, FrameError>(FrameError::NoLength),
{
    crate::octets::law_short_numbers_are_written(a, b, c, d);
    let four = seq![a, b, c, d];
    assert((four + rest).take(4) =~= four);
    crate::octets::law_short_numbers_are_read(a, b, c, d);
}

/// What is said of a control message that could not be read or written.
pub proof fn law_frame_complaints(len: usize)
    ensures
        FrameError::TooLarge.text() == "control message too large"@,
        FrameError::NoLength.text() == "read control message length"@,
        FrameError::InvalidLength(len).text() == "invalid control message length "@
            + crate::number::decimal(len as nat),
{
}

/// A message of up to 65536 bytes is sent behind its length; a longer one is
/// refused.
pub proof fn law_messages_that_are_sent(message: &[u8], res: Result<Vec<u8>, FrameError>)
    requires
        call_ensures(write_msg, (message,), res),
    ensures
        res is Ok <==> message@.len() <= 65536,
        res matches Ok(out) ==> out@.len() == message@.len() + 4 && out@.skip(4) == message@
            && crate::octets::be(out@.take(4)) == message@.len(),
        res matches Err(e) ==> e == FrameError::TooLarge,
{
    if let Ok(out) = res {
        let n = message@.len();
        crate::octets::lemma_be_bytes_len(n, 4);
        crate::octets::lemma_pow256_small();
        crate::octets::law_be_of_be_bytes(n, 4);
        assert(out@.take(4) =~= crate::octets::be_bytes(n, 4));
        assert(out@.skip(4) =~= message@);
    }
}

} // verus!
