//! The header of a data stream: the local port that it is for.
use vstd::prelude::*;
use vstd::slice::slice_subrange;

use crate::octets::{push_be, read_be};

verus! {

/// The largest request or response that goes over a data stream.
pub const MAX_TUNNELED: usize = 33554432;

/// The local port that starts every tunneled HTTP request, in two bytes.
pub open spec fn port_header(port: u16) -> Seq<u8> {
    crate::octets::be_bytes(port as nat, 2)
}

/// The port that a data stream begins with.
pub open spec fn port_header_of(buf: Seq<u8>) -> Option<u16> {
    if buf.len() < 2 {
        None
    } else {
        Some(crate::octets::be(buf.take(2)) as u16)
    }
}

/// The 2-byte local port that starts every tunneled HTTP request.
pub fn write_port_header(port: u16) -> (out: Vec<u8>)
    ensures
        out@ == port_header(port),
{
    let mut out: Vec<u8> = Vec::new();
    push_be(&mut out, port as u64, 2);
    assert(out@ =~= port_header(port));
    out
}

/// Read the 2-byte local port that starts every tunneled HTTP request: `None`
/// where there are fewer bytes.
pub fn read_port_header(buf: &[u8]) -> (res: Option<u16>)
    ensures
        res == port_header_of(buf@),
{
    if buf.len() < 2 {
        return None;
    }
    let port: u64 = read_be(slice_subrange(buf, 0, 2));
    assert(buf@.subrange(0, 2) =~= buf@.take(2));
    proof {
        crate::octets::lemma_be_bound(buf@.take(2));
        crate::octets::lemma_pow256_small();
    }
    Some(port as u16)
}

/// A stream gives back the port that its header was written for, whatever
/// follows it.
pub proof fn law_port_header_roundtrip(port: u16, rest: Seq<u8>)
    ensures
        port_header_of(port_header(port) + rest) == Some(port),
        port_header(port).len() == 2,
{
    crate::octets::lemma_be_bytes_len(port as nat, 2);
    crate::octets::lemma_pow256_small();
    crate::octets::law_be_of_be_bytes(port as nat, 2);
    assert((port_header(port) + rest).take(2) =~= port_header(port));
}

/// The local port on a stream: its high byte, then its low byte.
pub proof fn law_port_bytes(high: u8, low: u8, rest: Seq<u8>)
    ensures
        port_header((256 * high + low) as u16) == seq![high, low],
        port_header_of(seq![high, low] + rest) == Some((256 * high + low) as u16),
        port_header_of(Seq::empty()) is None,
        port_header_of(seq![high]) is None,
{
    let port = (256 * high + low) as u16;
    crate::octets::law_short_numbers_are_written(high, low, 0, 0);
    law_port_header_roundtrip(port, rest);
}

} // verus!
