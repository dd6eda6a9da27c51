//! Streams that the edge opens towards the CLI, and what the CLI makes of them.
use vstd::prelude::*;
use vstd::slice::slice_subrange;

use crate::http::request_method;
use crate::octets::{read_be, to_bytes};
use crate::search::bytes_start_with;
use crate::udp::UDP_OPEN_MAGIC;

verus! {

/// How many bytes say what a stream is for.
pub const STREAM_PREFIX: usize = 4;

/// What a stream is for.
#[allow(inconsistent_fields)]
pub enum StreamKind {
    /// A UDP session; its port and number follow.
    Udp,
    /// A request for a local port, and how its bytes begin.
    Http { port: u16, start: Vec<u8> },
}

#[verifier::ext_equal]
#[allow(inconsistent_fields)]
pub ghost enum StreamView {
    Udp,
    Http { port: u16, start: Seq<u8> },
}

impl View for StreamKind {
    type V = StreamView;

    open spec fn view(&self) -> StreamView {
        match self {
            StreamKind::Udp => StreamView::Udp,
            StreamKind::Http { port, start } => StreamView::Http { port: *port, start: start@ },
        }
    }
}

/// What a stream that begins with these four bytes is for.
pub open spec fn kind_of(prefix: Seq<u8>) -> StreamView {
    if prefix == UDP_OPEN_MAGIC@ {
        StreamView::Udp
    } else {
        StreamView::Http {
            port: crate::octets::be(prefix.take(2)) as u16,
            start: prefix.skip(2),
        }
    }
}

/// What a stream that begins with these four bytes is for: `None` where they
/// are not four.
pub fn classify_stream(prefix: &[u8]) -> (res: Option<StreamKind>)
    ensures
        match res {
            Some(kind) => prefix@.len() == STREAM_PREFIX && kind@ == kind_of(prefix@),
            None => prefix@.len() != STREAM_PREFIX,
        },
{
    if prefix.len() != STREAM_PREFIX {
        return None;
    }
    let magic: [u8; 4] = UDP_OPEN_MAGIC;
    if bytes_start_with(prefix, magic.as_slice()) {
        assert(prefix@.take(4) =~= prefix@);
        assert(magic@ =~= prefix@);
        return Some(StreamKind::Udp);
    }
    proof {
        if prefix@ == magic@ {
            assert(magic@.is_prefix_of(prefix@)) by {
                assert(prefix@.subrange(0, 4) =~= prefix@);
            }
        }
        crate::octets::lemma_be_bound(prefix@.take(2));
        crate::octets::lemma_pow256_small();
    }
    let port: u64 = read_be(slice_subrange(prefix, 0, 2));
    assert(prefix@.subrange(0, 2) =~= prefix@.take(2));
    let start: Vec<u8> = to_bytes(slice_subrange(prefix, 2, 4));
    assert(start@ =~= prefix@.skip(2));
    Some(StreamKind::Http { port: port as u16, start })
}

/// The request that a stream carries: how it began, and the rest.
pub fn tunneled_request(start: Vec<u8>, rest: &[u8]) -> (request: Vec<u8>)
    ensures
        request@ == start@ + rest@,
{
    let mut request: Vec<u8> = start;
    request.extend_from_slice(rest);
    request
}

/// The method by which a response is read; a request without one counts as GET.
pub fn method_or_get(method: Option<String>) -> (res: String)
    ensures
        res@ == (match method {
            Some(m) => m@,
            None => "GET"@,
        }),
{
    match method {
        Some(m) => m,
        None => "GET".to_owned(),
    }
}

/// The method of a tunneled request, by which its response is read.
pub fn tunneled_method(request: &[u8]) -> (res: String)
    ensures
        res@ == (match crate::http::method_of(request@) {
            Some(m) => m,
            None => "GET"@,
        }),
{
    method_or_get(request_method(request))
}

/// The local address that UDP to a target is sent from.
pub fn udp_bind_address(target_is_ipv6: bool) -> (res: String)
    ensures
        res@ == (if target_is_ipv6 {
            "[::1]:0"@
        } else {
            "127.0.0.1:0"@
        }),
{
    if target_is_ipv6 {
        "[::1]:0".to_owned()
    } else {
        "127.0.0.1:0".to_owned()
    }
}

/// The CLI reads a UDP session open as one.
pub proof fn law_udp_open_is_recognised(port: u16, session_id: u32)
    ensures
        kind_of(crate::udp::udp_open(port, session_id).take(4)) == StreamView::Udp,
{
    crate::udp::law_udp_open_roundtrip(port, session_id);
}

/// The CLI reads back the port and the request that the edge put on a stream.
/// The one request that it would take for something else begins with `01` and
/// is for port 22101.
pub proof fn law_forwarded_request_is_read_back(port: u16, request: Seq<u8>)
    requires
        request.len() >= 2,
        port != 22101 || request.take(2) != seq![48u8, 49u8],
    ensures
        ({
            let stream = crate::stream::port_header(port) + request;
            kind_of(stream.take(4)) matches StreamView::Http { port: p, start } && p == port
                && start + stream.skip(4) == request
        }),
{
    let stream = crate::stream::port_header(port) + request;
    let prefix = stream.take(4);
    crate::stream::law_port_header_roundtrip(port, request);
    let head = crate::stream::port_header(port);
    assert(prefix.take(2) =~= head);
    assert(prefix.skip(2) =~= request.take(2));
    assert(prefix.skip(2) + stream.skip(4) =~= request);
    assert(stream.take(2) =~= head);
    assert(crate::stream::port_header_of(stream) == Some(port));
    if prefix == UDP_OPEN_MAGIC@ {
        assert(request.take(2) =~= seq![48u8, 49u8]) by {
            assert(request.take(2)[0] == prefix[2]);
            assert(request.take(2)[1] == prefix[3]);
        }
        reveal_with_fuel(crate::octets::be, 3);
        assert(head[0] == prefix[0] && head[1] == prefix[1]);
        assert(crate::octets::be(head) == 0x5655);
        assert(false);
    }
}

/// A stream is a UDP session where it begins with `VU01`, and else a request for
/// the port in its first two bytes.
pub proof fn law_stream_kinds(a: u8, b: u8, c: u8, d: u8)
    ensures
        kind_of(seq![a, b, c, d]) == (if a == 0x56 && b == 0x55 && c == 0x30 && d == 0x31 {
            StreamView::Udp
        } else {
            StreamView::Http { port: (256 * a + b) as u16, start: seq![c, d] }
        }),
{
    let prefix = seq![a, b, c, d];
    let magic = seq![0x56u8, 0x55u8, 0x30u8, 0x31u8];
    assert(UDP_OPEN_MAGIC@ =~= magic);
    if prefix == magic {
        assert(prefix[0] == magic[0] && prefix[1] == magic[1] && prefix[2] == magic[2] && prefix[3]
            == magic[3]);
    }
    if a == 0x56 && b == 0x55 && c == 0x30 && d == 0x31 {
        assert(prefix =~= magic);
    }
    assert(prefix.take(2) =~= seq![a] + seq![b]);
    assert(seq![b] =~= seq![b] + Seq::<u8>::empty());
    assert(prefix.skip(2) =~= seq![c, d]);
    crate::octets::law_first_byte_weighs_most(a, seq![b]);
    crate::octets::law_first_byte_weighs_most(b, Seq::empty());
    reveal_with_fuel(crate::octets::pow256, 2);
    assert(crate::octets::pow256(1) == 256);
    assert(crate::octets::pow256(0) == 1);
}

/// A response is read by the method of its request, and by GET where that has
/// none.
pub proof fn law_methods_of_requests(
    method: Option<String>,
    request: &[u8],
    res: String,
    other: String,
)
    requires
        call_ensures(method_or_get, (method,), res),
        call_ensures(tunneled_method, (request,), other),
    ensures
        method matches Some(m) ==> res@ == m@,
        method is None ==> res@ == seq!['G', 'E', 'T'],
        crate::http::method_of(request@) matches Some(m) ==> other@ == m,
        crate::http::method_of(request@) is None ==> other@ == seq!['G', 'E', 'T'],
{
    reveal_strlit("GET");
    assert("GET"@ =~= seq!['G', 'E', 'T']);
}

/// A stream is told by four bytes, and by no other number of them; UDP leaves from
/// the loopback address of the target's kind.
pub proof fn law_streams_are_told_by_four_bytes(
    prefix: &[u8],
    res: Option<StreamKind>,
    is_ipv6: bool,
    address: String,
)
    requires
        call_ensures(classify_stream, (prefix,), res),
        call_ensures(udp_bind_address, (is_ipv6,), address),
    ensures
        res is Some <==> prefix@.len() == 4,
        prefix@ == seq![0x56u8, 0x55u8, 0x30u8, 0x31u8] ==> (res matches Some(kind) && kind@
            == StreamView::Udp),
        prefix@.len() == 4 && prefix@ != seq![0x56u8, 0x55u8, 0x30u8, 0x31u8]
            ==> (res matches Some(kind) && kind@ == (StreamView::Http {
            port: (256 * prefix@[0] + prefix@[1]) as u16,
            start: prefix@.skip(2),
        })),
        is_ipv6 ==> address@ == "[::1]:0"@,
        !is_ipv6 ==> address@ == "127.0.0.1:0"@,
{
    if prefix@.len() == 4 {
        let (a, b, c, d) = (prefix@[0], prefix@[1], prefix@[2], prefix@[3]);
        law_stream_kinds(a, b, c, d);
        assert(prefix@ =~= seq![a, b, c, d]);
        assert(prefix@.skip(2) =~= seq![c, d]);
        if a == 0x56 && b == 0x55 && c == 0x30 && d == 0x31 {
            assert(prefix@ =~= seq![0x56u8, 0x55u8, 0x30u8, 0x31u8]);
        }
        let magic = seq![0x56u8, 0x55u8, 0x30u8, 0x31u8];
        assert(magic[0] == 0x56 && magic[1] == 0x55 && magic[2] == 0x30 && magic[3] == 0x31);
    }
}

/// A request that came in two parts is both, one behind the other.
pub proof fn law_requests_are_put_together(start: Vec<u8>, rest: &[u8], request: Vec<u8>)
    requires
        call_ensures(tunneled_request, (start, rest), request),
    ensures
        request@.len() == start@.len() + rest@.len(),
        request@.take(start@.len() as int) == start@,
        request@.skip(start@.len() as int) == rest@,
{
    assert(request@.take(start@.len() as int) =~= start@);
    assert(request@.skip(start@.len() as int) =~= rest@);
}

} // verus!
