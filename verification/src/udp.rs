//! UDP through the tunnel: datagrams, session headers and MASQUE targets.
use vstd::prelude::*;
use vstd::slice::slice_subrange;

use crate::number::{parse_unsigned, push_decimal};
use crate::octets::{push_be, read_be};
use crate::search::chars_start_with;
use crate::text::{
    before_char, chars_of, push_chars, rsplit_once_char, same_str, string_of,
    trimmed_end_char, utf8_text,
};
use crate::varint::{decode_varint, encode_varint, VarintError};

verus! {

#[verifier::external_type_specification]
#[verifier::external_body]
pub struct ExBytes(bytes::Bytes);

/// The bytes that a `bytes::Bytes` holds.
pub uninterp spec fn bytes_held(b: bytes::Bytes) -> Seq<u8>;

/// `bytes::Bytes::from` on a vector holds that vector's bytes.
#[verifier::external_body]
fn shared_bytes(v: Vec<u8>) -> (res: bytes::Bytes)
    ensures
        bytes_held(res) == v@,
{
    bytes::Bytes::from(v)
}

/// `bytes::Bytes::len` is the number of bytes held.
pub assume_specification[ bytes::Bytes::len ](b: &bytes::Bytes) -> (n: usize)
    ensures
        n == bytes_held(*b).len(),
;

/// Stream prefix that distinguishes a UDP session open from an HTTP data stream.
pub const UDP_OPEN_MAGIC: [u8; 4] = [0x56, 0x55, 0x30, 0x31];

/// Answer to a session open: datagrams may flow.
pub const UDP_READY: u8 = 0x00;

/// Answer to a session open: it failed.
pub const UDP_ERROR: u8 = 0x01;

/// Whether the CLI's answer opens a session.
pub fn session_answer(answer: u8) -> (res: Result<(), String>)
    ensures
        res is Ok <==> answer == UDP_READY,
        res matches Err(message) ==> message@ == "CLI could not open a UDP socket"@,
{
    if answer == UDP_READY {
        Ok(())
    } else {
        Err("CLI could not open a UDP socket".to_owned())
    }
}

/// What the path of a MASQUE UDP request begins with.
pub const MASQUE_UDP_PREFIX: &'static str = "/.well-known/masque/udp/";

// ---------------------------------------------------------------------------
// Datagrams

/// A datagram on the tunnel: the session in four bytes, then the payload.
pub open spec fn tunnel_datagram(session_id: u32, payload: Seq<u8>) -> Seq<u8> {
    crate::octets::be_bytes(session_id as nat, 4) + payload
}

/// The session and payload of a tunnel datagram.
pub open spec fn tunnel_datagram_of(buf: Seq<u8>) -> Option<(u32, Seq<u8>)> {
    if buf.len() < 4 {
        None
    } else {
        Some((crate::octets::be(buf.take(4)) as u32, buf.skip(4)))
    }
}

/// An HTTP/3 datagram of a request stream with context id 0 and a UDP payload
/// (RFC 9297, RFC 9298).
pub open spec fn h3_datagram(quarter_stream_id: u64, payload: Seq<u8>) -> Seq<u8> {
    crate::varint::encoding(quarter_stream_id as nat) + crate::varint::encoding(0) + payload
}

/// The quarter stream id and UDP payload of an HTTP/3 datagram.
pub open spec fn h3_datagram_of(buf: Seq<u8>) -> Option<(u64, Seq<u8>)> {
    match crate::varint::decoding(buf) {
        Err(_) => None,
        Ok((quarter, n1)) => {
            let rest = buf.skip(n1 as int);
            match crate::varint::decoding(rest) {
                Err(_) => None,
                Ok((context, n2)) => if context == 0 {
                    Some((quarter, rest.skip(n2 as int)))
                } else {
                    None
                },
            }
        },
    }
}

/// `session_id` (4 bytes, big-endian) and the UDP payload.
pub fn encode_tunnel_datagram(session_id: u32, payload: &[u8]) -> (res: bytes::Bytes)
    ensures
        bytes_held(res) == tunnel_datagram(session_id, payload@),
{
    let mut out: Vec<u8> = Vec::new();
    push_be(&mut out, session_id as u64, 4);
    out.extend_from_slice(payload);
    assert(out@ =~= tunnel_datagram(session_id, payload@));
    shared_bytes(out)
}

pub fn decode_tunnel_datagram(buf: &[u8]) -> (res: Option<(u32, &[u8])>)
    ensures
        match res {
            Some((id, payload)) => tunnel_datagram_of(buf@) == Some((id, payload@)),
            None => tunnel_datagram_of(buf@) is None,
        },
{
    if buf.len() < 4 {
        return None;
    }
    let n: u64 = read_be(slice_subrange(buf, 0, 4));
    assert(buf@.subrange(0, 4) =~= buf@.take(4));
    proof {
        crate::octets::lemma_be_bound(buf@.take(4));
        crate::octets::lemma_pow256_small();
    }
    let payload = slice_subrange(buf, 4, buf.len());
    assert(payload@ =~= buf@.skip(4));
    Some((n as u32, payload))
}

/// HTTP/3 datagram, context id 0 and the UDP payload.
pub fn encode_h3_udp_datagram(quarter_stream_id: u64, payload: &[u8]) -> (res: Result<
    bytes::Bytes,
    VarintError,
>)
    ensures
        match res {
            Ok(b) => quarter_stream_id < 0x4000_0000_0000_0000 && bytes_held(b) == h3_datagram(
                quarter_stream_id,
                payload@,
            ),
            Err(e) => quarter_stream_id >= 0x4000_0000_0000_0000 && e == (VarintError::TooLarge {
                value: quarter_stream_id,
            }),
        },
{
    match encode_varint(Vec::new(), quarter_stream_id) {
        Err(e) => Err(e),
        Ok(out) => match encode_varint(out, 0) {
            Err(e) => Err(e),
            Ok(mut out) => {
                out.extend_from_slice(payload);
                assert(out@ =~= h3_datagram(quarter_stream_id, payload@));
                Ok(shared_bytes(out))
            },
        },
    }
}

pub fn decode_h3_udp_datagram(buf: &[u8]) -> (res: Option<(u64, &[u8])>)
    ensures
        match res {
            Some((quarter, payload)) => h3_datagram_of(buf@) == Some((quarter, payload@)),
            None => h3_datagram_of(buf@) is None,
        },
{
    match decode_varint(buf) {
        Err(_) => None,
        Ok((quarter, n1)) => {
            let rest = slice_subrange(buf, n1, buf.len());
            assert(rest@ =~= buf@.skip(n1 as int));
            match decode_varint(rest) {
                Err(_) => None,
                Ok((context, n2)) => {
                    if context != 0 {
                        return None;
                    }
                    let payload = slice_subrange(rest, n2, rest.len());
                    assert(payload@ =~= rest@.skip(n2 as int));
                    Some((quarter, payload))
                },
            }
        },
    }
}

/// A connection that takes datagrams up to `max` bytes takes one of `len`;
/// where nothing is known of it, it is tried.
pub open spec fn fits(len: nat, max: Option<usize>) -> bool {
    match max {
        Some(m) => len <= m,
        None => true,
    }
}

/// The datagram for a payload that goes over the tunnel: `None` where the
/// connection cannot take it, and the payload is dropped.
pub fn relay_to_tunnel(session_id: u32, payload: &[u8], max: Option<usize>) -> (res: Option<
    bytes::Bytes,
>)
    ensures
        match res {
            Some(b) => fits(tunnel_datagram(session_id, payload@).len(), max) && bytes_held(b)
                == tunnel_datagram(session_id, payload@),
            None => !fits(tunnel_datagram(session_id, payload@).len(), max),
        },
{
    let framed = encode_tunnel_datagram(session_id, payload);
    match max {
        Some(m) if framed.len() > m => None,
        _ => Some(framed),
    }
}

/// The HTTP/3 datagram for a payload that goes to a MASQUE client: `None` where
/// it cannot be framed or the connection cannot take it, and the payload is
/// dropped.
pub fn relay_to_client(quarter_stream_id: u64, payload: &[u8], max: Option<usize>) -> (res: Option<
    bytes::Bytes,
>)
    ensures
        match res {
            Some(b) => quarter_stream_id < 0x4000_0000_0000_0000 && fits(
                h3_datagram(quarter_stream_id, payload@).len(),
                max,
            ) && bytes_held(b) == h3_datagram(quarter_stream_id, payload@),
            None => quarter_stream_id >= 0x4000_0000_0000_0000 || !fits(
                h3_datagram(quarter_stream_id, payload@).len(),
                max,
            ),
        },
{
    match encode_h3_udp_datagram(quarter_stream_id, payload) {
        Err(_) => None,
        Ok(framed) => match max {
            Some(m) if framed.len() > m => None,
            _ => Some(framed),
        },
    }
}

/// What happens to a UDP session at one of its ends. `None` is the end of
/// whatever the payload would have come from.
pub enum RelayEvent<'a> {
    /// A payload came over the tunnel.
    FromTunnel(Option<&'a [u8]>),
    /// A payload came from the other side: the local service at the CLI, the
    /// MASQUE client at the edge.
    FromOutside(Option<&'a [u8]>),
    /// The stream that the session lasts as long as moved, or ended.
    Stream { open: bool },
}

/// What to do about it.
pub enum RelayAction {
    /// Send this datagram over the tunnel.
    ToTunnel(bytes::Bytes),
    /// Send this datagram to the MASQUE client.
    ToClient(bytes::Bytes),
    /// Send the payload to the local service as it is.
    ToService,
    /// Nothing; a payload that cannot be sent is dropped.
    Wait,
    /// The session is over.
    Stop,
}

/// What the end of a session at the CLI does, over a connection that takes
/// datagrams up to `max` bytes.
pub fn relay_at_cli(session_id: u32, event: RelayEvent, max: Option<usize>) -> (action: RelayAction)
    ensures
        match event {
            RelayEvent::FromTunnel(Some(payload)) => action is ToService,
            RelayEvent::FromOutside(Some(payload)) => {
                let framed = tunnel_datagram(session_id, payload@);
                if fits(framed.len(), max) {
                    action matches RelayAction::ToTunnel(b) && bytes_held(b) == framed
                } else {
                    action is Wait
                }
            },
            RelayEvent::Stream { open: true } => action is Wait,
            _ => action is Stop,
        },
{
    match event {
        RelayEvent::FromTunnel(Some(_)) => RelayAction::ToService,
        RelayEvent::FromOutside(Some(payload)) => match relay_to_tunnel(session_id, payload, max) {
            Some(framed) => RelayAction::ToTunnel(framed),
            None => RelayAction::Wait,
        },
        RelayEvent::Stream { open: true } => RelayAction::Wait,
        _ => RelayAction::Stop,
    }
}

/// What the end of a session at the edge does for the MASQUE client on that
/// request stream, over connections that take datagrams up to `tunnel_max` and
/// `client_max` bytes.
pub fn relay_at_edge(
    session_id: u32,
    quarter_stream_id: u64,
    event: RelayEvent,
    tunnel_max: Option<usize>,
    client_max: Option<usize>,
) -> (action: RelayAction)
    ensures
        match event {
            RelayEvent::FromOutside(Some(payload)) => {
                let framed = tunnel_datagram(session_id, payload@);
                if fits(framed.len(), tunnel_max) {
                    action matches RelayAction::ToTunnel(b) && bytes_held(b) == framed
                } else {
                    action is Wait
                }
            },
            RelayEvent::FromTunnel(Some(payload)) => {
                let framed = h3_datagram(quarter_stream_id, payload@);
                if quarter_stream_id < 0x4000_0000_0000_0000 && fits(framed.len(), client_max) {
                    action matches RelayAction::ToClient(b) && bytes_held(b) == framed
                } else {
                    action is Wait
                }
            },
            RelayEvent::Stream { open: true } => action is Wait,
            _ => action is Stop,
        },
{
    match event {
        RelayEvent::FromOutside(Some(payload)) => match relay_to_tunnel(
            session_id,
            payload,
            tunnel_max,
        ) {
            Some(framed) => RelayAction::ToTunnel(framed),
            None => RelayAction::Wait,
        },
        RelayEvent::FromTunnel(Some(payload)) => match relay_to_client(
            quarter_stream_id,
            payload,
            client_max,
        ) {
            Some(framed) => RelayAction::ToClient(framed),
            None => RelayAction::Wait,
        },
        RelayEvent::Stream { open: true } => RelayAction::Wait,
        _ => RelayAction::Stop,
    }
}

/// A tunnel datagram gives back the session and payload that it was made of.
pub proof fn law_tunnel_datagram_roundtrip(session_id: u32, payload: Seq<u8>)
    ensures
        tunnel_datagram_of(tunnel_datagram(session_id, payload)) == Some((session_id, payload)),
{
    let d = tunnel_datagram(session_id, payload);
    crate::octets::lemma_be_bytes_len(session_id as nat, 4);
    crate::octets::lemma_pow256_small();
    crate::octets::law_be_of_be_bytes(session_id as nat, 4);
    assert(d.take(4) =~= crate::octets::be_bytes(session_id as nat, 4));
    assert(d.skip(4) =~= payload);
}

/// An HTTP/3 datagram gives back the quarter stream id and payload that it was
/// made of.
pub proof fn law_h3_datagram_roundtrip(quarter_stream_id: u64, payload: Seq<u8>)
    requires
        quarter_stream_id < 0x4000_0000_0000_0000,
    ensures
        h3_datagram_of(h3_datagram(quarter_stream_id, payload)) == Some(
            (quarter_stream_id, payload),
        ),
{
    let first = crate::varint::encoding(quarter_stream_id as nat);
    let second = crate::varint::encoding(0);
    let d = h3_datagram(quarter_stream_id, payload);
    crate::varint::law_varint_roundtrip(quarter_stream_id, second + payload);
    crate::varint::law_varint_roundtrip(0, payload);
    assert(d =~= first + (second + payload));
    assert(d.skip(first.len() as int) =~= second + payload);
    assert((second + payload).skip(second.len() as int) =~= payload);
}

// ---------------------------------------------------------------------------
// Session headers

/// A session open on the wire.
pub open spec fn udp_open(port: u16, session_id: u32) -> Seq<u8> {
    UDP_OPEN_MAGIC@ + crate::octets::be_bytes(port as nat, 2) + crate::octets::be_bytes(
        session_id as nat,
        4,
    )
}

/// The port and session behind the magic of a session open.
pub open spec fn udp_open_of(rest: Seq<u8>) -> Option<(u16, u32)> {
    if rest.len() < 6 {
        None
    } else {
        Some(
            (
                crate::octets::be(rest.take(2)) as u16,
                crate::octets::be(rest.subrange(2, 6)) as u32,
            ),
        )
    }
}

/// The bytes that open a UDP session on a stream.
pub fn write_udp_open(port: u16, session_id: u32) -> (out: Vec<u8>)
    ensures
        out@ == udp_open(port, session_id),
{
    let mut out: Vec<u8> = Vec::new();
    let magic: [u8; 4] = UDP_OPEN_MAGIC;
    out.extend_from_slice(magic.as_slice());
    push_be(&mut out, port as u64, 2);
    push_be(&mut out, session_id as u64, 4);
    assert(out@ =~= udp_open(port, session_id));
    out
}

/// The port and session behind the magic of a session open: `None` where there
/// are fewer than six bytes.
pub fn read_udp_open_after_magic(rest: &[u8]) -> (res: Option<(u16, u32)>)
    ensures
        res == udp_open_of(rest@),
{
    if rest.len() < 6 {
        return None;
    }
    let port: u64 = read_be(slice_subrange(rest, 0, 2));
    let session_id: u64 = read_be(slice_subrange(rest, 2, 6));
    assert(rest@.subrange(0, 2) =~= rest@.take(2));
    proof {
        crate::octets::lemma_be_bound(rest@.take(2));
        crate::octets::lemma_be_bound(rest@.subrange(2, 6));
        crate::octets::lemma_pow256_small();
    }
    Some((port as u16, session_id as u32))
}

/// A session open gives back the port and session that it was made of.
pub proof fn law_udp_open_roundtrip(port: u16, session_id: u32)
    ensures
        udp_open(port, session_id).take(4) == UDP_OPEN_MAGIC@,
        udp_open_of(udp_open(port, session_id).skip(4)) == Some((port, session_id)),
{
    let p = crate::octets::be_bytes(port as nat, 2);
    let s = crate::octets::be_bytes(session_id as nat, 4);
    crate::octets::lemma_be_bytes_len(port as nat, 2);
    crate::octets::lemma_be_bytes_len(session_id as nat, 4);
    crate::octets::lemma_pow256_small();
    crate::octets::law_be_of_be_bytes(port as nat, 2);
    crate::octets::law_be_of_be_bytes(session_id as nat, 4);
    let open = udp_open(port, session_id);
    assert(open.take(4) =~= UDP_OPEN_MAGIC@);
    let rest = open.skip(4);
    assert(rest.take(2) =~= p);
    assert(rest.subrange(2, 6) =~= s);
}

// ---------------------------------------------------------------------------
// MASQUE targets

/// Why a path names no UDP target.
#[derive(Clone, Copy, Debug, PartialEq, Eq, Structural)]
pub enum MasqueError {
    NotMasque,
    MissingPort,
    TruncatedPercent,
    InvalidPercent,
    NotUtf8,
    InvalidPort,
}

impl MasqueError {
    /// What the error says.
    pub open spec fn text(self) -> Seq<char> {
        match self {
            MasqueError::NotMasque => "not a MASQUE UDP path"@,
            MasqueError::MissingPort => "missing MASQUE target port"@,
            MasqueError::TruncatedPercent => "truncated percent-encoding"@,
            MasqueError::InvalidPercent => "invalid percent-encoding"@,
            MasqueError::NotUtf8 => "MASQUE host is not UTF-8"@,
            MasqueError::InvalidPort => "invalid MASQUE target port"@,
        }
    }

    pub fn message(self) -> (res: String)
        ensures
            res@ == self.text(),
    {
        match self {
            MasqueError::NotMasque => "not a MASQUE UDP path".to_owned(),
            MasqueError::MissingPort => "missing MASQUE target port".to_owned(),
            MasqueError::TruncatedPercent => "truncated percent-encoding".to_owned(),
            MasqueError::InvalidPercent => "invalid percent-encoding".to_owned(),
            MasqueError::NotUtf8 => "MASQUE host is not UTF-8".to_owned(),
            MasqueError::InvalidPort => "invalid MASQUE target port".to_owned(),
        }
    }
}

/// The value of a hexadecimal digit.
pub open spec fn nibble(b: u8) -> Option<u8> {
    if 48 <= b <= 57 {
        Some((b - 48) as u8)
    } else if 97 <= b <= 102 {
        Some((b - 87) as u8)
    } else if 65 <= b <= 70 {
        Some((b - 55) as u8)
    } else {
        None
    }
}

/// Bytes with each `%` and two digits replaced by the byte that they name, or
/// the first fault from the left.
pub open spec fn percent_decoded(s: Seq<u8>) -> Result<Seq<u8>, MasqueError>
    decreases s.len(),
{
    if s.len() == 0 {
        Ok(Seq::empty())
    } else if s[0] == 37 {
        if s.len() < 3 {
            Err(MasqueError::TruncatedPercent)
        } else {
            match (nibble(s[1]), nibble(s[2])) {
                (Some(hi), Some(lo)) => match percent_decoded(s.skip(3)) {
                    Ok(rest) => Ok(seq![(16 * hi + lo) as u8] + rest),
                    Err(e) => Err(e),
                },
                _ => Err(MasqueError::InvalidPercent),
            }
        }
    } else {
        match percent_decoded(s.skip(1)) {
            Ok(rest) => Ok(seq![s[0]] + rest),
            Err(e) => Err(e),
        }
    }
}

/// The host and port that `/.well-known/masque/udp/{host}/{port}/` names.
pub open spec fn masque_target(path: Seq<char>) -> Result<(Seq<char>, u16), MasqueError> {
    let p = crate::text::before(path, '?');
    if !MASQUE_UDP_PREFIX@.is_prefix_of(p) {
        Err(MasqueError::NotMasque)
    } else {
        let rest = crate::text::trim_end_char(p.skip(MASQUE_UDP_PREFIX@.len() as int), '/');
        match crate::text::rsplit_once(rest, '/') {
            None => Err(MasqueError::MissingPort),
            Some((host, port)) => match percent_decoded(vstd::utf8::encode_utf8(host)) {
                Err(e) => Err(e),
                Ok(bytes) => if !vstd::utf8::valid_utf8(bytes) {
                    Err(MasqueError::NotUtf8)
                } else {
                    match crate::number::unsigned(port, 10, 65535) {
                        None => Err(MasqueError::InvalidPort),
                        Some(n) => Ok((vstd::utf8::decode_utf8(bytes), n as u16)),
                    }
                },
            },
        }
    }
}

/// The hosts that UDP may be relayed to.
pub open spec fn allowed_host(host: Seq<char>) -> bool {
    host == "127.0.0.1"@ || host == "localhost"@ || host == "::1"@ || host == "[::1]"@
}

/// The path of a relay to a local UDP port.
pub open spec fn masque_path(port: u16) -> Seq<char> {
    MASQUE_UDP_PREFIX@ + "127.0.0.1/"@ + crate::number::decimal(port as nat) + "/"@
}

fn hex_nibble(b: u8) -> (res: Option<u8>)
    ensures
        res == nibble(b),
        res matches Some(n) ==> n < 16,
{
    if 48 <= b && b <= 57 {
        Some(b - 48)
    } else if 97 <= b && b <= 102 {
        Some(b - 87)
    } else if 65 <= b && b <= 70 {
        Some(b - 55)
    } else {
        None
    }
}

/// Text with each `%` and two digits replaced by the byte that they name.
pub fn percent_decode(input: &str) -> (res: Result<String, MasqueError>)
    ensures
        match percent_decoded(vstd::utf8::encode_utf8(input@)) {
            Ok(bytes) => if vstd::utf8::valid_utf8(bytes) {
                res matches Ok(s) && s@ == vstd::utf8::decode_utf8(bytes)
            } else {
                res == Err::<String, MasqueError>(MasqueError::NotUtf8)
            },
            Err(e) => res == Err::<String, MasqueError>(e),
        },
{
    let bytes = input.as_bytes();
    let n: usize = bytes.len();
    let mut out: Vec<u8> = Vec::new();
    let mut i: usize = 0;
    let ghost whole = percent_decoded(bytes@);
    assert(bytes@.skip(0) =~= bytes@);
    assert(match percent_decoded(bytes@) {
        Ok(rest) => Seq::<u8>::empty() + rest =~= rest,
        Err(_) => true,
    });
    while i < n
        invariant
            i <= n,
            n == bytes@.len(),
            whole == (match percent_decoded(bytes@.skip(i as int)) {
                Ok(rest) => Ok::<Seq<u8>, MasqueError>(out@ + rest),
                Err(e) => Err(e),
            }),
            whole == percent_decoded(bytes@),
            bytes@ == vstd::utf8::encode_utf8(input@),
        decreases n - i,
    {
        let ghost rest = bytes@.skip(i as int);
        let ghost before = out@;
        if bytes[i] == 37 {
            if n - i < 3 {
                return Err(MasqueError::TruncatedPercent);
            }
            let hi: u8 = match hex_nibble(bytes[i + 1]) {
                Some(d) => d,
                None => {
                    return Err(MasqueError::InvalidPercent);
                },
            };
            let lo: u8 = match hex_nibble(bytes[i + 2]) {
                Some(d) => d,
                None => {
                    return Err(MasqueError::InvalidPercent);
                },
            };
            out.push(16 * hi + lo);
            assert(rest.skip(3) =~= bytes@.skip(i + 3));
            i = i + 3;
        } else {
            out.push(bytes[i]);
            assert(rest.skip(1) =~= bytes@.skip(i + 1));
            i = i + 1;
        }
        proof {
            match percent_decoded(bytes@.skip(i as int)) {
                Ok(r) => {
                    assert(before + (seq![out@.last()] + r) =~= out@ + r);
                },
                Err(_) => {},
            }
        }
    }
    assert(bytes@.skip(i as int) =~= Seq::empty());
    assert(out@ + Seq::<u8>::empty() =~= out@);
    match utf8_text(out.as_slice()) {
        Some(s) => Ok(s),
        None => Err(MasqueError::NotUtf8),
    }
}

/// UDP is relayed to this machine only.
pub fn is_allowed_masque_host(host: &str) -> (res: bool)
    ensures
        res == allowed_host(host@),
{
    same_str(host, "127.0.0.1") || same_str(host, "localhost") || same_str(host, "::1")
        || same_str(host, "[::1]")
}

/// Parse `/.well-known/masque/udp/{target_host}/{target_port}/`.
pub fn parse_masque_udp_path(path: &str) -> (res: Result<(String, u16), MasqueError>)
    ensures
        match res {
            Ok((host, port)) => masque_target(path@) == Ok::<(Seq<char>, u16), MasqueError>(
                (host@, port),
            ),
            Err(e) => masque_target(path@) == Err::<(Seq<char>, u16), MasqueError>(e),
        },
{
    let chars: Vec<char> = chars_of(path);
    let p = before_char(chars.as_slice(), '?');
    let prefix: Vec<char> = chars_of(MASQUE_UDP_PREFIX);
    if !chars_start_with(p, prefix.as_slice()) {
        return Err(MasqueError::NotMasque);
    }
    let behind = slice_subrange(p, prefix.len(), p.len());
    assert(behind@ =~= p@.skip(prefix@.len() as int));
    let rest = trimmed_end_char(behind, '/');
    match rsplit_once_char(rest, '/') {
        None => Err(MasqueError::MissingPort),
        Some((host, port)) => {
            let host_text: String = string_of(host);
            match percent_decode(host_text.as_str()) {
                Err(e) => Err(e),
                Ok(host) => match parse_unsigned(port, 10, 65535) {
                    None => Err(MasqueError::InvalidPort),
                    Some(n) => Ok((host, n as u16)),
                },
            }
        },
    }
}

/// The URL at which a tunnel relays UDP to a local port.
pub fn masque_udp_url(public_url: &str, port: u16) -> (res: String)
    ensures
        res@ == crate::text::trim_end_char(public_url@, '/') + masque_path(port),
{
    let chars: Vec<char> = chars_of(public_url);
    let mut out: String = String::new();
    push_chars(&mut out, trimmed_end_char(chars.as_slice(), '/'));
    out.append(MASQUE_UDP_PREFIX);
    out.append("127.0.0.1/");
    push_decimal(&mut out, port as u64);
    out.append("/");
    assert(out@ =~= crate::text::trim_end_char(public_url@, '/') + masque_path(port));
    out
}

proof fn lemma_percent_free(s: Seq<u8>)
    requires
        forall|i: int| 0 <= i < s.len() ==> #[trigger] s[i] != 37,
    ensures
        percent_decoded(s) == Ok::<Seq<u8>, MasqueError>(s),
    decreases s.len(),
{
    if s.len() > 0 {
        let rest = s.skip(1);
        assert forall|i: int| 0 <= i < rest.len() implies #[trigger] rest[i] != 37 by {
            assert(rest[i] == s[i + 1]);
        }
        lemma_percent_free(rest);
        assert(seq![s[0]] + rest =~= s);
    } else {
        assert(s =~= Seq::empty());
    }
}

proof fn lemma_prefix_has_no_query()
    ensures
        forall|i: int| 0 <= i < MASQUE_UDP_PREFIX@.len() ==> MASQUE_UDP_PREFIX@[i] != '?',
{
    reveal_strlit("/.well-known/masque/udp/");
}

/// A path made of the prefix, a host in plain ASCII and a port names that host
/// and that port.
pub proof fn law_masque_path_names_its_target(host: Seq<char>, port: u16)
    requires
        forall|i: int|
            0 <= i < host.len() ==> '\0' <= #[trigger] host[i] <= '\u{7f}' && host[i] != '?'
                && host[i] != '/' && host[i] != '%',
    ensures
        masque_target(
            MASQUE_UDP_PREFIX@ + (host + seq!['/'] + crate::number::decimal(port as nat))
                + seq!['/'],
        ) == Ok::<(Seq<char>, u16), MasqueError>((host, port)),
{
    let digits = crate::number::decimal(port as nat);
    let prefix = MASQUE_UDP_PREFIX@;
    let rest = host + seq!['/'] + digits;
    let path = prefix + rest + seq!['/'];
    let k = host.len() as int;
    crate::number::lemma_decimal_digits(port as nat);
    crate::number::law_numeral_roundtrip(port as nat, 10, 65535);
    lemma_prefix_has_no_query();
    assert forall|i: int| 0 <= i < rest.len() implies rest[i] != '?' && (i > k ==> rest[i]
        != '/') by {
        if i > k {
            assert(rest[i] == digits[i - k - 1]);
            assert(crate::text::is_digit(digits[i - k - 1]));
        } else if i < k {
            assert(rest[i] == host[i]);
        }
    }
    assert forall|i: int| 0 <= i < path.len() implies path[i] != '?' by {
        if i < prefix.len() {
            assert(path[i] == prefix[i]);
        } else if i < prefix.len() + rest.len() {
            assert(path[i] == rest[i - prefix.len()]);
        }
    }
    crate::text::lemma_find_char_none(path, '?');
    assert(path.take(prefix.len() as int) =~= prefix);
    assert(prefix.is_prefix_of(path));
    let behind = path.skip(prefix.len() as int);
    assert(behind =~= rest + seq!['/']);
    assert(behind.drop_last() =~= rest);
    assert(rest.last() != '/');
    assert(crate::text::trim_end_char(rest, '/') == rest);
    assert(crate::text::trim_end_char(behind, '/') == rest);
    crate::text::lemma_rfind_is(rest, '/', k);
    assert(rest.take(k) =~= host);
    assert(rest.skip(k + 1) =~= digits);
    assert(vstd::utf8::is_ascii_chars(host));
    vstd::utf8::is_ascii_chars_encode_utf8(host);
    vstd::utf8::encode_utf8_valid_utf8(host);
    vstd::utf8::encode_utf8_decode_utf8(host);
    let bytes = vstd::utf8::encode_utf8(host);
    assert forall|i: int| 0 <= i < bytes.len() implies #[trigger] bytes[i] != 37 by {
        assert(bytes[i] == host[i] as u8);
    }
    lemma_percent_free(bytes);
}

/// The URL of a UDP relay names the port it was made for, on a host that UDP
/// may be relayed to.
pub proof fn law_masque_url_names_its_port(port: u16)
    ensures
        masque_target(masque_path(port)) == Ok::<(Seq<char>, u16), MasqueError>(
            ("127.0.0.1"@, port),
        ),
        allowed_host("127.0.0.1"@),
{
    reveal_strlit("127.0.0.1/");
    reveal_strlit("127.0.0.1");
    reveal_strlit("/");
    law_masque_path_names_its_target("127.0.0.1"@, port);
    assert("127.0.0.1/"@ =~= "127.0.0.1"@ + seq!['/']);
    assert("/"@ =~= seq!['/']);
    assert(masque_path(port) =~= MASQUE_UDP_PREFIX@ + ("127.0.0.1"@ + seq!['/']
        + crate::number::decimal(port as nat)) + seq!['/']);
}

/// A datagram on the tunnel, byte by byte.
pub proof fn law_tunnel_datagram_bytes(a: u8, b: u8, c: u8, d: u8, payload: Seq<u8>)
    ensures
        ({
            let id = (16777216 * a + 65536 * b + 256 * c + d) as u32;
            &&& tunnel_datagram(id, payload) == seq![a, b, c, d] + payload
            &&& tunnel_datagram_of(seq![a, b, c, d] + payload) == Some((id, payload))
        }),
        payload.len() < 4 ==> tunnel_datagram_of(payload) is None,
{
    let id = (16777216 * a + 65536 * b + 256 * c + d) as u32;
    crate::octets::law_short_numbers_are_written(a, b, c, d);
    law_tunnel_datagram_roundtrip(id, payload);
}

/// An HTTP/3 datagram holds a UDP payload only under context id 0; any other
/// context is dropped.
pub proof fn law_other_contexts_are_dropped(
    quarter_stream_id: u64,
    context: u64,
    payload: Seq<u8>,
)
    requires
        quarter_stream_id < 0x4000_0000_0000_0000,
        context < 0x4000_0000_0000_0000,
    ensures
        h3_datagram_of(
            crate::varint::encoding(quarter_stream_id as nat) + crate::varint::encoding(
                context as nat,
            ) + payload,
        ) == (if context == 0 {
            Some((quarter_stream_id, payload))
        } else {
            None
        }),
        h3_datagram(quarter_stream_id, payload) == crate::varint::encoding(
            quarter_stream_id as nat,
        ) + seq![0u8] + payload,
{
    let first = crate::varint::encoding(quarter_stream_id as nat);
    let second = crate::varint::encoding(context as nat);
    let all = first + second + payload;
    crate::varint::law_varint_roundtrip(quarter_stream_id, second + payload);
    crate::varint::law_varint_roundtrip(context, payload);
    assert(all =~= first + (second + payload));
    assert(all.skip(first.len() as int) =~= second + payload);
    assert((second + payload).skip(second.len() as int) =~= payload);
    crate::varint::law_varint_bytes(0, 0, 0, 0);
}

/// The open of a UDP session, byte by byte: `VU01`, the port, the session.
pub proof fn law_udp_open_bytes(high: u8, low: u8, a: u8, b: u8, c: u8, d: u8)
    ensures
        ({
            let port = (256 * high + low) as u16;
            let id = (16777216 * a + 65536 * b + 256 * c + d) as u32;
            &&& udp_open(port, id) == seq![0x56u8, 0x55, 0x30, 0x31] + seq![high, low] + seq![
                a,
                b,
                c,
                d,
            ]
            &&& udp_open_of(seq![high, low] + seq![a, b, c, d]) == Some((port, id))
        }),
        udp_open_of(seq![high, low, a, b, c]) is None,
{
    let port = (256 * high + low) as u16;
    let id = (16777216 * a + 65536 * b + 256 * c + d) as u32;
    let head = seq![0x56u8, 0x55, 0x30, 0x31];
    crate::octets::law_short_numbers_are_written(high, low, 0, 0);
    crate::octets::law_short_numbers_are_written(a, b, c, d);
    assert(UDP_OPEN_MAGIC@ =~= head);
    law_udp_open_roundtrip(port, id);
    assert((head + seq![high, low] + seq![a, b, c, d]).skip(4) =~= seq![high, low] + seq![
        a,
        b,
        c,
        d,
    ]);
}

/// A datagram fits a connection that takes as many bytes or more, and one of
/// which nothing is known.
pub proof fn law_what_fits(len: nat, max: usize)
    ensures
        fits(len, None),
        fits(len, Some(max)) <==> len <= max,
{
}

/// UDP is relayed to this machine under four names, and to no other host.
pub proof fn law_allowed_hosts(host: Seq<char>)
    ensures
        allowed_host(host) <==> host == "127.0.0.1"@ || host == "localhost"@ || host == "::1"@
            || host == "[::1]"@,
{
}

/// A percent sign and two hexadecimal digits, in either letter case, stand for
/// the byte of that value; other bytes stand for themselves. What follows is
/// decoded on its own.
pub proof fn law_percent_decoding(b: u8, high: nat, low: nat, rest: Seq<u8>, decoded: Seq<u8>)
    requires
        high < 16,
        low < 16,
        percent_decoded(rest) == Ok::<Seq<u8>, MasqueError>(decoded),
    ensures
        percent_decoded(Seq::empty()) == Ok::<Seq<u8>, MasqueError>(Seq::empty()),
        b != 37 ==> percent_decoded(seq![b] + rest) == Ok::<Seq<u8>, MasqueError>(
            seq![b] + decoded,
        ),
        percent_decoded(
            seq![
                37u8,
                "0123456789abcdef"@[high as int] as u8,
                "0123456789abcdef"@[low as int] as u8,
            ] + rest,
        ) == Ok::<Seq<u8>, MasqueError>(seq![(16 * high + low) as u8] + decoded),
        percent_decoded(
            seq![
                37u8,
                "0123456789ABCDEF"@[high as int] as u8,
                "0123456789ABCDEF"@[low as int] as u8,
            ] + rest,
        ) == Ok::<Seq<u8>, MasqueError>(seq![(16 * high + low) as u8] + decoded),
        percent_decoded(seq![37u8]) == Err::<Seq<u8>, MasqueError>(MasqueError::TruncatedPercent),
        percent_decoded(seq![37u8, b]) == Err::<Seq<u8>, MasqueError>(
            MasqueError::TruncatedPercent,
        ),
{
    reveal_strlit("0123456789abcdef");
    reveal_strlit("0123456789ABCDEF");
    let (h, l) = ("0123456789abcdef"@[high as int] as u8, "0123456789abcdef"@[low as int] as u8);
    let (hh, ll) = ("0123456789ABCDEF"@[high as int] as u8, "0123456789ABCDEF"@[low as int] as u8);
    let plain = seq![b] + rest;
    let small = seq![37u8, h, l] + rest;
    let large = seq![37u8, hh, ll] + rest;
    assert(plain.skip(1) =~= rest);
    assert(small.skip(3) =~= rest);
    assert(large.skip(3) =~= rest);
    assert(small[0] == 37 && small[1] == h && small[2] == l);
    assert(large[0] == 37 && large[1] == hh && large[2] == ll);
    assert(nibble(h) == Some(high as u8) && nibble(l) == Some(low as u8));
    assert(nibble(hh) == Some(high as u8) && nibble(ll) == Some(low as u8));
}

/// A percent sign in front of anything but two hexadecimal digits is a fault.
pub proof fn law_percent_faults(a: u8, b: u8, rest: Seq<u8>)
    requires
        !(48 <= a <= 57 || 65 <= a <= 70 || 97 <= a <= 102) || !(48 <= b <= 57 || 65 <= b <= 70
            || 97 <= b <= 102),
    ensures
        percent_decoded(seq![37u8, a, b] + rest) == Err::<Seq<u8>, MasqueError>(
            MasqueError::InvalidPercent,
        ),
{
    let s = seq![37u8, a, b] + rest;
    assert(s[0] == 37 && s[1] == a && s[2] == b);
}

/// The target of a MASQUE path: the host up to its last slash, percent-decoded,
/// and the port behind that. Slashes behind the port and a query do not count.
pub proof fn law_masque_targets(
    host: Seq<char>,
    bytes: Seq<u8>,
    port: u16,
    slashes: Seq<char>,
    query: Seq<char>,
)
    requires
        forall|i: int| 0 <= i < host.len() ==> host[i] != '?',
        forall|i: int| 0 <= i < slashes.len() ==> slashes[i] == '/',
        percent_decoded(vstd::utf8::encode_utf8(host)) == Ok::<Seq<u8>, MasqueError>(bytes),
    ensures
        ({
            let path = "/.well-known/masque/udp/"@ + (host + seq!['/'] + crate::number::decimal(
                port as nat,
            )) + slashes;
            let target = if vstd::utf8::valid_utf8(bytes) {
                Ok::<(Seq<char>, u16), MasqueError>((vstd::utf8::decode_utf8(bytes), port))
            } else {
                Err(MasqueError::NotUtf8)
            };
            &&& masque_target(path) == target
            &&& masque_target(path + seq!['?'] + query) == target
        }),
{
    let prefix = MASQUE_UDP_PREFIX@;
    let digits = crate::number::decimal(port as nat);
    let inner = host + seq!['/'] + digits;
    let path = prefix + inner + slashes;
    let full = path + seq!['?'] + query;
    lemma_prefix_has_no_query();
    crate::number::lemma_decimal_digits(port as nat);
    assert forall|i: int| 0 <= i < digits.len() implies digits[i] != '?' && digits[i] != '/' by {
        assert(crate::text::is_digit(digits[i]));
    }
    assert forall|i: int| 0 <= i < path.len() implies path[i] != '?' by {
        if i < prefix.len() {
            assert(path[i] == prefix[i]);
        } else if i < prefix.len() + host.len() {
            assert(path[i] == host[i - prefix.len()]);
        } else if i == prefix.len() + host.len() {
            assert(path[i] == '/');
        } else if i < prefix.len() + inner.len() {
            assert(path[i] == digits[i - prefix.len() - host.len() - 1]);
        } else {
            assert(path[i] == slashes[i - prefix.len() - inner.len()]);
        }
    }
    crate::text::law_splitting(path, '?', query);
    assert(path.take(prefix.len() as int) =~= prefix);
    assert(prefix.is_prefix_of(path));
    assert(path.skip(prefix.len() as int) =~= inner + slashes);
    assert(inner.last() == digits.last());
    crate::routes::lemma_trimmed_slashes(inner, slashes);
    crate::text::law_splitting(host, '/', digits);
    crate::number::law_numeral_roundtrip(port as nat, 10, 65535);
}

/// What is said of a path that names no target.
pub proof fn law_masque_faults(path: Seq<char>, host: Seq<char>, port: Seq<char>)
    requires
        forall|i: int| 0 <= i < path.len() ==> path[i] != '?',
        forall|i: int| 0 <= i < host.len() ==> host[i] != '?' && host[i] != '/',
        forall|i: int| 0 <= i < port.len() ==> port[i] != '?' && port[i] != '/',
        host.len() > 0,
        port.len() > 0,
    ensures
        !"/.well-known/masque/udp/"@.is_prefix_of(path) ==> masque_target(path) == Err::<
            (Seq<char>, u16),
            MasqueError,
        >(MasqueError::NotMasque),
        masque_target("/.well-known/masque/udp/"@ + host) == Err::<(Seq<char>, u16), MasqueError>(
            MasqueError::MissingPort,
        ),
        crate::number::unsigned(port, 10, 65535) is None && (percent_decoded(
            vstd::utf8::encode_utf8(host),
        ) matches Ok(bytes) && vstd::utf8::valid_utf8(bytes)) ==> masque_target(
            "/.well-known/masque/udp/"@ + (host + seq!['/'] + port),
        ) == Err::<(Seq<char>, u16), MasqueError>(MasqueError::InvalidPort),
{
    let prefix = MASQUE_UDP_PREFIX@;
    let inner = host + seq!['/'] + port;
    let short = prefix + host;
    let long = prefix + inner;
    lemma_prefix_has_no_query();
    crate::text::lemma_find_char_none(path, '?');
    assert forall|i: int| 0 <= i < short.len() implies short[i] != '?' by {
        if i < prefix.len() {
            assert(short[i] == prefix[i]);
        } else {
            assert(short[i] == host[i - prefix.len()]);
        }
    }
    assert forall|i: int| 0 <= i < long.len() implies long[i] != '?' by {
        if i < prefix.len() {
            assert(long[i] == prefix[i]);
        } else if i < prefix.len() + host.len() {
            assert(long[i] == host[i - prefix.len()]);
        } else if i > prefix.len() + host.len() {
            assert(long[i] == port[i - prefix.len() - host.len() - 1]);
        }
    }
    crate::text::lemma_find_char_none(short, '?');
    crate::text::lemma_find_char_none(long, '?');
    assert(short.take(prefix.len() as int) =~= prefix);
    assert(long.take(prefix.len() as int) =~= prefix);
    assert(short.skip(prefix.len() as int) =~= host);
    assert(long.skip(prefix.len() as int) =~= inner);
    crate::routes::lemma_trimmed_slashes(host, Seq::empty());
    crate::routes::lemma_trimmed_slashes(inner, Seq::empty());
    assert(host + Seq::<char>::empty() =~= host);
    assert(inner + Seq::<char>::empty() =~= inner);
    assert(inner.last() == port.last());
    crate::text::law_splitting(host, '/', port);
}

/// A session opens where the CLI answers 0, and only there.
pub proof fn law_session_answers(answer: u8, res: Result<(), String>)
    requires
        call_ensures(session_answer, (answer,), res),
    ensures
        answer == 0 ==> res is Ok,
        answer != 0 ==> (res matches Err(message) && message@
            == "CLI could not open a UDP socket"@),
{
}

/// At the CLI a payload from the tunnel goes to the service as it is, and one from
/// the service goes over the tunnel behind the session's number, unless it is too
/// long. The session lasts as long as both sides and its stream.
pub proof fn law_relay_at_the_cli(
    session_id: u32,
    payload: &[u8],
    max: Option<usize>,
    event: RelayEvent,
    action: RelayAction,
)
    requires
        call_ensures(relay_at_cli, (session_id, event, max), action),
    ensures
        event matches RelayEvent::FromTunnel(Some(_)) ==> action is ToService,
        event == RelayEvent::FromOutside(Some(payload)) ==> {
            let whole = crate::octets::be_bytes(session_id as nat, 4) + payload@;
            if max matches Some(m) && m < payload@.len() + 4 {
                action is Wait
            } else {
                action matches RelayAction::ToTunnel(b) && bytes_held(b) == whole
            }
        },
        event matches RelayEvent::FromTunnel(None) ==> action is Stop,
        event matches RelayEvent::FromOutside(None) ==> action is Stop,
        event == (RelayEvent::Stream { open: false }) ==> action is Stop,
        event == (RelayEvent::Stream { open: true }) ==> action is Wait,
{
    crate::octets::lemma_be_bytes_len(session_id as nat, 4);
}

/// At the edge a payload from the client goes over the tunnel behind the session's
/// number, and one from the tunnel goes to the client behind its stream's number,
/// unless they are too long. The session lasts as long as both sides and its
/// stream.
pub proof fn law_relay_at_the_edge(
    session_id: u32,
    quarter_stream_id: u64,
    payload: &[u8],
    tunnel_max: Option<usize>,
    client_max: Option<usize>,
    event: RelayEvent,
    action: RelayAction,
)
    requires
        call_ensures(
            relay_at_edge,
            (session_id, quarter_stream_id, event, tunnel_max, client_max),
            action,
        ),
    ensures
        event == RelayEvent::FromOutside(Some(payload)) ==> {
            let whole = crate::octets::be_bytes(session_id as nat, 4) + payload@;
            if tunnel_max matches Some(m) && m < payload@.len() + 4 {
                action is Wait
            } else {
                action matches RelayAction::ToTunnel(b) && bytes_held(b) == whole
            }
        },
        event == RelayEvent::FromTunnel(Some(payload)) && quarter_stream_id
            < 0x4000_0000_0000_0000 ==> {
            let whole = crate::varint::encoding(quarter_stream_id as nat) + seq![0u8] + payload@;
            if client_max matches Some(m) && m < whole.len() {
                action is Wait
            } else {
                action matches RelayAction::ToClient(b) && bytes_held(b) == whole
            }
        },
        event matches RelayEvent::FromTunnel(None) ==> action is Stop,
        event matches RelayEvent::FromOutside(None) ==> action is Stop,
        event == (RelayEvent::Stream { open: false }) ==> action is Stop,
        event == (RelayEvent::Stream { open: true }) ==> action is Wait,
{
    crate::octets::lemma_be_bytes_len(session_id as nat, 4);
    reveal_with_fuel(crate::octets::be_bytes, 3);
    assert(crate::varint::encoding(0) =~= seq![0u8]);
}

/// What is said of a path that names no target.
pub proof fn law_masque_complaints()
    ensures
        MasqueError::NotMasque.text() == "not a MASQUE UDP path"@,
        MasqueError::MissingPort.text() == "missing MASQUE target port"@,
        MasqueError::TruncatedPercent.text() == "truncated percent-encoding"@,
        MasqueError::InvalidPercent.text() == "invalid percent-encoding"@,
        MasqueError::NotUtf8.text() == "MASQUE host is not UTF-8"@,
        MasqueError::InvalidPort.text() == "invalid MASQUE target port"@,
{
}

/// The URL of a relay is the public one, without slashes behind it, and the path of
/// the port.
pub proof fn law_urls_of_relays(public_url: &str, bare: Seq<char>, port: u16, res: String)
    requires
        call_ensures(masque_udp_url, (public_url, port), res),
        bare.len() > 0 ==> bare.last() != '/',
        public_url@ == bare || public_url@ == bare + seq!['/'],
    ensures
        res@ == bare + "/.well-known/masque/udp/127.0.0.1/"@ + crate::number::decimal(port as nat)
            + "/"@,
{
    reveal_strlit("/.well-known/masque/udp/");
    reveal_strlit("127.0.0.1/");
    reveal_strlit("/.well-known/masque/udp/127.0.0.1/");
    assert((bare + seq!['/']).drop_last() =~= bare);
    assert(crate::text::trim_end_char(bare, '/') == bare);
    assert(MASQUE_UDP_PREFIX@ + "127.0.0.1/"@ =~= "/.well-known/masque/udp/127.0.0.1/"@);
    let digits = crate::number::decimal(port as nat);
    assert(bare + (MASQUE_UDP_PREFIX@ + "127.0.0.1/"@ + digits + "/"@)
        =~= bare + (MASQUE_UDP_PREFIX@ + "127.0.0.1/"@) + digits + "/"@);
}

} // verus!
