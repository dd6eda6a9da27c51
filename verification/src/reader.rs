//! Reading HTTP/1.1 messages from a stream that arrives in pieces.
//!
//! A reader is handed each piece as it comes and says what to do next: read
//! more, take the finished message, or give up. A chunked body is decoded and
//! its head framed anew with a Content-Length.
use vstd::prelude::*;
use vstd::slice::slice_subrange;

use crate::http::{
    content_length, find_crlf, header_end, headers_complete, headers_with_content_length,
    is_chunked, response_status,
};
use crate::number::parse_unsigned;
use crate::search::{bytes_start_with, find_bytes};
use crate::text::{before_char, chars_of, same_str, trimmed, utf8_text};

verus! {

/// The largest header block that a reader buffers.
pub const MAX_HEAD: usize = 65536;

/// The largest decoded body of a chunked message.
pub const MAX_HTTP_BODY: usize = 33554432;

/// The largest chunked body that a reader buffers, framing and all.
pub const MAX_CHUNKED: usize = 33619968;

/// How much to read at once for a head.
pub const HEAD_READ: usize = 1024;

/// How much to read at once for a body.
pub const BODY_READ: usize = 16384;

/// Why a message could not be read.
#[derive(Clone, Copy, Debug, PartialEq, Eq, Structural)]
pub enum ReadError {
    ClosedInHead,
    HeadTooLarge,
    IncompleteHead,
    ClosedInBody,
    BodyTooLarge,
    ChunkLine,
    ChunkSize,
    MissingCrlf,
}

impl ReadError {
    /// What the error says.
    pub open spec fn text(self) -> Seq<char> {
        match self {
            ReadError::ClosedInHead => "connection closed before HTTP headers completed"@,
            ReadError::HeadTooLarge => "HTTP headers too large"@,
            ReadError::IncompleteHead => "incomplete HTTP headers"@,
            ReadError::ClosedInBody => "connection closed before HTTP body completed"@,
            ReadError::BodyTooLarge => "HTTP body too large"@,
            ReadError::ChunkLine => "chunk size line"@,
            ReadError::ChunkSize => "invalid chunk size"@,
            ReadError::MissingCrlf => "missing CRLF after chunk data"@,
        }
    }

    pub fn message(self) -> (res: String)
        ensures
            res@ == self.text(),
    {
        match self {
            ReadError::ClosedInHead => "connection closed before HTTP headers completed".to_owned(),
            ReadError::HeadTooLarge => "HTTP headers too large".to_owned(),
            ReadError::IncompleteHead => "incomplete HTTP headers".to_owned(),
            ReadError::ClosedInBody => "connection closed before HTTP body completed".to_owned(),
            ReadError::BodyTooLarge => "HTTP body too large".to_owned(),
            ReadError::ChunkLine => "chunk size line".to_owned(),
            ReadError::ChunkSize => "invalid chunk size".to_owned(),
            ReadError::MissingCrlf => "missing CRLF after chunk data".to_owned(),
        }
    }
}

// ---------------------------------------------------------------------------
// Chunks

/// The size that a chunk's first line announces: a hexadecimal number before
/// any `;`.
pub open spec fn chunk_size(line: Seq<u8>) -> Result<nat, ReadError> {
    if !vstd::utf8::valid_utf8(line) {
        Err(ReadError::ChunkLine)
    } else {
        match crate::number::unsigned(
            crate::text::trim(crate::text::before(vstd::utf8::decode_utf8(line), ';')),
            16,
            usize::MAX as nat,
        ) {
            Some(n) => Ok(n),
            None => Err(ReadError::ChunkSize),
        }
    }
}

/// The trailer behind the last chunk is complete.
pub open spec fn trailer_done(rest: Seq<u8>) -> bool {
    crate::http::crlf().is_prefix_of(rest) || crate::search::find(rest, crate::http::crlf_end())
        is Some
}

/// What stands at the front of a chunked body.
#[verifier::ext_equal]
pub ghost enum FirstChunk {
    /// Too few bytes to say.
    Partial,
    /// The last chunk, with its trailer.
    Last,
    /// Something that is no chunk.
    Broken(ReadError),
    /// A chunk of data, and how many bytes it takes.
    Data(Seq<u8>, int),
}

pub open spec fn first_chunk(body: Seq<u8>) -> FirstChunk {
    match crate::search::find(body, crate::http::crlf()) {
        None => FirstChunk::Partial,
        Some(rel) => match chunk_size(body.take(rel)) {
            Err(e) => FirstChunk::Broken(e),
            Ok(size) => {
                let start = rel + 2;
                if size == 0 {
                    if trailer_done(body.skip(start)) {
                        FirstChunk::Last
                    } else {
                        FirstChunk::Partial
                    }
                } else if body.len() < start + size + 2 {
                    FirstChunk::Partial
                } else if body.subrange(start + size, start + size + 2) != crate::http::crlf() {
                    FirstChunk::Broken(ReadError::MissingCrlf)
                } else {
                    FirstChunk::Data(body.subrange(start, start + size), start + size + 2)
                }
            },
        },
    }
}

/// What the bytes of a chunked body decode to.
#[verifier::ext_equal]
pub ghost enum Dechunked {
    More,
    Done(Seq<u8>),
    Failed(ReadError),
}

/// What the rest of a chunked body decodes to, behind what was decoded before.
pub open spec fn dechunk_onto(body: Seq<u8>, decoded: Seq<u8>) -> Dechunked
    decreases body.len(),
{
    match first_chunk(body) {
        FirstChunk::Partial => Dechunked::More,
        FirstChunk::Last => Dechunked::Done(decoded),
        FirstChunk::Broken(e) => Dechunked::Failed(e),
        FirstChunk::Data(data, used) => {
            if decoded.len() + data.len() > MAX_HTTP_BODY {
                Dechunked::Failed(ReadError::BodyTooLarge)
            } else {
                proof {
                    lemma_first_chunk(body);
                }
                dechunk_onto(body.skip(used), decoded + data)
            }
        },
    }
}

/// What a chunked body decodes to.
pub open spec fn dechunk(body: Seq<u8>) -> Dechunked {
    dechunk_onto(body, Seq::empty())
}

pub proof fn lemma_first_chunk(body: Seq<u8>)
    ensures
        first_chunk(body) matches FirstChunk::Data(data, used) ==> 4 <= used <= body.len(),
{
    crate::search::lemma_find(body, crate::http::crlf());
}

/// More bytes do not change what stands at the front of a body, once that can
/// be said.
proof fn lemma_first_chunk_append(body: Seq<u8>, more: Seq<u8>)
    requires
        !(first_chunk(body) is Partial),
    ensures
        first_chunk(body + more) == first_chunk(body),
{
    let crlf = crate::http::crlf();
    let end = crate::http::crlf_end();
    let whole = body + more;
    crate::search::lemma_find(body, crlf);
    crate::search::lemma_find_append(body, more, crlf);
    let rel = crate::search::find(body, crlf)->Some_0;
    assert(whole.take(rel) =~= body.take(rel));
    let start = rel + 2;
    let rest = body.skip(start);
    assert(whole.skip(start) =~= rest + more);
    if crlf.is_prefix_of(rest) {
        assert((rest + more).take(2) =~= rest.take(2));
        assert(crlf.is_prefix_of(rest + more));
    }
    if crate::search::find(rest, end) is Some {
        crate::search::lemma_find_append(rest, more, end);
    }
    match chunk_size(body.take(rel)) {
        Ok(size) => {
            if size > 0 {
                assert(whole.subrange(start + size, start + size + 2) =~= body.subrange(
                    start + size,
                    start + size + 2,
                ));
                assert(whole.subrange(start, start + size) =~= body.subrange(start, start + size));
            }
        },
        Err(_) => {},
    }
}

proof fn lemma_dechunk_append(body: Seq<u8>, more: Seq<u8>, decoded: Seq<u8>)
    requires
        !(dechunk_onto(body, decoded) is More),
    ensures
        dechunk_onto(body + more, decoded) == dechunk_onto(body, decoded),
    decreases body.len(),
{
    lemma_first_chunk_append(body, more);
    match first_chunk(body) {
        FirstChunk::Data(data, used) => {
            lemma_first_chunk(body);
            if decoded.len() + data.len() <= MAX_HTTP_BODY {
                assert((body + more).skip(used) =~= body.skip(used) + more);
                lemma_dechunk_append(body.skip(used), more, decoded + data);
            }
        },
        _ => {},
    }
}

/// Once a chunked body is decoded or refused, bytes behind it change nothing:
/// the outcome does not depend on how the stream was cut into pieces.
pub proof fn law_chunked_outcome_is_stable(body: Seq<u8>, more: Seq<u8>)
    requires
        !(dechunk(body) is More),
    ensures
        dechunk(body + more) == dechunk(body),
{
    lemma_dechunk_append(body, more, Seq::empty());
}

/// One chunk on the wire.
pub open spec fn chunk_encoding(data: Seq<u8>) -> Seq<u8> {
    vstd::utf8::encode_utf8(crate::number::hex(data.len())) + crate::http::crlf() + data
        + crate::http::crlf()
}

/// A chunked body on the wire, without trailers.
pub open spec fn chunked_encoding(chunks: Seq<Seq<u8>>) -> Seq<u8>
    decreases chunks.len(),
{
    if chunks.len() == 0 {
        seq!['0' as u8] + crate::http::crlf() + crate::http::crlf()
    } else {
        chunk_encoding(chunks[0]) + chunked_encoding(chunks.drop_first())
    }
}

/// A hexadecimal numeral reads back as the chunk size that it was written for.
proof fn lemma_chunk_size_of_hex(n: nat)
    requires
        n <= usize::MAX,
    ensures
        chunk_size(vstd::utf8::encode_utf8(crate::number::hex(n))) == Ok::<nat, ReadError>(n),
        forall|j: int|
            0 <= j < vstd::utf8::encode_utf8(crate::number::hex(n)).len()
                ==> #[trigger] vstd::utf8::encode_utf8(crate::number::hex(n))[j] != 13u8,
{
    let digits = crate::number::hex(n);
    crate::number::lemma_numeral(n, 16);
    crate::number::law_numeral_roundtrip(n, 16, usize::MAX as nat);
    assert forall|i: int| 0 <= i < digits.len() implies '0' <= #[trigger] digits[i] <= 'f'
        && digits[i] != ';' && !crate::text::is_space(digits[i]) by {
        assert(crate::number::digit_value(digits[i], 16) is Some);
    }
    assert(vstd::utf8::is_ascii_chars(digits));
    vstd::utf8::is_ascii_chars_encode_utf8(digits);
    vstd::utf8::encode_utf8_valid_utf8(digits);
    vstd::utf8::encode_utf8_decode_utf8(digits);
    crate::text::lemma_find_char_none(digits, ';');
    crate::text::lemma_trim_none(digits);
    assert forall|j: int|
        0 <= j < vstd::utf8::encode_utf8(digits).len() implies #[trigger] vstd::utf8::encode_utf8(
        digits,
    )[j] != 13u8 by {
        assert(digits[j] as u8 == vstd::utf8::encode_utf8(digits)[j]);
        assert('0' <= digits[j] <= 'f');
    }
}

/// The first CR LF of bytes that begin with `line` and CR LF stands behind
/// `line`, where that holds no CR.
proof fn lemma_line_end(line: Seq<u8>, rest: Seq<u8>)
    requires
        forall|j: int| 0 <= j < line.len() ==> #[trigger] line[j] != 13u8,
    ensures
        crate::search::find(line + crate::http::crlf() + rest, crate::http::crlf()) == Some(
            line.len() as int,
        ),
        (line + crate::http::crlf() + rest).take(line.len() as int) == line,
        (line + crate::http::crlf() + rest).skip(line.len() as int + 2) == rest,
{
    let crlf = crate::http::crlf();
    let s = line + crlf + rest;
    let k = line.len() as int;
    assert(s.subrange(k, k + 2) =~= crlf);
    assert forall|j: int| 0 <= j < k implies !#[trigger] crate::search::occurs(s, crlf, j) by {
        if crate::search::occurs(s, crlf, j) {
            assert(s.subrange(j, j + 2)[0] == s[j]);
            assert(s[j] == line[j]);
        }
    }
    crate::search::lemma_find_is(s, crlf, k);
    assert(s.take(k) =~= line);
    assert(s.skip(k + 2) =~= rest);
}

proof fn lemma_first_chunk_of_encoding(data: Seq<u8>, rest: Seq<u8>)
    requires
        0 < data.len() <= usize::MAX,
    ensures
        first_chunk(chunk_encoding(data) + rest) == FirstChunk::Data(
            data,
            chunk_encoding(data).len() as int,
        ),
{
    let crlf = crate::http::crlf();
    let line = vstd::utf8::encode_utf8(crate::number::hex(data.len()));
    lemma_chunk_size_of_hex(data.len());
    let behind = data + crlf + rest;
    let body = chunk_encoding(data) + rest;
    assert(body =~= line + crlf + behind);
    lemma_line_end(line, behind);
    let start = line.len() as int + 2;
    assert(body.subrange(start + data.len(), start + data.len() + 2) =~= crlf);
    assert(body.subrange(start, start + data.len()) =~= data);
}

proof fn lemma_dechunk_of_encoding(chunks: Seq<Seq<u8>>, rest: Seq<u8>, decoded: Seq<u8>)
    requires
        forall|i: int| 0 <= i < chunks.len() ==> (#[trigger] chunks[i]).len() > 0,
        decoded.len() + chunks.flatten().len() <= MAX_HTTP_BODY,
    ensures
        dechunk_onto(chunked_encoding(chunks) + rest, decoded) == Dechunked::Done(
            decoded + chunks.flatten(),
        ),
    decreases chunks.len(),
{
    let crlf = crate::http::crlf();
    if chunks.len() == 0 {
        let line = seq!['0' as u8];
        let behind = crlf + rest;
        let body = chunked_encoding(chunks) + rest;
        assert(body =~= line + crlf + behind);
        lemma_line_end(line, behind);
        lemma_chunk_size_of_hex(0);
        reveal_with_fuel(crate::number::numeral, 2);
        let zero = crate::number::hex(0);
        assert(zero =~= seq!['0']);
        assert(vstd::utf8::is_ascii_chars(zero));
        vstd::utf8::is_ascii_chars_encode_utf8(zero);
        assert(vstd::utf8::encode_utf8(zero)[0] == zero[0] as u8);
        assert(vstd::utf8::encode_utf8(zero) =~= line);
        assert(behind.take(2) =~= crlf);
        assert(crlf.is_prefix_of(behind));
        assert(decoded + chunks.flatten() =~= decoded);
    } else {
        let tail = chunks.drop_first();
        let data = chunks[0];
        assert(chunks.flatten() == data + tail.flatten());
        let body = chunked_encoding(chunks) + rest;
        let behind = chunked_encoding(tail) + rest;
        assert(body =~= chunk_encoding(data) + behind);
        lemma_first_chunk_of_encoding(data, behind);
        assert(body.skip(chunk_encoding(data).len() as int) =~= behind);
        assert forall|i: int| 0 <= i < tail.len() implies (#[trigger] tail[i]).len() > 0 by {
            assert(tail[i] == chunks[i + 1]);
        }
        lemma_dechunk_of_encoding(tail, rest, decoded + data);
        assert(decoded + data + tail.flatten() =~= decoded + chunks.flatten());
    }
}

/// A chunked body decodes to its chunks, joined, whatever follows it on the
/// stream.
pub proof fn law_chunks_are_joined(chunks: Seq<Seq<u8>>, rest: Seq<u8>)
    requires
        forall|i: int| 0 <= i < chunks.len() ==> (#[trigger] chunks[i]).len() > 0,
        chunks.flatten().len() <= MAX_HTTP_BODY,
    ensures
        dechunk(chunked_encoding(chunks) + rest) == Dechunked::Done(chunks.flatten()),
{
    lemma_dechunk_of_encoding(chunks, rest, Seq::empty());
    assert(Seq::<u8>::empty() + chunks.flatten() =~= chunks.flatten());
}

fn line_size(line: &[u8]) -> (res: Result<usize, ReadError>)
    ensures
        match res {
            Ok(n) => chunk_size(line@) == Ok::<nat, ReadError>(n as nat),
            Err(e) => chunk_size(line@) == Err::<nat, ReadError>(e),
        },
{
    match utf8_text(line) {
        None => Err(ReadError::ChunkLine),
        Some(text) => {
            let chars: Vec<char> = chars_of(text.as_str());
            match parse_unsigned(trimmed(before_char(chars.as_slice(), ';')), 16, usize::MAX as u64) {
                Some(n) => Ok(n as usize),
                None => Err(ReadError::ChunkSize),
            }
        },
    }
}

/// What stands at the front of a chunked body: where the data of the first
/// chunk begins and ends.
enum Front {
    Partial,
    Last,
    Broken(ReadError),
    Data(usize, usize),
}

fn front_of(body: &[u8]) -> (res: Front)
    ensures
        match res {
            Front::Partial => first_chunk(body@) is Partial,
            Front::Last => first_chunk(body@) is Last,
            Front::Broken(e) => first_chunk(body@) == FirstChunk::Broken(e),
            Front::Data(a, b) => a <= b && b + 2 <= body@.len() && first_chunk(body@)
                == FirstChunk::Data(body@.subrange(a as int, b as int), b + 2),
        },
{
    let n: usize = body.len();
    let rel: usize = match find_crlf(body) {
        Some(i) => i,
        None => {
            return Front::Partial;
        },
    };
    let line = slice_subrange(body, 0, rel);
    assert(line@ =~= body@.take(rel as int));
    let size: usize = match line_size(line) {
        Ok(size) => size,
        Err(e) => {
            return Front::Broken(e);
        },
    };
    let start: usize = rel + 2;
    let pair: Vec<u8> = vec![13, 10];
    assert(pair@ =~= crate::http::crlf());
    if size == 0 {
        let rest = slice_subrange(body, start, n);
        assert(rest@ =~= body@.skip(start as int));
        let blank: Vec<u8> = vec![13, 10, 13, 10];
        assert(blank@ =~= crate::http::crlf_end());
        if bytes_start_with(rest, pair.as_slice()) || find_bytes(rest, blank.as_slice()).is_some() {
            return Front::Last;
        }
        return Front::Partial;
    }
    if n - start < 2 || n - start - 2 < size {
        return Front::Partial;
    }
    let end: usize = start + size;
    let tail = slice_subrange(body, end, end + 2);
    if !bytes_start_with(tail, pair.as_slice()) {
        proof {
            if tail@ == crate::http::crlf() {
                assert(tail@.take(2) =~= tail@);
            }
        }
        return Front::Broken(ReadError::MissingCrlf);
    }
    assert(tail@ =~= pair@);
    Front::Data(start, end)
}

/// Decoding may go on from `pos`, with `decoded` before it, whatever else
/// arrives.
spec fn resumes(body: Seq<u8>, pos: int, decoded: Seq<u8>) -> bool {
    forall|more: Seq<u8>|
        dechunk_onto(#[trigger] (body + more), Seq::empty()) == dechunk_onto(
            body.skip(pos) + more,
            decoded,
        )
}

proof fn lemma_resumes_start(body: Seq<u8>)
    ensures
        resumes(body, 0, Seq::empty()),
{
    assert(body.skip(0) =~= body);
}

proof fn lemma_resumes_fed(body: Seq<u8>, pos: int, decoded: Seq<u8>, chunk: Seq<u8>)
    requires
        0 <= pos <= body.len(),
        resumes(body, pos, decoded),
    ensures
        resumes(body + chunk, pos, decoded),
{
    assert forall|more: Seq<u8>|
        dechunk_onto(#[trigger] ((body + chunk) + more), Seq::empty()) == dechunk_onto(
            (body + chunk).skip(pos) + more,
            decoded,
        ) by {
        assert((body + chunk) + more =~= body + (chunk + more));
        assert((body + chunk).skip(pos) + more =~= body.skip(pos) + (chunk + more));
    }
}

proof fn lemma_resumes_step(body: Seq<u8>, pos: int, decoded: Seq<u8>)
    requires
        0 <= pos <= body.len(),
        resumes(body, pos, decoded),
        first_chunk(body.skip(pos)) is Data,
        decoded.len() + first_chunk(body.skip(pos))->Data_0.len() <= MAX_HTTP_BODY,
    ensures
        resumes(
            body,
            pos + first_chunk(body.skip(pos))->Data_1,
            decoded + first_chunk(body.skip(pos))->Data_0,
        ),
{
    let rest = body.skip(pos);
    let data = first_chunk(rest)->Data_0;
    let used = first_chunk(rest)->Data_1;
    lemma_first_chunk(rest);
    assert forall|more: Seq<u8>|
        dechunk_onto(#[trigger] (body + more), Seq::empty()) == dechunk_onto(
            body.skip(pos + used) + more,
            decoded + data,
        ) by {
        lemma_first_chunk_append(rest, more);
        assert((rest + more).skip(used) =~= body.skip(pos + used) + more);
        assert(dechunk_onto(body + more, Seq::empty()) == dechunk_onto(rest + more, decoded));
    }
}

proof fn lemma_resumes_now(body: Seq<u8>, pos: int, decoded: Seq<u8>)
    requires
        resumes(body, pos, decoded),
    ensures
        dechunk(body) == dechunk_onto(body.skip(pos), decoded),
{
    let none = Seq::<u8>::empty();
    assert(body + none =~= body);
    assert(body.skip(pos) + none =~= body.skip(pos));
}

/// A chunked body as far as it has arrived, and how far it is decoded.
struct Chunks {
    body: Vec<u8>,
    pos: usize,
    decoded: Vec<u8>,
}

impl Chunks {
    spec fn wf(&self) -> bool {
        &&& self.pos <= self.body@.len()
        &&& self.decoded@.len() <= MAX_HTTP_BODY
        &&& resumes(self.body@, self.pos as int, self.decoded@)
    }

    /// Decode what has arrived: `None` where the body goes on.
    fn decode(&mut self) -> (res: Option<Result<(), ReadError>>)
        requires
            old(self).wf(),
        ensures
            final(self).wf(),
            final(self).body@ == old(self).body@,
            match res {
                None => dechunk(old(self).body@) is More,
                Some(Ok(_)) => dechunk(old(self).body@) == Dechunked::Done(final(self).decoded@),
                Some(Err(e)) => dechunk(old(self).body@) == Dechunked::Failed(e),
            },
    {
        loop
            invariant
                self.wf(),
                self.body@ == old(self).body@,
            decreases self.body@.len() - self.pos,
        {
            let n: usize = self.body.len();
            let ghost rest = self.body@.skip(self.pos as int);
            proof {
                lemma_resumes_now(self.body@, self.pos as int, self.decoded@);
            }
            let front = {
                let tail = slice_subrange(self.body.as_slice(), self.pos, n);
                assert(tail@ =~= rest);
                front_of(tail)
            };
            match front {
                Front::Partial => {
                    return None;
                },
                Front::Last => {
                    return Some(Ok(()));
                },
                Front::Broken(e) => {
                    return Some(Err(e));
                },
                Front::Data(a, b) => {
                    if MAX_HTTP_BODY - self.decoded.len() < b - a {
                        return Some(Err(ReadError::BodyTooLarge));
                    }
                    proof {
                        lemma_resumes_step(self.body@, self.pos as int, self.decoded@);
                    }
                    let data: Vec<u8> = crate::octets::to_bytes(
                        slice_subrange(self.body.as_slice(), self.pos + a, self.pos + b),
                    );
                    assert(data@ =~= rest.subrange(a as int, b as int));
                    let ghost before = self.decoded@;
                    self.decoded.extend_from_slice(data.as_slice());
                    assert(self.decoded@ =~= before + data@);
                    self.pos = self.pos + b + 2;
                },
            }
        }
    }
}

// ---------------------------------------------------------------------------
// Messages

/// How a head says that its body ends.
#[derive(Clone, Copy, Debug, PartialEq, Eq, Structural)]
pub enum Framing {
    NoBody,
    Chunked,
    Length(usize),
}

/// A response to `method` with that status has a body. A status that could not
/// be read counts as 200.
pub open spec fn has_body(method: Seq<char>, status: Option<u16>) -> bool {
    let code = match status {
        Some(c) => c as int,
        None => 200,
    };
    method != "HEAD"@ && code != 204 && code != 304 && !(100 <= code < 200)
}

/// How the body behind a head ends: `method` is that of the request which a
/// response answers, and `None` where the message is a request itself.
pub open spec fn framing_of(method: Option<Seq<char>>, head: Seq<u8>) -> Framing {
    let expected = match method {
        Some(m) => has_body(m, crate::http::status_of(head)),
        None => true,
    };
    if !expected {
        Framing::NoBody
    } else if crate::http::announces_chunks(head) {
        Framing::Chunked
    } else {
        match crate::http::length_of(head) {
            Some(n) => Framing::Length(n as usize),
            None => Framing::Length(0),
        }
    }
}

/// What a reader has read so far.
#[verifier::ext_equal]
pub ghost enum ReaderView {
    /// A head that is not complete.
    Head { method: Option<Seq<char>>, buf: Seq<u8> },
    /// A head that ends at `end`, and part of the `want` bytes behind it.
    Sized { buf: Seq<u8>, end: int, want: int },
    /// A complete head, and part of a chunked body.
    Chunked { head: Seq<u8>, body: Seq<u8> },
}

/// What to do next: read at most so many bytes, or stop.
#[verifier::ext_equal]
pub ghost enum StepView {
    More(ReaderView, int),
    Done(Seq<u8>),
    Failed(ReadError),
}

/// What follows a head and so many bytes of a body that should have `want`.
pub open spec fn sized_step(buf: Seq<u8>, end: int, want: int) -> StepView {
    let missing = want - (buf.len() - end);
    if missing <= 0 {
        StepView::Done(buf.take(end + want))
    } else {
        StepView::More(
            ReaderView::Sized { buf, end, want },
            if missing < BODY_READ {
                missing
            } else {
                BODY_READ as int
            },
        )
    }
}

/// What follows a head and so many bytes of a chunked body.
pub open spec fn chunked_step(head: Seq<u8>, body: Seq<u8>) -> StepView {
    match dechunk(body) {
        Dechunked::More => StepView::More(ReaderView::Chunked { head, body }, BODY_READ as int),
        Dechunked::Done(decoded) => StepView::Done(
            vstd::utf8::encode_utf8(crate::http::reframed(head, decoded.len())) + decoded,
        ),
        Dechunked::Failed(e) => StepView::Failed(e),
    }
}

/// What follows a buffer that holds a head and what came with it.
pub open spec fn after_head(buf: Seq<u8>, framing: Framing) -> StepView {
    match crate::http::head_len(buf) {
        None => StepView::Failed(ReadError::IncompleteHead),
        Some(end) => match framing {
            Framing::NoBody => StepView::Done(buf.take(end)),
            Framing::Chunked => chunked_step(buf.take(end), buf.skip(end)),
            Framing::Length(want) => sized_step(buf, end, want as int),
        },
    }
}

/// What a head becomes when bytes arrive.
#[verifier::ext_equal]
pub ghost enum HeadView {
    More(Seq<u8>),
    Complete(Seq<u8>),
    Failed(ReadError),
}

/// What the part of a head becomes when `chunk` arrives. An empty one is the
/// stream's end.
pub open spec fn head_fed(buf: Seq<u8>, chunk: Seq<u8>) -> HeadView {
    if chunk.len() == 0 {
        HeadView::Failed(ReadError::ClosedInHead)
    } else if crate::http::head_len(buf + chunk) is Some {
        HeadView::Complete(buf + chunk)
    } else if buf.len() + chunk.len() > MAX_HEAD {
        HeadView::Failed(ReadError::HeadTooLarge)
    } else {
        HeadView::More(buf + chunk)
    }
}

/// What a reader does when `chunk` arrives. An empty one is the stream's end.
pub open spec fn fed(reader: ReaderView, chunk: Seq<u8>) -> StepView {
    match reader {
        ReaderView::Head { method, buf } => match head_fed(buf, chunk) {
            HeadView::Failed(e) => StepView::Failed(e),
            HeadView::More(buf) => StepView::More(
                ReaderView::Head { method, buf },
                HEAD_READ as int,
            ),
            HeadView::Complete(buf) => after_head(buf, framing_of(method, buf)),
        },
        ReaderView::Sized { buf, end, want } => if chunk.len() == 0 {
            StepView::Failed(ReadError::ClosedInBody)
        } else {
            sized_step(buf + chunk, end, want)
        },
        ReaderView::Chunked { head, body } => if chunk.len() == 0 {
            StepView::Failed(ReadError::ClosedInBody)
        } else if body.len() + chunk.len() > MAX_CHUNKED {
            StepView::Failed(ReadError::BodyTooLarge)
        } else {
            chunked_step(head, body + chunk)
        },
    }
}

enum State {
    Head { method: Option<String>, buf: Vec<u8> },
    Sized { buf: Vec<u8>, end: usize, want: usize },
    Chunked { head: Vec<u8>, chunks: Chunks },
}

/// A message that is being read.
pub struct HttpReader {
    state: State,
}

impl View for HttpReader {
    type V = ReaderView;

    closed spec fn view(&self) -> ReaderView {
        match self.state {
            State::Head { method, buf } => ReaderView::Head {
                method: crate::text::opt_text(method),
                buf: buf@,
            },
            State::Sized { buf, end, want } => ReaderView::Sized {
                buf: buf@,
                end: end as int,
                want: want as int,
            },
            State::Chunked { head, chunks } => ReaderView::Chunked {
                head: head@,
                body: chunks.body@,
            },
        }
    }
}

/// What to do next.
pub enum ReadStep {
    /// Read at most so many bytes and feed them to the reader.
    More(HttpReader, usize),
    /// The message is complete.
    Done(Vec<u8>),
    Failed(ReadError),
}

impl View for ReadStep {
    type V = StepView;

    open spec fn view(&self) -> StepView {
        match self {
            ReadStep::More(reader, limit) => StepView::More(reader@, *limit as int),
            ReadStep::Done(bytes) => StepView::Done(bytes@),
            ReadStep::Failed(e) => StepView::Failed(*e),
        }
    }
}

/// What a head becomes when bytes arrive.
pub enum HeadStep {
    /// It goes on: read at most `HEAD_READ` bytes.
    More(Vec<u8>),
    /// It is complete; more than the head may have come.
    Complete(Vec<u8>),
    Failed(ReadError),
}

impl View for HeadStep {
    type V = HeadView;

    open spec fn view(&self) -> HeadView {
        match self {
            HeadStep::More(buf) => HeadView::More(buf@),
            HeadStep::Complete(buf) => HeadView::Complete(buf@),
            HeadStep::Failed(e) => HeadView::Failed(*e),
        }
    }
}

/// Add what was read to the part of a head; nothing means that the stream has
/// ended.
pub fn read_until_headers(buf: Vec<u8>, chunk: &[u8]) -> (step: HeadStep)
    ensures
        step@ == head_fed(buf@, chunk@),
{
    if chunk.len() == 0 {
        return HeadStep::Failed(ReadError::ClosedInHead);
    }
    let ghost before = buf@;
    let mut buf = buf;
    buf.extend_from_slice(chunk);
    assert(buf@ =~= before + chunk@);
    if headers_complete(buf.as_slice()) {
        HeadStep::Complete(buf)
    } else if buf.len() > MAX_HEAD {
        HeadStep::Failed(ReadError::HeadTooLarge)
    } else {
        HeadStep::More(buf)
    }
}

/// A response to `method` with that status has a body.
pub fn response_has_body(method: &str, status: Option<u16>) -> (res: bool)
    ensures
        res == has_body(method@, status),
{
    let code: u16 = match status {
        Some(c) => c,
        None => 200,
    };
    !same_str(method, "HEAD") && code != 204 && code != 304 && !(100 <= code && code < 200)
}

fn framing(method: &Option<String>, head: &[u8]) -> (res: Framing)
    ensures
        res == framing_of(crate::text::opt_text(*method), head@),
{
    let expected: bool = match method {
        Some(m) => response_has_body(m.as_str(), response_status(head)),
        None => true,
    };
    if !expected {
        Framing::NoBody
    } else if is_chunked(head) {
        Framing::Chunked
    } else {
        match content_length(head) {
            Some(n) => Framing::Length(n),
            None => Framing::Length(0),
        }
    }
}

fn step_sized(buf: Vec<u8>, end: usize, want: usize) -> (step: ReadStep)
    requires
        end <= buf@.len(),
    ensures
        step@ == sized_step(buf@, end as int, want as int),
{
    let have: usize = buf.len() - end;
    if have >= want {
        let mut buf = buf;
        buf.truncate(end + want);
        return ReadStep::Done(buf);
    }
    let missing: usize = want - have;
    let limit: usize = if missing < BODY_READ {
        missing
    } else {
        BODY_READ
    };
    ReadStep::More(HttpReader { state: State::Sized { buf, end, want } }, limit)
}

fn step_chunked(head: Vec<u8>, chunks: Chunks) -> (step: ReadStep)
    requires
        chunks.wf(),
        crate::http::head_len(head@) is Some,
    ensures
        step@ == chunked_step(head@, chunks.body@),
        crate::http::is_clean(head@) && crate::http::announces_chunks(head@)
            ==> crate::framing::is_sound(step@),
{
    let mut chunks = chunks;
    match chunks.decode() {
        None => ReadStep::More(HttpReader { state: State::Chunked { head, chunks } }, BODY_READ),
        Some(Err(e)) => ReadStep::Failed(e),
        Some(Ok(_)) => match headers_with_content_length(head.as_slice(), chunks.decoded.len()) {
            Ok(mut out) => {
                let ghost front = out@;
                out.extend_from_slice(chunks.decoded.as_slice());
                assert(out@ =~= front + chunks.decoded@);
                ReadStep::Done(out)
            },
            Err(_) => ReadStep::Failed(ReadError::IncompleteHead),
        },
    }
}

/// Go on behind a buffered head whose body ends as `framing` says. Where that is
/// what the head says, a finished message is whole.
pub fn read_body_after_head(buf: Vec<u8>, framing: Framing) -> (step: ReadStep)
    ensures
        step@ == after_head(buf@, framing),
        crate::framing::has_head(buf@) && framing == framing_of(None, buf@) && (framing is Chunked
            ==> crate::http::is_clean(buf@)) ==> crate::framing::is_sound(step@),
{
    let n: usize = buf.len();
    proof {
        if crate::framing::has_head(buf@) {
            let end = crate::http::head_len(buf@)->Some_0;
            crate::http::lemma_head_alone(buf@);
            crate::framing::lemma_head_and_more(buf@, Seq::empty(), end);
            if framing == framing_of(None, buf@) && framing is Length {
                crate::framing::lemma_sized_step(buf@, end, framing->Length_0 as int);
            }
        }
    }
    match header_end(buf.as_slice()) {
        None => ReadStep::Failed(ReadError::IncompleteHead),
        Some(end) => match framing {
            Framing::NoBody => {
                let mut buf = buf;
                buf.truncate(end);
                ReadStep::Done(buf)
            },
            Framing::Chunked => {
                let head: Vec<u8> = crate::octets::to_bytes(
                    slice_subrange(buf.as_slice(), 0, end),
                );
                let body: Vec<u8> = crate::octets::to_bytes(
                    slice_subrange(buf.as_slice(), end, n),
                );
                assert(head@ =~= buf@.take(end as int));
                assert(body@ =~= buf@.skip(end as int));
                proof {
                    crate::http::lemma_head_alone(buf@);
                    lemma_resumes_start(body@);
                }
                step_chunked(head, Chunks { body, pos: 0, decoded: Vec::new() })
            },
            Framing::Length(want) => step_sized(buf, end, want),
        },
    }
}

impl HttpReader {
    #[verifier::type_invariant]
    spec fn wf(self) -> bool {
        match self.state {
            State::Head { method, buf } => true,
            State::Sized { buf, end, want } => end <= buf@.len(),
            State::Chunked { head, chunks } => chunks.wf() && crate::http::head_len(head@) is Some,
        }
    }

    /// A reader for a full request: headers and a body with a length or in
    /// chunks.
    pub fn request() -> (reader: HttpReader)
        ensures
            reader@ == (ReaderView::Head { method: None, buf: Seq::empty() }),
    {
        HttpReader { state: State::Head { method: None, buf: Vec::new() } }
    }

    /// A reader for a full response to a request with that method; some have
    /// no body.
    pub fn response(method: &str) -> (reader: HttpReader)
        ensures
            reader@ == (ReaderView::Head { method: Some(method@), buf: Seq::empty() }),
    {
        HttpReader { state: State::Head { method: Some(method.to_owned()), buf: Vec::new() } }
    }

    /// Hand the reader what was read; nothing means that the stream has ended.
    ///
    /// A message that it finishes is its head, and behind it exactly the body whose
    /// length the head announces; no chunks are left. (This is said of heads that
    /// end in CR LF CR LF, see `completes_head`.)
    pub fn feed(self, chunk: &[u8]) -> (step: ReadStep)
        ensures
            step@ == fed(self@, chunk@),
            crate::framing::reads_as_said(self@) && crate::framing::completes_head(self@, chunk@)
                ==> crate::framing::is_sound(step@),
    {
        proof {
            use_type_invariant(&self);
        }
        match self.state {
            State::Head { method, buf } => match read_until_headers(buf, chunk) {
                HeadStep::Failed(e) => ReadStep::Failed(e),
                HeadStep::More(buf) => ReadStep::More(
                    HttpReader { state: State::Head { method, buf } },
                    HEAD_READ,
                ),
                HeadStep::Complete(buf) => {
                    let how = framing(&method, buf.as_slice());
                    assert(crate::framing::completes_head(self@, chunk@) ==> how == framing_of(
                        None,
                        buf@,
                    ));
                    read_body_after_head(buf, how)
                },
            },
            State::Sized { buf, end, want } => {
                if chunk.len() == 0 {
                    return ReadStep::Failed(ReadError::ClosedInBody);
                }
                let mut buf = buf;
                let ghost before = buf@;
                buf.extend_from_slice(chunk);
                assert(buf@ =~= before + chunk@);
                proof {
                    if crate::framing::reads_as_said(self@) {
                        crate::framing::lemma_head_and_more(before, chunk@, before.len() as int);
                        crate::framing::lemma_sized_step(buf@, end as int, want as int);
                    }
                }
                step_sized(buf, end, want)
            },
            State::Chunked { head, chunks } => {
                if chunk.len() == 0 {
                    return ReadStep::Failed(ReadError::ClosedInBody);
                }
                let mut chunks = chunks;
                let ghost before = chunks;
                chunks.body.extend_from_slice(chunk);
                assert(chunks.body@ =~= before.body@ + chunk@);
                if chunks.body.len() > MAX_CHUNKED {
                    return ReadStep::Failed(ReadError::BodyTooLarge);
                }
                proof {
                    lemma_resumes_fed(before.body@, before.pos as int, before.decoded@, chunk@);
                }
                step_chunked(head, chunks)
            },
        }
    }
}

/// How a body is cut into pieces makes no difference: what two pieces lead to,
/// one after the other, is what they lead to in one. (Of a chunked body this is
/// said up to the size that a reader buffers.)
pub proof fn law_pieces_of_a_body(reader: ReaderView, first: Seq<u8>, second: Seq<u8>)
    requires
        !(reader is Head),
        first.len() > 0,
        second.len() > 0,
        reader matches ReaderView::Sized { buf, end, want } ==> 0 <= end <= buf.len() && 0 <= want,
        reader matches ReaderView::Chunked { head, body } ==> body.len() + first.len()
            + second.len() <= MAX_CHUNKED,
    ensures
        match fed(reader, first) {
            StepView::More(next, limit) => fed(next, second) == fed(reader, first + second),
            done => done == fed(reader, first + second),
        },
{
    match reader {
        ReaderView::Sized { buf, end, want } => {
            assert(buf + first + second =~= buf + (first + second));
            if want <= (buf + first).len() - end {
                assert((buf + first).take(end + want) =~= (buf + (first + second)).take(
                    end + want,
                ));
            }
        },
        ReaderView::Chunked { head, body } => {
            assert(body + first + second =~= body + (first + second));
            if !(dechunk(body + first) is More) {
                law_chunked_outcome_is_stable(body + first, second);
            }
        },
        ReaderView::Head { .. } => {},
    }
}

/// A complete head keeps its end when `tail` follows it: it ends in CR LF CR LF,
/// or nothing of that shape follows.
pub open spec fn head_stands(head: Seq<u8>, tail: Seq<u8>) -> bool {
    &&& crate::http::head_len(head) == Some(head.len() as int)
    &&& crate::search::find(head, crate::http::crlf_end()) is Some || crate::search::find(
        head + tail,
        crate::http::crlf_end(),
    ) is None
}

proof fn lemma_head_stands(head: Seq<u8>, tail: Seq<u8>)
    requires
        head_stands(head, tail),
    ensures
        crate::http::head_len(head + tail) == Some(head.len() as int),
{
    let long = crate::http::crlf_end();
    if crate::search::find(head, long) is Some {
        crate::search::lemma_find_append(head, tail, long);
    } else {
        crate::search::lemma_find_append(head, tail, crate::http::lf_end());
    }
}

/// A message with a body of a given length, or none, is read to its end and no
/// further, whatever follows it on the stream.
pub proof fn law_sized_message_is_read_whole(head: Seq<u8>, body: Seq<u8>, rest: Seq<u8>)
    requires
        head_stands(head, body + rest),
        body.len() <= usize::MAX,
    ensures
        after_head(head + body + rest, Framing::Length(body.len() as usize)) == StepView::Done(
            head + body,
        ),
        after_head(head + body + rest, Framing::NoBody) == StepView::Done(head),
{
    let n = head.len() as int;
    lemma_head_stands(head, body + rest);
    assert(head + body + rest =~= head + (body + rest));
    assert((head + body + rest).take(n + body.len()) =~= head + body);
    assert((head + body + rest).take(n) =~= head);
}

/// A message with a chunked body is read to its end and no further, whatever
/// follows it on the stream: its chunks joined, behind a head with their length.
pub proof fn law_chunked_message_is_read_whole(
    head: Seq<u8>,
    chunks: Seq<Seq<u8>>,
    rest: Seq<u8>,
)
    requires
        head_stands(head, chunked_encoding(chunks) + rest),
        forall|i: int| 0 <= i < chunks.len() ==> (#[trigger] chunks[i]).len() > 0,
        chunks.flatten().len() <= MAX_HTTP_BODY,
    ensures
        after_head(head + chunked_encoding(chunks) + rest, Framing::Chunked) == StepView::Done(
            vstd::utf8::encode_utf8(crate::http::reframed(head, chunks.flatten().len()))
                + chunks.flatten(),
        ),
{
    let n = head.len() as int;
    let coded = chunked_encoding(chunks) + rest;
    lemma_head_stands(head, coded);
    let all = head + chunked_encoding(chunks) + rest;
    assert(all =~= head + coded);
    assert(all.take(n) =~= head);
    assert(all.skip(n) =~= coded);
    law_chunks_are_joined(chunks, rest);
}

/// Every response has a body but one to HEAD and one whose status is 100 to 199,
/// 204 or 304; one whose status cannot be read has one. How a body ends is what the
/// head announces: chunks, or else its length, or else nothing.
pub proof fn law_which_responses_have_a_body(method: Seq<char>, status: Option<u16>, head: Seq<u8>)
    ensures
        has_body(method, status) <==> method != "HEAD"@ && match status {
            Some(c) => c != 204 && c != 304 && (c < 100 || 199 < c),
            None => true,
        },
        method != "HEAD"@ && (crate::http::status_of(head) matches Some(c) ==> c != 204 && c != 304
            && (c < 100 || 199 < c)) ==> framing_of(Some(method), head) == framing_of(None, head),
        method == "HEAD"@ || (crate::http::status_of(head) matches Some(c) && (c == 204 || c == 304
            || 100 <= c <= 199)) ==> framing_of(Some(method), head) == Framing::NoBody,
        crate::http::announces_chunks(head) ==> framing_of(None, head) == Framing::Chunked,
        !crate::http::announces_chunks(head) ==> (crate::http::length_of(head) matches Some(n)
            ==> framing_of(None, head) == Framing::Length(n as usize)),
        !crate::http::announces_chunks(head) && crate::http::length_of(head) is None ==> framing_of(
            None,
            head,
        ) == Framing::Length(0),
{
}

/// What a chunk adds to what is decoded, and which chunks are refused. `line` is
/// the first line of the chunk, and `pair` what stands where its data ends.
pub proof fn law_a_chunk_adds_its_data(
    line: Seq<u8>,
    data: Seq<u8>,
    pair: Seq<u8>,
    rest: Seq<u8>,
    decoded: Seq<u8>,
)
    requires
        forall|j: int| 0 <= j < line.len() ==> #[trigger] line[j] != 13u8,
        pair.len() == 2,
    ensures
        dechunk(rest) == dechunk_onto(rest, Seq::empty()),
        chunk_size(line) == Ok::<nat, ReadError>(data.len()) && data.len() > 0 ==> dechunk_onto(
            line + seq![13u8, 10u8] + data + pair + rest,
            decoded,
        ) == (if pair != seq![13u8, 10u8] {
            Dechunked::Failed(ReadError::MissingCrlf)
        } else if decoded.len() + data.len() > 33554432 {
            Dechunked::Failed(ReadError::BodyTooLarge)
        } else {
            dechunk_onto(rest, decoded + data)
        }),
        (chunk_size(line) matches Ok(size) && size > 0 && data.len() < size + 2) ==> dechunk_onto(
            line + seq![13u8, 10u8] + data,
            decoded,
        ) == Dechunked::More,
        chunk_size(line) matches Err(e) ==> dechunk_onto(line + seq![13u8, 10u8] + rest, decoded)
            == Dechunked::Failed(e),
        dechunk_onto(line, decoded) == Dechunked::More,
{
    let crlf = seq![13u8, 10u8];
    assert(crlf =~= crate::http::crlf());
    assert(line + crlf + data + pair + rest =~= line + crlf + (data + pair + rest));
    lemma_line_end(line, data + pair + rest);
    lemma_line_end(line, data);
    lemma_line_end(line, rest);
    let body = line + crlf + (data + pair + rest);
    let start = line.len() as int + 2;
    assert(body.subrange(start, start + data.len()) =~= data);
    assert(body.subrange(start + data.len(), start + data.len() + 2) =~= pair);
    assert(body.skip(start + data.len() + 2) =~= rest);
    crate::search::lemma_find(line, crlf);
    if crate::search::find(line, crlf) is Some {
        let k = crate::search::find(line, crlf)->Some_0;
        assert(line.subrange(k, k + 2)[0] == line[k]);
    }
}

/// A chunk of size zero ends the body: at once where a blank line follows, else
/// where the trailer's blank line does.
pub proof fn law_the_last_chunk_ends_a_body(
    line: Seq<u8>,
    trailer: Seq<u8>,
    rest: Seq<u8>,
    decoded: Seq<u8>,
)
    requires
        forall|j: int| 0 <= j < line.len() ==> #[trigger] line[j] != 13u8,
        chunk_size(line) == Ok::<nat, ReadError>(0),
    ensures
        dechunk_onto(line + seq![13u8, 10u8] + seq![13u8, 10u8] + rest, decoded)
            == Dechunked::Done(decoded),
        dechunk_onto(
            line + seq![13u8, 10u8] + trailer + seq![13u8, 10u8, 13u8, 10u8] + rest,
            decoded,
        ) == Dechunked::Done(decoded),
        (forall|j: int| 0 <= j < trailer.len() ==> #[trigger] trailer[j] != 13u8) ==> dechunk_onto(
            line + seq![13u8, 10u8] + trailer,
            decoded,
        ) == Dechunked::More,
{
    let crlf = seq![13u8, 10u8];
    let end = seq![13u8, 10u8, 13u8, 10u8];
    assert(crlf =~= crate::http::crlf());
    assert(end =~= crate::http::crlf_end());
    assert(line + crlf + crlf + rest =~= line + crlf + (crlf + rest));
    lemma_line_end(line, crlf + rest);
    assert((crlf + rest).subrange(0, 2) =~= crlf);
    assert(crlf.is_prefix_of(crlf + rest));
    let behind = trailer + end + rest;
    assert(line + crlf + trailer + end + rest =~= line + crlf + behind);
    lemma_line_end(line, behind);
    let k = trailer.len() as int;
    assert(behind.subrange(k, k + 4) =~= end);
    assert(crate::search::occurs(behind, end, k));
    crate::search::lemma_find(behind, end);
    lemma_line_end(line, trailer);
    if forall|j: int| 0 <= j < trailer.len() ==> #[trigger] trailer[j] != 13u8 {
        crate::search::lemma_find(trailer, end);
        if crate::search::find(trailer, end) is Some {
            let k = crate::search::find(trailer, end)->Some_0;
            assert(trailer.subrange(k, k + 4)[0] == trailer[k]);
        }
        if crlf.is_prefix_of(trailer) {
            assert(trailer.subrange(0, 2)[0] == trailer[0]);
        }
    }
}

/// The first line of a chunk says its size in hexadecimal digits, with white space
/// around them, and anything behind a semicolon.
pub proof fn law_chunk_lines(size: Seq<char>, extension: Seq<char>, line: Seq<u8>)
    requires
        forall|i: int| 0 <= i < size.len() ==> size[i] != ';',
    ensures
        chunk_size(vstd::utf8::encode_utf8(size)) == (match crate::number::unsigned(
            crate::text::trim(size),
            16,
            usize::MAX as nat,
        ) {
            Some(n) => Ok::<nat, ReadError>(n),
            None => Err(ReadError::ChunkSize),
        }),
        chunk_size(vstd::utf8::encode_utf8(size + seq![';'] + extension)) == chunk_size(
            vstd::utf8::encode_utf8(size),
        ),
        !vstd::utf8::valid_utf8(line) ==> chunk_size(line) == Err::<nat, ReadError>(
            ReadError::ChunkLine,
        ),
{
    let long = size + seq![';'] + extension;
    vstd::utf8::encode_utf8_valid_utf8(size);
    vstd::utf8::encode_utf8_decode_utf8(size);
    vstd::utf8::encode_utf8_valid_utf8(long);
    vstd::utf8::encode_utf8_decode_utf8(long);
    crate::text::lemma_find_char_none(size, ';');
    assert forall|i: int| 0 <= i < size.len() implies long[i] != ';' by {
        assert(long[i] == size[i]);
    }
    assert(long[size.len() as int] == ';');
    crate::text::lemma_find_char_is(long, ';', size.len() as int);
    assert(long.take(size.len() as int) =~= size);
}

/// A reader that has too little asks for more: up to 1024 bytes of a head, and up
/// to 16384 of a body but no more than are missing. It gives up where the stream
/// ends, on a head of more than 65536 bytes and on a chunked body of more than
/// 33619968.
pub proof fn law_readers_ask_for_more(
    method: Option<Seq<char>>,
    buf: Seq<u8>,
    end: int,
    want: int,
    head: Seq<u8>,
    chunk: Seq<u8>,
)
    requires
        chunk.len() > 0,
    ensures
        fed(ReaderView::Head { method, buf }, Seq::empty()) == StepView::Failed(
            ReadError::ClosedInHead,
        ),
        fed(ReaderView::Sized { buf, end, want }, Seq::empty()) == StepView::Failed(
            ReadError::ClosedInBody,
        ),
        fed(ReaderView::Chunked { head, body: buf }, Seq::empty()) == StepView::Failed(
            ReadError::ClosedInBody,
        ),
        crate::http::head_len(buf + chunk) is None ==> fed(ReaderView::Head { method, buf }, chunk)
            == (if buf.len() + chunk.len() > 65536 {
            StepView::Failed(ReadError::HeadTooLarge)
        } else {
            StepView::More(ReaderView::Head { method, buf: buf + chunk }, 1024)
        }),
        fed(ReaderView::Sized { buf, end, want }, chunk) == (if buf.len() + chunk.len() >= end
            + want {
            StepView::Done((buf + chunk).take(end + want))
        } else {
            StepView::More(
                ReaderView::Sized { buf: buf + chunk, end, want },
                if end + want - buf.len() - chunk.len() < 16384 {
                    end + want - buf.len() - chunk.len()
                } else {
                    16384
                },
            )
        }),
        buf.len() + chunk.len() > 33619968 ==> fed(ReaderView::Chunked { head, body: buf }, chunk)
            == StepView::Failed(ReadError::BodyTooLarge),
        buf.len() + chunk.len() <= 33619968 ==> match dechunk(buf + chunk) {
            Dechunked::More => fed(ReaderView::Chunked { head, body: buf }, chunk)
                == StepView::More(ReaderView::Chunked { head, body: buf + chunk }, 16384),
            Dechunked::Done(decoded) => fed(ReaderView::Chunked { head, body: buf }, chunk)
                == StepView::Done(
                vstd::utf8::encode_utf8(crate::http::reframed(head, decoded.len())) + decoded,
            ),
            Dechunked::Failed(e) => fed(ReaderView::Chunked { head, body: buf }, chunk)
                == StepView::Failed(e),
        },
{
}

/// What is said of a message that could not be read.
pub proof fn law_reading_complaints()
    ensures
        ReadError::ClosedInHead.text() == "connection closed before HTTP headers completed"@,
        ReadError::HeadTooLarge.text() == "HTTP headers too large"@,
        ReadError::IncompleteHead.text() == "incomplete HTTP headers"@,
        ReadError::ClosedInBody.text() == "connection closed before HTTP body completed"@,
        ReadError::BodyTooLarge.text() == "HTTP body too large"@,
        ReadError::ChunkLine.text() == "chunk size line"@,
        ReadError::ChunkSize.text() == "invalid chunk size"@,
        ReadError::MissingCrlf.text() == "missing CRLF after chunk data"@,
{
}

/// Once a head is complete, wherever it ends, a message without a body is done with
/// its head, one with a length when so many bytes have come, and one in chunks when
/// these are decoded; until then the reader asks for more.
pub proof fn law_what_follows_a_head(
    method: Option<Seq<char>>,
    buf: Seq<u8>,
    chunk: Seq<u8>,
    end: int,
)
    requires
        chunk.len() > 0,
        crate::http::head_len(buf + chunk) == Some(end),
    ensures
        ({
            let all = buf + chunk;
            let step = fed(ReaderView::Head { method, buf }, chunk);
            match framing_of(method, all) {
                Framing::NoBody => step == StepView::Done(all.take(end)),
                Framing::Length(want) => if all.len() >= end + want {
                    step == StepView::Done(all.take(end + want))
                } else {
                    step == StepView::More(
                        ReaderView::Sized { buf: all, end, want: want as int },
                        if end + want - all.len() < 16384 {
                            end + want - all.len()
                        } else {
                            16384
                        },
                    )
                },
                Framing::Chunked => match dechunk(all.skip(end)) {
                    Dechunked::More => step == StepView::More(
                        ReaderView::Chunked { head: all.take(end), body: all.skip(end) },
                        16384,
                    ),
                    Dechunked::Done(decoded) => step == StepView::Done(
                        vstd::utf8::encode_utf8(
                            crate::http::reframed(all.take(end), decoded.len()),
                        ) + decoded,
                    ),
                    Dechunked::Failed(e) => step == StepView::Failed(e),
                },
            }
        }),
{
}

} // verus!
