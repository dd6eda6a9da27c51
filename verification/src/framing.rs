//! What a finished message says of its own body.
use vstd::prelude::*;

use crate::http::MAX_HEADERS;

verus! {

/// The message has a head that ends in CR LF CR LF, and no line break stands in
/// front of it.
pub open spec fn has_head(message: Seq<u8>) -> bool {
    &&& crate::search::find(message, crate::http::crlf_end()) is Some
    &&& message[0] != 13 && message[0] != 10
}

/// The lines of a clean head can be read, as those of a request or of a
/// response.
pub open spec fn is_read(message: Seq<u8>) -> bool {
    &&& crate::http::is_clean(message)
    &&& crate::http::said_request(message, MAX_HEADERS as nat) is Some
        || crate::http::said_response(message, MAX_HEADERS as nat) is Some
}

/// The headers of a head that was read by its lines.
pub open spec fn fields_of(message: Seq<u8>) -> crate::http::HeaderViews {
    crate::lines::headers_on(crate::http::byte_lines(message).drop_first())->Some_0
}

/// How long a body the head announces, where it is not chunked.
pub open spec fn announced(message: Seq<u8>) -> nat {
    match crate::http::length_of(message) {
        Some(n) => n,
        None => 0,
    }
}

/// The message is its head, and behind it exactly the body whose length the head
/// announces.
pub open spec fn is_whole(message: Seq<u8>) -> bool {
    &&& crate::http::head_len(message) is Some
    &&& !crate::http::announces_chunks(message)
    &&& message.len() == crate::http::head_len(message)->Some_0 + announced(message)
}

/// In a clean head a header is looked up among the lines, if they can be read.
proof fn lemma_clean_header(message: Seq<u8>, name: Seq<char>)
    requires
        crate::http::is_clean(message),
    ensures
        crate::http::header_of(message, name) == (if is_read(message) {
            crate::http::lookup(fields_of(message), name)
        } else {
            None
        }),
{
}

/// What is read of a head does not depend on what follows it.
proof fn lemma_same_head(a: Seq<u8>, b: Seq<u8>)
    requires
        has_head(a),
        crate::search::find(b, crate::http::crlf_end()) == crate::search::find(
            a,
            crate::http::crlf_end(),
        ),
        b.take(crate::search::find(a, crate::http::crlf_end())->Some_0) == a.take(
            crate::search::find(a, crate::http::crlf_end())->Some_0,
        ),
    ensures
        has_head(b),
        crate::http::is_clean(b) == crate::http::is_clean(a),
        crate::http::head_len(b) == crate::http::head_len(a),
        crate::http::status_of(b) == crate::http::status_of(a),
        crate::http::announces_chunks(b) == crate::http::announces_chunks(a),
        crate::http::length_of(b) == crate::http::length_of(a),
{
    let end = crate::http::crlf_end();
    let i = crate::search::find(a, end)->Some_0;
    crate::search::lemma_find(a, end);
    crate::search::lemma_find(b, end);
    assert(crate::http::byte_lines(b) == crate::http::byte_lines(a));
    assert(i > 0) by {
        if i == 0 {
            assert(a.subrange(0, 4)[0] == a[0]);
        }
    }
    assert(a.take(i)[0] == a[0] && b.take(i)[0] == b[0]);
    assert(crate::http::cut_head(b) =~= crate::http::cut_head(a)) by {
        assert(a.take(i + 4) =~= a.take(i) + a.subrange(i, i + 4));
        assert(b.take(i + 4) =~= b.take(i) + b.subrange(i, i + 4));
    }
    let n = MAX_HEADERS as nat;
    assert(crate::http::request_parts(b, n) == crate::http::request_parts(a, n));
    assert(crate::http::response_parts(b, n) == crate::http::response_parts(a, n));
}

/// A head stays what it is when more follows, and when what follows it is cut.
pub proof fn lemma_head_and_more(message: Seq<u8>, more: Seq<u8>, n: int)
    requires
        has_head(message),
        crate::http::head_len(message)->Some_0 <= n <= message.len(),
    ensures
        has_head(message + more),
        crate::http::head_len(message + more) == crate::http::head_len(message),
        crate::http::status_of(message + more) == crate::http::status_of(message),
        crate::http::announces_chunks(message + more) == crate::http::announces_chunks(message),
        crate::http::length_of(message + more) == crate::http::length_of(message),
        has_head(message.take(n)),
        crate::http::is_clean(message.take(n)) == crate::http::is_clean(message),
        crate::http::head_len(message.take(n)) == crate::http::head_len(message),
        crate::http::announces_chunks(message.take(n)) == crate::http::announces_chunks(message),
        crate::http::length_of(message.take(n)) == crate::http::length_of(message),
{
    let end = crate::http::crlf_end();
    let i = crate::search::find(message, end)->Some_0;
    crate::search::lemma_find(message, end);
    crate::search::lemma_find_append(message, more, end);
    assert((message + more).take(i) =~= message.take(i));
    lemma_same_head(message, message + more);
    let cut = message.take(n);
    assert(cut + message.skip(n) =~= message);
    crate::search::lemma_occurs_append(cut, message.skip(n), end, i);
    assert forall|j: int| 0 <= j < i implies !#[trigger] crate::search::occurs(cut, end, j) by {
        crate::search::lemma_occurs_append(cut, message.skip(n), end, j);
    }
    crate::search::lemma_find_is(cut, end, i);
    assert(cut.take(i) =~= message.take(i));
    lemma_same_head(message, cut);
}

/// A header that is found is one of the headers.
proof fn lemma_found(headers: crate::http::HeaderViews, name: Seq<char>)
    ensures
        crate::http::lookup(headers, name) is Some ==> exists|i: int|
            0 <= i < headers.len() && crate::text::same_ignoring_case(
                (#[trigger] headers[i]).0,
                name,
            ),
    decreases headers.len(),
{
    if headers.len() > 0 {
        let rest = headers.drop_first();
        lemma_found(rest, name);
        if crate::http::lookup(headers, name) is Some && !crate::text::same_ignoring_case(
            headers[0].0,
            name,
        ) {
            let i = choose|i: int|
                0 <= i < rest.len() && crate::text::same_ignoring_case((#[trigger] rest[i]).0, name);
            assert(headers[i + 1] == rest[i]);
        }
    }
}

/// What is looked up behind headers of other names.
proof fn lemma_lookup_last(headers: crate::http::HeaderViews, name: Seq<char>)
    requires
        headers.len() > 0,
        forall|i: int|
            0 <= i < headers.len() - 1 ==> !crate::text::same_ignoring_case(
                (#[trigger] headers[i]).0,
                name,
            ),
    ensures
        crate::http::lookup(headers, name) == crate::http::lookup(seq![headers.last()], name),
    decreases headers.len(),
{
    if headers.len() == 1 {
        assert(headers =~= seq![headers.last()]);
    } else {
        let rest = headers.drop_first();
        assert forall|i: int| 0 <= i < rest.len() - 1 implies !crate::text::same_ignoring_case(
            (#[trigger] rest[i]).0,
            name,
        ) by {
            assert(rest[i] == headers[i + 1]);
        }
        lemma_lookup_last(rest, name);
        assert(!crate::text::same_ignoring_case(headers[0].0, name));
    }
}

/// The bytes of a single character.
proof fn lemma_one_byte(c: char, b: u8)
    requires
        c as int == b as int,
        b < 128,
    ensures
        vstd::utf8::is_ascii_chars(seq![c]),
        vstd::utf8::encode_utf8(seq![c]) == seq![b],
{
    assert(vstd::utf8::is_ascii_chars(seq![c]));
    vstd::utf8::is_ascii_chars_encode_utf8(seq![c]);
    assert(seq![c][0] as u8 == b);
    assert(vstd::utf8::encode_utf8(seq![c]) =~= seq![b]);
}

/// Bytes of a token show as themselves.
proof fn lemma_shown_token(b: Seq<u8>, t: Seq<char>)
    requires
        crate::encoding::is_shown(b, t),
        crate::lines::is_token(b),
    ensures
        t == crate::lines::ascii_text(b),
        vstd::utf8::encode_utf8(t) == b,
        crate::text::trim(t) == t,
{
    assert forall|i: int| 0 <= i < b.len() implies #[trigger] b[i] < 128 by {
        assert(crate::lines::is_token_byte(b[i]));
    }
    crate::encoding::lemma_shown_ascii(b, t);
    assert(t =~= crate::lines::ascii_text(b)) by {
        assert forall|i: int| 0 <= i < b.len() implies t[i] == b[i] as char by {
            assert(t[i] as int == b[i] as int);
        }
    }
    assert forall|i: int| 0 <= i < t.len() implies !crate::text::is_space(t[i]) by {
        assert(t[i] as int == b[i] as int);
        assert(crate::lines::is_token_byte(b[i]));
    }
    crate::text::lemma_trim_none(t);
}

/// Bytes of text show as text.
proof fn lemma_shown_text(b: Seq<u8>, t: Seq<char>)
    requires
        crate::encoding::is_shown(b, t),
        crate::lines::is_text(b),
    ensures
        crate::lines::is_text(vstd::utf8::encode_utf8(t)),
{
    crate::encoding::lemma_shown_encoded(b, t);
    let bytes = vstd::utf8::encode_utf8(t);
    assert forall|k: int| 0 <= k < bytes.len() implies crate::lines::is_text_byte(
        #[trigger] bytes[k],
    ) by {
        if bytes[k] < 128 {
            let j = choose|j: int| 0 <= j < b.len() && b[j] == bytes[k];
            assert(crate::lines::is_text_byte(b[j]));
        }
    }
}

/// A header line that is shown as text says a header of the same name when it is
/// encoded anew.
proof fn lemma_shown_header(b: Seq<u8>, t: Seq<char>)
    requires
        crate::encoding::is_shown(b, t),
        crate::lines::header_on(b) is Some,
    ensures
        crate::lines::header_on(vstd::utf8::encode_utf8(t)) is Some,
        crate::lines::header_on(vstd::utf8::encode_utf8(t))->Some_0.0 == crate::lines::header_on(
            b,
        )->Some_0.0,
        crate::http::line_name(t) == crate::lines::header_on(b)->Some_0.0,
{
    lemma_one_byte(':', 58u8);
    crate::encoding::lemma_shown_find(b, t, seq![':']);
    crate::search::lemma_find(t, seq![':']);
    let k = crate::search::find(b, seq![58u8])->Some_0;
    let j = crate::search::find(t, seq![':'])->Some_0;
    let (name, value) = (t.take(j), t.skip(j + 1));
    crate::search::lemma_occurs_one(t, ':', j);
    lemma_shown_token(b.take(k), name);
    lemma_shown_text(b.skip(k + 1), value);
    assert(t =~= name + (seq![':'] + value));
    crate::encoding::lemma_encode_append(name, seq![':'] + value);
    crate::encoding::lemma_encode_append(seq![':'], value);
    let front = b.take(k);
    let coded = vstd::utf8::encode_utf8(value);
    assert(vstd::utf8::encode_utf8(t) =~= front + seq![58u8] + coded);
    assert(!front.contains(58u8)) by {
        assert forall|i: int| 0 <= i < front.len() implies front[i] != 58 by {
            assert(crate::lines::is_token_byte(front[i]));
        }
    }
    crate::lines::lemma_first_byte(front, 58u8, coded);
}

/// A version shows as itself.
proof fn lemma_shown_version(b: Seq<u8>, t: Seq<char>)
    requires
        crate::encoding::is_shown(b, t),
        crate::lines::is_version(b),
    ensures
        vstd::utf8::encode_utf8(t) == b,
        !b.contains(32u8),
{
    crate::lines::lemma_version(b);
    assert forall|i: int| 0 <= i < b.len() implies #[trigger] b[i] < 128 by {
        assert(33 <= b[i] < 127);
    }
    crate::encoding::lemma_shown_ascii(b, t);
    assert forall|i: int| 0 <= i < b.len() implies b[i] != 32 by {
        assert(33 <= b[i] < 127);
    }
}

/// A line that is shown as text splits at its first space when it is encoded
/// anew.
proof fn lemma_shown_space(b: Seq<u8>, t: Seq<char>)
    requires
        crate::encoding::is_shown(b, t),
        crate::search::find(b, seq![32u8]) is Some,
    ensures
        ({
            let k = crate::search::find(b, seq![32u8])->Some_0;
            let j = crate::search::find(t, seq![' '])->Some_0;
            let (front, rest) = (
                vstd::utf8::encode_utf8(t.take(j)),
                vstd::utf8::encode_utf8(t.skip(j + 1)),
            );
            &&& 0 <= k < b.len()
            &&& !b.take(k).contains(32u8)
            &&& crate::encoding::is_shown(b.take(k), t.take(j))
            &&& crate::encoding::is_shown(b.skip(k + 1), t.skip(j + 1))
            &&& crate::search::find(vstd::utf8::encode_utf8(t), seq![32u8]) == Some(
                front.len() as int,
            )
            &&& vstd::utf8::encode_utf8(t).take(front.len() as int) == front
            &&& vstd::utf8::encode_utf8(t).skip(front.len() as int + 1) == rest
        }),
{
    lemma_one_byte(' ', 32u8);
    crate::encoding::lemma_shown_find(b, t, seq![' ']);
    crate::search::lemma_find(b, seq![32u8]);
    crate::search::lemma_find(t, seq![' ']);
    let k = crate::search::find(b, seq![32u8])->Some_0;
    let j = crate::search::find(t, seq![' '])->Some_0;
    crate::search::lemma_occurs_one(t, ' ', j);
    let (name, value) = (t.take(j), t.skip(j + 1));
    assert(t =~= name + (seq![' '] + value));
    crate::encoding::lemma_encode_append(name, seq![' '] + value);
    crate::encoding::lemma_encode_append(seq![' '], value);
    let front = vstd::utf8::encode_utf8(name);
    let rest = vstd::utf8::encode_utf8(value);
    assert(vstd::utf8::encode_utf8(t) =~= front + seq![32u8] + rest);
    assert forall|i: int| 0 <= i < k implies b.take(k)[i] != 32 by {
        crate::search::lemma_occurs_one(b, 32u8, i);
    }
    crate::encoding::lemma_shown_encoded(b.take(k), name);
    assert(!front.contains(32u8)) by {
        assert forall|i: int| 0 <= i < front.len() implies front[i] != 32 by {
            if front[i] == 32 {
                assert(b.take(k).contains(32u8));
            }
        }
    }
    crate::lines::lemma_first_byte(front, 32u8, rest);
}

/// A request line that is shown as text is one when it is encoded anew.
proof fn lemma_shown_request(b: Seq<u8>, t: Seq<char>)
    requires
        crate::encoding::is_shown(b, t),
        crate::lines::request_on(b) is Some,
    ensures
        crate::lines::request_on(vstd::utf8::encode_utf8(t)) is Some,
{
    lemma_shown_space(b, t);
    let k = crate::search::find(b, seq![32u8])->Some_0;
    let j = crate::search::find(t, seq![' '])->Some_0;
    let (b1, t1) = (b.skip(k + 1), t.skip(j + 1));
    lemma_shown_token(b.take(k), t.take(j));
    lemma_shown_space(b1, t1);
    let n = crate::search::find(b1, seq![32u8])->Some_0;
    let m = crate::search::find(t1, seq![' '])->Some_0;
    let target = b1.take(n);
    let coded = vstd::utf8::encode_utf8(t1.take(m));
    crate::encoding::lemma_shown_encoded(target, t1.take(m));
    assert forall|i: int| 0 <= i < coded.len() implies (#[trigger] coded[i]) >= 33 && coded[i]
        != 127 by {
        if coded[i] < 128 {
            let x = choose|x: int| 0 <= x < target.len() && target[x] == coded[i];
            assert(target[x] >= 33 && target[x] != 127);
        }
    }
    vstd::utf8::encode_utf8_valid_utf8(t1.take(m));
    lemma_shown_version(b1.skip(n + 1), t1.skip(m + 1));
}

/// A status line that is shown as text is one when it is encoded anew.
proof fn lemma_shown_status(b: Seq<u8>, t: Seq<char>)
    requires
        crate::encoding::is_shown(b, t),
        crate::lines::status_on(b) is Some,
    ensures
        crate::lines::status_on(vstd::utf8::encode_utf8(t)) is Some,
{
    lemma_shown_space(b, t);
    let k = crate::search::find(b, seq![32u8])->Some_0;
    let j = crate::search::find(t, seq![' '])->Some_0;
    let (b1, t1) = (b.skip(k + 1), t.skip(j + 1));
    lemma_shown_version(b.take(k), t.take(j));
    lemma_shown_text(b1, t1);
    let n: int = if b1.len() == 3 {
        3
    } else {
        4
    };
    let front = b1.take(n);
    assert(front[0] == b1[0] && front[1] == b1[1] && front[2] == b1[2]);
    let code = crate::lines::ascii_text(front);
    assert(vstd::utf8::is_ascii_chars(code));
    vstd::utf8::is_ascii_chars_encode_utf8(code);
    assert(vstd::utf8::encode_utf8(code) =~= front) by {
        assert forall|i: int| 0 <= i < n implies vstd::utf8::encode_utf8(code)[i] == front[i] by {
            assert(code[i] as u8 == vstd::utf8::encode_utf8(code)[i]);
        }
    }
    assert(b1.subrange(0, n) =~= front);
    crate::encoding::lemma_shown_prefix(b1, t1, code);
    assert(t1.subrange(0, n) == code);
    assert(t1 =~= code + t1.skip(n)) by {
        assert(t1 =~= t1.subrange(0, n) + t1.skip(n));
    }
    crate::encoding::lemma_encode_append(code, t1.skip(n));
    let coded = vstd::utf8::encode_utf8(t1);
    assert(coded == front + vstd::utf8::encode_utf8(t1.skip(n)));
    if n == 3 {
        assert(b1.skip(3).len() == 0);
        assert(t1.skip(3).len() == 0);
        assert(coded.len() == 3);
    } else {
        assert(coded[3] == front[3]);
    }
    assert(coded[0] == b1[0] && coded[1] == b1[1] && coded[2] == b1[2]);
}

/// A line that goes makes fewer lines.
proof fn lemma_fewer_kept(lines: Seq<Seq<char>>, k: int)
    ensures
        crate::http::kept(lines).len() <= lines.len(),
        0 <= k < lines.len() && crate::http::frames_body(lines[k]) ==> crate::http::kept(lines).len()
            < lines.len(),
    decreases lines.len(),
{
    if lines.len() > 0 {
        lemma_fewer_kept(lines.drop_first(), k - 1);
        if 0 < k < lines.len() {
            assert(lines.drop_first()[k - 1] == lines[k]);
        }
    }
}

/// What a length line is looked up as.
proof fn lemma_lookup_length(body_len: nat)
    requires
        body_len <= usize::MAX,
    ensures
        ({
            let field = (
                "Content-Length"@,
                vstd::utf8::encode_utf8(crate::number::decimal(body_len)),
            );
            &&& crate::http::lookup(seq![field], "transfer-encoding"@) is None
            &&& crate::http::lookup(seq![field], "content-length"@) == Some(
                crate::number::decimal(body_len),
            )
            &&& crate::number::unsigned(
                crate::number::decimal(body_len),
                10,
                usize::MAX as nat,
            ) == Some(body_len)
        }),
{
    let digits = crate::number::decimal(body_len);
    let field = ("Content-Length"@, vstd::utf8::encode_utf8(digits));
    reveal_strlit("Content-Length");
    reveal_strlit("content-length");
    reveal_strlit("transfer-encoding");
    assert(crate::text::lower("Content-Length"@) =~= crate::text::lower("content-length"@));
    assert(crate::text::lower("Content-Length"@).len() == 14);
    assert(crate::text::lower("transfer-encoding"@).len() == 17);
    assert(seq![field].drop_first() =~= Seq::empty());
    vstd::utf8::encode_utf8_valid_utf8(digits);
    vstd::utf8::encode_utf8_decode_utf8(digits);
    crate::number::lemma_decimal_digits(body_len);
    assert forall|i: int| 0 <= i < digits.len() implies !crate::text::is_space(digits[i]) by {
        assert(crate::text::is_digit(digits[i]));
    }
    crate::text::lemma_trim_none(digits);
    crate::number::law_numeral_roundtrip(body_len, 10, usize::MAX as nat);
    reveal_with_fuel(crate::http::lookup, 2);
}

/// A clean head whose body was chunked, framed anew, announces the length and no
/// chunks.
pub proof fn lemma_reframed_is_whole(head: Seq<u8>, body: Seq<u8>)
    requires
        crate::http::is_clean(head),
        crate::http::announces_chunks(head),
        crate::encoding::is_shown(head_block(head), crate::text::shown_text(head_block(head))),
        body.len() <= usize::MAX,
    ensures
        is_whole(vstd::utf8::encode_utf8(crate::http::reframed(head, body.len())) + body),
{
    let n = body.len();
    let block = head_block(head);
    let text = crate::text::shown_text(block);
    let old = crate::http::byte_lines(head);
    let lines = crate::http::head_lines(head);
    let rest = lines.drop_first();
    let new = crate::http::reframed_lines(head, n);
    let coded = vstd::utf8::encode_utf8(crate::http::reframed(head, n));
    let whole = coded + body;
    lemma_clean_header(head, "transfer-encoding"@);
    assert(is_read(head));
    crate::http::lemma_crlf_bytes();
    crate::encoding::lemma_shown_pieces(block, text, crate::http::crlf_text());
    crate::text::lemma_pieces_some(block, crate::http::crlf());
    assert(old.len() == lines.len());
    crate::http::lemma_reframed_lines(head, n);
    crate::http::lemma_written_head(new, body);
    crate::http::lemma_kept_joined(rest);
    crate::http::lemma_length_header(n);
    let stay = crate::http::kept(rest);
    let fields = crate::http::byte_lines(whole).drop_first();
    assert(fields.len() == stay.len() + 1);
    assert forall|i: int| 0 <= i < rest.len() implies {
        &&& crate::lines::header_on(vstd::utf8::encode_utf8(#[trigger] rest[i])) is Some
        &&& crate::lines::header_on(vstd::utf8::encode_utf8(rest[i]))->Some_0.0
            == crate::http::line_name(rest[i])
        &&& crate::http::line_name(rest[i]) == fields_of(head)[i].0
    } by {
        assert(old.drop_first()[i] == old[i + 1]);
        assert(rest[i] == lines[i + 1]);
        assert(crate::encoding::is_shown(old[i + 1], lines[i + 1]));
        assert(crate::lines::header_on(old.drop_first()[i]) is Some);
        lemma_shown_header(old[i + 1], lines[i + 1]);
    }
    assert forall|i: int| 0 <= i < stay.len() implies {
        &&& crate::lines::header_on(vstd::utf8::encode_utf8(#[trigger] stay[i])) is Some
        &&& crate::lines::header_on(vstd::utf8::encode_utf8(stay[i]))->Some_0.0
            == crate::http::line_name(stay[i])
        &&& !crate::http::frames_body(stay[i])
        &&& fields[i] == vstd::utf8::encode_utf8(stay[i])
    } by {
        let j = choose|j: int| 0 <= j < rest.len() && rest[j] == stay[i];
        assert(crate::lines::header_on(vstd::utf8::encode_utf8(rest[j])) is Some);
        assert(new[i + 1] == stay[i]);
    }
    assert(fields.last() == vstd::utf8::encode_utf8(crate::http::length_line(n)));
    assert forall|i: int| 0 <= i < fields.len() implies crate::lines::header_on(
        #[trigger] fields[i],
    ) is Some by {
        if i < stay.len() {
            assert(fields[i] == vstd::utf8::encode_utf8(stay[i]));
        }
    }
    // A line that announces the chunks goes, so there is room for the length.
    let old_fields = fields_of(head);
    lemma_found(old_fields, "transfer-encoding"@);
    let k = choose|i: int|
        0 <= i < old_fields.len() && crate::text::same_ignoring_case(
            (#[trigger] old_fields[i]).0,
            "transfer-encoding"@,
        );
    assert(crate::http::line_name(rest[k]) == old_fields[k].0);
    lemma_fewer_kept(rest, k);
    assert(crate::encoding::is_shown(old[0], lines[0]));
    assert(new[0] == lines[0]);
    assert(crate::http::byte_lines(whole)[0] == vstd::utf8::encode_utf8(lines[0]));
    if crate::lines::request_on(old[0]) is Some {
        lemma_shown_request(old[0], lines[0]);
    } else {
        lemma_shown_status(old[0], lines[0]);
    }
    crate::http::lemma_read_head_is_clean(whole);
    assert(is_read(whole));
    let headers = fields_of(whole);
    assert forall|i: int| 0 <= i < headers.len() - 1 implies !crate::text::same_ignoring_case(
        (#[trigger] headers[i]).0,
        "transfer-encoding"@,
    ) && !crate::text::same_ignoring_case(headers[i].0, "content-length"@) by {
        assert(fields[i] == vstd::utf8::encode_utf8(stay[i]));
    }
    lemma_lookup_last(headers, "transfer-encoding"@);
    lemma_lookup_last(headers, "content-length"@);
    lemma_lookup_length(n);
    lemma_clean_header(whole, "transfer-encoding"@);
    lemma_clean_header(whole, "content-length"@);
}

/// The bytes of a head in front of its blank line.
pub open spec fn head_block(head: Seq<u8>) -> Seq<u8> {
    head.take(crate::search::find(head, crate::http::crlf_end())->Some_0)
}

/// A reader that is past a head reads the body as the head says. Where the body
/// is chunked, the head is clean.
pub open spec fn reads_as_said(reader: crate::reader::ReaderView) -> bool {
    match reader {
        crate::reader::ReaderView::Head { method, buf } => true,
        crate::reader::ReaderView::Sized { buf, end, want } => {
            &&& has_head(buf)
            &&& crate::http::head_len(buf) == Some(end)
            &&& end <= buf.len()
            &&& !crate::http::announces_chunks(buf)
            &&& want == announced(buf)
        },
        crate::reader::ReaderView::Chunked { head, body } => {
            &&& crate::http::is_clean(head)
            &&& crate::http::announces_chunks(head)
        },
    }
}

/// The head that `chunk` completes, if it does, ends in CR LF CR LF with no line
/// break in front; where it announces chunks, none of its lines ends in LF alone.
/// If it is that of a response, the response has a body.
pub open spec fn completes_head(reader: crate::reader::ReaderView, chunk: Seq<u8>) -> bool {
    match reader {
        crate::reader::ReaderView::Head { method, buf } => {
            let all = buf + chunk;
            crate::http::head_len(all) is Some ==> {
                &&& has_head(all)
                &&& crate::http::announces_chunks(all) ==> crate::http::is_clean(all)
                &&& match method {
                    Some(m) => crate::reader::has_body(m, crate::http::status_of(all)),
                    None => true,
                }
            }
        },
        _ => true,
    }
}

/// A finished message is whole, and a reader that goes on reads as its head says.
pub open spec fn is_sound(step: crate::reader::StepView) -> bool {
    match step {
        crate::reader::StepView::Done(message) => is_whole(message),
        crate::reader::StepView::More(next, limit) => reads_as_said(next),
        crate::reader::StepView::Failed(_) => true,
    }
}

pub proof fn lemma_sized_step(buf: Seq<u8>, end: int, want: int)
    requires
        reads_as_said(crate::reader::ReaderView::Sized { buf, end, want }),
    ensures
        is_sound(crate::reader::sized_step(buf, end, want)),
{
    if want - (buf.len() - end) <= 0 {
        crate::http::lemma_head_alone(buf);
        lemma_head_and_more(buf, Seq::empty(), end + want);
    }
}

/// How a message is cut into pieces makes no difference, wherever the cut is:
/// what two pieces lead to, one after the other, is what they lead to in one.
/// (The head ends in CR LF CR LF with no line break in front, and what is
/// buffered is no larger than a reader buffers.)
pub proof fn law_pieces_of_a_message(
    method: Option<Seq<char>>,
    buf: Seq<u8>,
    first: Seq<u8>,
    second: Seq<u8>,
)
    requires
        first.len() > 0,
        second.len() > 0,
        crate::http::head_len(buf + first) is None ==> buf.len() + first.len()
            <= crate::reader::MAX_HEAD,
        crate::http::head_len(buf + first) is Some ==> has_head(buf + first),
        buf.len() + first.len() + second.len() <= crate::reader::MAX_CHUNKED,
    ensures
        ({
            let reader = crate::reader::ReaderView::Head { method, buf };
            match crate::reader::fed(reader, first) {
                crate::reader::StepView::More(next, limit) => crate::reader::fed(next, second)
                    == crate::reader::fed(reader, first + second),
                done => done == crate::reader::fed(reader, first + second),
            }
        }),
{
    let part = buf + first;
    let all = part + second;
    assert(buf + (first + second) =~= all);
    if crate::http::head_len(part) is Some {
        let end = crate::http::head_len(part)->Some_0;
        crate::http::lemma_head_alone(part);
        lemma_head_and_more(part, second, end);
        assert(all.take(end) =~= part.take(end));
        assert(all.skip(end) =~= part.skip(end) + second);
        match crate::reader::framing_of(method, part) {
            crate::reader::Framing::NoBody => {},
            crate::reader::Framing::Chunked => {
                if !(crate::reader::dechunk(part.skip(end)) is More) {
                    crate::reader::law_chunked_outcome_is_stable(part.skip(end), second);
                }
            },
            crate::reader::Framing::Length(want) => {
                if want <= part.len() - end {
                    assert(all.take(end + want) =~= part.take(end + want));
                }
            },
        }
    }
}

/// A message is read to the end that its head announces, whatever follows it: a
/// request, and a response to a method other than HEAD whose status is not 100 to
/// 199, 204 or 304, or cannot be read.
pub proof fn law_a_body_is_read_as_announced(
    method: Option<Seq<char>>,
    head: Seq<u8>,
    body: Seq<u8>,
    chunks: Seq<Seq<u8>>,
    rest: Seq<u8>,
)
    requires
        has_head(head),
        crate::http::head_len(head) == Some(head.len() as int),
        method matches Some(m) ==> m != "HEAD"@ && (crate::http::status_of(head) matches Some(c)
            ==> c != 204 && c != 304 && (c < 100 || 199 < c)),
        body.len() <= usize::MAX,
        forall|i: int| 0 <= i < chunks.len() ==> (#[trigger] chunks[i]).len() > 0,
        chunks.flatten().len() <= 33554432,
    ensures
        ({
            let reader = crate::reader::ReaderView::Head { method, buf: Seq::empty() };
            let coded = crate::reader::chunked_encoding(chunks);
            &&& !crate::http::announces_chunks(head) && (crate::http::length_of(head) == Some(
                body.len(),
            ) || crate::http::length_of(head) is None && body.len() == 0) ==> crate::reader::fed(
                reader,
                head + body + rest,
            ) == crate::reader::StepView::Done(head + body)
            &&& crate::http::announces_chunks(head) ==> crate::reader::fed(
                reader,
                head + coded + rest,
            ) == crate::reader::StepView::Done(
                vstd::utf8::encode_utf8(crate::http::reframed(head, chunks.flatten().len()))
                    + chunks.flatten(),
            )
        }),
{
    let none = Seq::<u8>::empty();
    let coded = crate::reader::chunked_encoding(chunks);
    let n = head.len() as int;
    lemma_head_and_more(head, body + rest, n);
    lemma_head_and_more(head, coded + rest, n);
    assert(none + (head + body + rest) =~= head + (body + rest));
    assert(head + body + rest =~= head + (body + rest));
    assert(none + (head + coded + rest) =~= head + (coded + rest));
    assert(head + coded + rest =~= head + (coded + rest));
    crate::reader::law_sized_message_is_read_whole(head, body, rest);
    crate::reader::law_chunked_message_is_read_whole(head, chunks, rest);
}

/// A response to HEAD, and one whose status is 100 to 199, 204 or 304, ends with
/// its head, whatever that announces.
pub proof fn law_some_responses_end_with_their_head(
    method: Seq<char>,
    head: Seq<u8>,
    rest: Seq<u8>,
)
    requires
        has_head(head),
        crate::http::head_len(head) == Some(head.len() as int),
        method == "HEAD"@ || (crate::http::status_of(head) matches Some(c) && (c == 204 || c == 304
            || 100 <= c <= 199)),
    ensures
        crate::reader::fed(
            crate::reader::ReaderView::Head { method: Some(method), buf: Seq::empty() },
            head + rest,
        ) == crate::reader::StepView::Done(head),
{
    let none = Seq::<u8>::empty();
    lemma_head_and_more(head, rest, head.len() as int);
    assert(none + (head + rest) =~= head + rest);
    assert((head + rest).take(head.len() as int) =~= head);
}

/// The bytes of a response head with one header line.
pub open spec fn response_head(status: u16, reason: Seq<char>, line: Seq<char>) -> Seq<u8> {
    vstd::utf8::encode_utf8(
        "HTTP/1.1 "@ + crate::number::decimal(status as nat) + " "@ + reason + "\r\n"@ + line
            + "\r\n\r\n"@,
    )
}

proof fn lemma_response_head(status: u16, reason: Seq<char>, line: Seq<char>, more: Seq<u8>)
    requires
        100 <= status <= 999,
        crate::lines::is_value_text(reason),
        line.len() > 0,
        crate::lines::is_value_text(line),
        crate::lines::header_on(vstd::utf8::encode_utf8(line)) is Some,
    ensures
        ({
            let head = response_head(status, reason, line);
            let field = crate::lines::header_on(vstd::utf8::encode_utf8(line))->Some_0;
            &&& has_head(head + more)
            &&& crate::http::is_clean(head + more)
            &&& crate::http::head_len(head + more) == Some(head.len() as int)
            &&& crate::http::status_of(head + more) == Some(status)
            &&& crate::http::head_lines(head + more) == seq![
                "HTTP/1.1 "@ + crate::number::decimal(status as nat) + " "@ + reason,
                line,
            ]
            &&& crate::http::eol_of(head + more) == crate::http::crlf_text()
            &&& forall|name: Seq<char>| #[trigger]
                crate::http::header_of(head + more, name) == crate::http::lookup(
                    seq![field],
                    name,
                )
        }),
{
    let first = "HTTP/1.1 "@ + crate::number::decimal(status as nat) + " "@ + reason;
    let lines = seq![first, line];
    let head = response_head(status, reason, line);
    let whole = head + more;
    let field = crate::lines::header_on(vstd::utf8::encode_utf8(line))->Some_0;
    reveal_strlit("\r\n");
    reveal_strlit("\r\n\r\n");
    reveal_with_fuel(crate::http::joined, 3);
    assert(lines.drop_first() =~= seq![line]);
    assert(seq![line].drop_first() =~= Seq::empty());
    assert(first + "\r\n"@ + line + "\r\n\r\n"@ =~= crate::http::joined(lines)
        + crate::http::crlf_text());
    crate::http::lemma_status_line(status, reason);
    crate::http::lemma_text_is_one_line(first);
    crate::http::lemma_text_is_one_line(line);
    assert(crate::http::are_lines(lines));
    crate::http::lemma_written_head(lines, more);
    let coded = crate::http::byte_lines(whole);
    assert(coded[0] == vstd::utf8::encode_utf8(first));
    assert(coded.drop_first() =~= seq![vstd::utf8::encode_utf8(line)]);
    crate::http::lemma_read_head_is_clean(whole);
    let headers = crate::lines::headers_on(coded.drop_first())->Some_0;
    assert(headers =~= seq![field]);
    assert(crate::http::said_response(whole, MAX_HEADERS as nat) == Some((Some(status), headers)));
    assert forall|name: Seq<char>| #[trigger]
        crate::http::header_of(whole, name) == crate::http::lookup(seq![field], name) by {
        lemma_clean_header(whole, name);
    }
}

/// A response with a Content-Length and its body is read whole, whatever follows
/// it, if the method is not HEAD and the status not 204, 304 or below 200; else it
/// ends with its head.
pub proof fn law_written_response_is_read_whole(
    method: Seq<char>,
    status: u16,
    reason: Seq<char>,
    body: Seq<u8>,
    rest: Seq<u8>,
)
    requires
        100 <= status <= 999,
        crate::lines::is_value_text(reason),
        body.len() <= usize::MAX,
    ensures
        ({
            let head = response_head(
                status,
                reason,
                "Content-Length: "@ + crate::number::decimal(body.len()),
            );
            let reader = crate::reader::ReaderView::Head {
                method: Some(method),
                buf: Seq::empty(),
            };
            crate::reader::fed(reader, head + body + rest) == crate::reader::StepView::Done(
                if method != "HEAD"@ && status >= 200 && status != 204 && status != 304 {
                    head + body
                } else {
                    head
                },
            )
        }),
{
    let n = body.len();
    let line = crate::http::length_line(n);
    let head = response_head(status, reason, line);
    crate::http::lemma_length_header(n);
    reveal_strlit("Content-Length: ");
    lemma_response_head(status, reason, line, Seq::empty());
    assert(head + Seq::<u8>::empty() =~= head);
    lemma_lookup_length(n);
    assert(crate::http::header_of(head, "transfer-encoding"@) is None);
    assert(crate::http::header_of(head, "content-length"@) == Some(crate::number::decimal(n)));
    if method != "HEAD"@ && status >= 200 && status != 204 && status != 304 {
        let none = Seq::<Seq<u8>>::empty();
        assert(none.flatten().len() == 0);
        law_a_body_is_read_as_announced(Some(method), head, body, none, rest);
    } else {
        law_some_responses_end_with_their_head(method, head, body + rest);
        assert(head + body + rest =~= head + (body + rest));
    }
}

/// A response in chunks comes out with their data joined and its length in place
/// of the Transfer-Encoding, whatever follows it.
pub proof fn law_written_chunks_are_read_whole(
    method: Seq<char>,
    status: u16,
    reason: Seq<char>,
    chunks: Seq<Seq<u8>>,
    rest: Seq<u8>,
)
    requires
        200 <= status <= 999,
        status != 204,
        status != 304,
        method != "HEAD"@,
        crate::lines::is_value_text(reason),
        forall|i: int| 0 <= i < chunks.len() ==> (#[trigger] chunks[i]).len() > 0,
        chunks.flatten().len() <= 33554432,
    ensures
        crate::reader::fed(
            crate::reader::ReaderView::Head { method: Some(method), buf: Seq::empty() },
            response_head(status, reason, "Transfer-Encoding: chunked"@)
                + crate::reader::chunked_encoding(chunks) + rest,
        ) == crate::reader::StepView::Done(
            response_head(
                status,
                reason,
                "Content-Length: "@ + crate::number::decimal(chunks.flatten().len()),
            ) + chunks.flatten(),
        ),
{
    let line = "Transfer-Encoding: chunked"@;
    let n = chunks.flatten().len();
    let first = "HTTP/1.1 "@ + crate::number::decimal(status as nat) + " "@ + reason;
    let head = response_head(status, reason, line);
    lemma_chunked_line();
    lemma_response_head(status, reason, line, Seq::empty());
    assert(head + Seq::<u8>::empty() =~= head);
    assert(crate::http::header_of(head, "transfer-encoding"@) == Some("chunked"@));
    law_a_body_is_read_as_announced(Some(method), head, Seq::empty(), chunks, rest);
    let lines = crate::http::head_lines(head);
    assert(lines.drop_first() =~= seq![line]);
    assert(seq![line].drop_first() =~= Seq::empty());
    reveal_with_fuel(crate::http::kept_lines, 2);
    reveal_strlit("\r\n");
    reveal_strlit("\r\n\r\n");
    assert(crate::http::reframed(head, n) =~= first + "\r\n"@ + ("Content-Length: "@
        + crate::number::decimal(n)) + "\r\n\r\n"@);
}

proof fn lemma_chunked_line()
    ensures
        ({
            let line = "Transfer-Encoding: chunked"@;
            let field = ("Transfer-Encoding"@, vstd::utf8::encode_utf8("chunked"@));
            &&& line.len() > 0
            &&& crate::lines::is_value_text(line)
            &&& crate::lines::header_on(vstd::utf8::encode_utf8(line)) == Some(field)
            &&& crate::http::lookup(seq![field], "transfer-encoding"@) == Some("chunked"@)
            &&& crate::search::find(crate::text::lower("chunked"@), "chunked"@) is Some
            &&& crate::http::frames_body(line)
        }),
{
    let line = "Transfer-Encoding: chunked"@;
    let name = "Transfer-Encoding"@;
    let value = "chunked"@;
    let field = (name, vstd::utf8::encode_utf8(value));
    reveal_strlit("Transfer-Encoding: chunked");
    reveal_strlit("Transfer-Encoding");
    reveal_strlit("transfer-encoding");
    reveal_strlit("chunked");
    assert(line =~= name + seq![':', ' '] + value);
    assert(crate::http::is_name(name));
    crate::http::lemma_header_line(name, value);
    assert(crate::text::lower(name) =~= crate::text::lower("transfer-encoding"@));
    vstd::utf8::encode_utf8_valid_utf8(value);
    vstd::utf8::encode_utf8_decode_utf8(value);
    assert forall|i: int| 0 <= i < value.len() implies !crate::text::is_space(value[i]) by {}
    crate::text::lemma_trim_none(value);
    assert(crate::text::lower(value) =~= value);
    assert(value.subrange(0, 7) =~= value);
    assert(crate::search::occurs(value, value, 0));
    crate::search::lemma_find(value, value);
    crate::text::law_splitting(name, ':', seq![' '] + value);
    assert(line =~= name + seq![':'] + (seq![' '] + value));
    assert forall|i: int| 0 <= i < name.len() implies !crate::text::is_space(name[i]) by {}
    crate::text::lemma_trim_none(name);
}

/// A reader that is handed a whole response at once finishes it: its head and its
/// body of the announced length, or its head alone where such a response has no
/// body.
pub proof fn law_a_response_is_finished(
    reader: crate::reader::HttpReader,
    method: Seq<char>,
    status: u16,
    reason: Seq<char>,
    body: Seq<u8>,
    rest: Seq<u8>,
    chunk: &[u8],
    step: crate::reader::ReadStep,
)
    requires
        call_ensures(crate::reader::HttpReader::feed, (reader, chunk), step),
        reader@ == (crate::reader::ReaderView::Head {
            method: Some(method),
            buf: Seq::empty(),
        }),
        100 <= status <= 999,
        crate::lines::is_value_text(reason),
        body.len() <= usize::MAX,
        chunk@ == response_head(
            status,
            reason,
            "Content-Length: "@ + crate::number::decimal(body.len()),
        ) + body + rest,
    ensures
        ({
            let head = response_head(
                status,
                reason,
                "Content-Length: "@ + crate::number::decimal(body.len()),
            );
            &&& method != "HEAD"@ && status >= 200 && status != 204 && status != 304 ==> (
            step matches crate::reader::ReadStep::Done(message) && message@ == head + body)
            &&& method == "HEAD"@ || status < 200 || status == 204 || status == 304 ==> (
            step matches crate::reader::ReadStep::Done(message) && message@ == head)
        }),
{
    law_written_response_is_read_whole(method, status, reason, body, rest);
}

} // verus!
