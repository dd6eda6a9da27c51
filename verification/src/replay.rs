//! Sending a captured request to a local service once more.
use vstd::prelude::*;

use crate::http::request_method;
use crate::number::push_decimal;
use crate::search::chars_start_with;
use crate::store::LoggedRequest;
use crate::text::{before_char, bytes_of, chars_of, push_chars, split_lines, to_lower};

verus! {

/// A line of captured headers that a replay does not send again: a request line
/// with one of the common methods, and what is said anew.
pub open spec fn is_replaced(line: Seq<char>) -> bool {
    let lower = crate::text::lower(line);
    ||| "content-length:"@.is_prefix_of(lower)
    ||| "host:"@.is_prefix_of(lower)
    ||| "GET "@.is_prefix_of(line)
    ||| "POST "@.is_prefix_of(line)
    ||| "PUT "@.is_prefix_of(line)
    ||| "PATCH "@.is_prefix_of(line)
    ||| "DELETE "@.is_prefix_of(line)
    ||| "HEAD "@.is_prefix_of(line)
    ||| "OPTIONS "@.is_prefix_of(line)
}

/// The lines of captured headers that a replay sends again.
pub open spec fn kept_lines(lines: Seq<Seq<char>>) -> Seq<char>
    decreases lines.len(),
{
    if lines.len() == 0 {
        Seq::empty()
    } else if is_replaced(lines.last()) || lines.last().len() == 0 {
        kept_lines(lines.drop_last())
    } else {
        kept_lines(lines.drop_last()) + lines.last() + "\r\n"@
    }
}

/// The head of a replayed request.
pub open spec fn replay_head(row: crate::store::LoggedView, local_host: Seq<char>) -> Seq<char> {
    row.method + " "@ + crate::text::before(row.path, ' ') + " HTTP/1.1\r\n"@ + kept_lines(
        crate::text::lines(row.headers),
    ) + "Host: "@ + local_host + ":"@ + crate::number::decimal(row.port as nat)
        + "\r\nContent-Length: "@ + crate::number::decimal(row.body.len())
        + "\r\nConnection: close\r\n\r\n"@
}

fn starts(line: &[char], prefix: &str) -> (res: bool)
    ensures
        res == prefix@.is_prefix_of(line@),
{
    chars_start_with(line, chars_of(prefix).as_slice())
}

fn line_is_replaced(line: &[char]) -> (res: bool)
    ensures
        res == is_replaced(line@),
{
    let lower: Vec<char> = to_lower(line);
    starts(lower.as_slice(), "content-length:") || starts(lower.as_slice(), "host:") || starts(
        line,
        "GET ",
    ) || starts(line, "POST ") || starts(line, "PUT ") || starts(line, "PATCH ") || starts(
        line,
        "DELETE ",
    ) || starts(line, "HEAD ") || starts(line, "OPTIONS ")
}

fn push_kept_lines(out: &mut String, headers: &str)
    ensures
        final(out)@ == old(out)@ + kept_lines(crate::text::lines(headers@)),
{
    let chars: Vec<char> = chars_of(headers);
    let lines: Vec<Vec<char>> = split_lines(chars.as_slice());
    let ghost views = crate::text::texts(lines@);
    let ghost start = out@;
    let mut i: usize = 0;
    assert(out@ =~= start + kept_lines(views.take(0)));
    while i < lines.len()
        invariant
            i <= lines@.len(),
            views == crate::text::texts(lines@),
            out@ == start + kept_lines(views.take(i as int)),
        decreases lines@.len() - i,
    {
        let ghost next = views.take(i + 1);
        assert(next.drop_last() =~= views.take(i as int));
        assert(next.last() == lines@[i as int]@);
        let line = lines[i].as_slice();
        if !line_is_replaced(line) && line.len() > 0 {
            push_chars(out, line);
            out.append("\r\n");
            assert(out@ =~= start + kept_lines(next));
        }
        i = i + 1;
    }
    assert(views.take(i as int) =~= views);
}

/// The bytes of a replayed request.
pub fn replay_request(local_host: &str, row: &LoggedRequest) -> (out: Vec<u8>)
    ensures
        out@ == vstd::utf8::encode_utf8(replay_head(row@, local_host@)) + row@.body,
{
    let path: Vec<char> = chars_of(row.path.as_str());
    let mut head: String = String::new();
    head.append(row.method.as_str());
    head.append(" ");
    push_chars(&mut head, before_char(path.as_slice(), ' '));
    head.append(" HTTP/1.1\r\n");
    push_kept_lines(&mut head, row.headers.as_str());
    head.append("Host: ");
    head.append(local_host);
    head.append(":");
    push_decimal(&mut head, row.port as u64);
    head.append("\r\nContent-Length: ");
    push_decimal(&mut head, row.body.len() as u64);
    head.append("\r\nConnection: close\r\n\r\n");
    assert(head@ =~= replay_head(row@, local_host@));
    let mut out: Vec<u8> = bytes_of(head.as_str());
    out.extend_from_slice(row.body.as_slice());
    out
}

/// The method by which the response to a replay is read: that of the request,
/// or else the captured one.
pub fn replay_method(request: &[u8], row: &LoggedRequest) -> (res: String)
    ensures
        res@ == (match crate::http::method_of(request@) {
            Some(m) => m,
            None => row@.method,
        }),
{
    match request_method(request) {
        Some(m) => m,
        None => row.method.clone(),
    }
}

/// What a replay prints.
pub fn replayed_line(row: &LoggedRequest, status: u16) -> (out: String)
    ensures
        out@ == "replayed "@ + row@.id + " "@ + row@.method + " "@ + row@.path + " -> "@
            + crate::number::decimal(status as nat),
{
    let mut out: String = String::new();
    out.append("replayed ");
    out.append(row.id.as_str());
    out.append(" ");
    out.append(row.method.as_str());
    out.append(" ");
    out.append(row.path.as_str());
    out.append(" -> ");
    push_decimal(&mut out, status as u64);
    assert(out@ =~= "replayed "@ + row@.id + " "@ + row@.method + " "@ + row@.path + " -> "@
        + crate::number::decimal(status as nat));
    out
}

/// What is said of an id that is not in the log.
pub fn no_capture_message(id: &str) -> (out: String)
    ensures
        out@ == "no captured request with id `"@ + id@ + "`"@,
{
    let mut out: String = String::new();
    out.append("no captured request with id `");
    out.append(id);
    out.append("`");
    assert(out@ =~= "no captured request with id `"@ + id@ + "`"@);
    out
}

/// A replay sends the captured body, byte for byte, behind a head that
/// announces its length.
pub proof fn law_replay_sends_the_body(
    row: crate::store::LoggedView,
    local_host: Seq<char>,
)
    ensures
        ({
            let head = vstd::utf8::encode_utf8(replay_head(row, local_host));
            (head + row.body).skip(head.len() as int) == row.body
        }),
        ("\r\nContent-Length: "@ + crate::number::decimal(row.body.len())
            + "\r\nConnection: close\r\n\r\n"@).is_suffix_of(replay_head(row, local_host)),
{
    let head = vstd::utf8::encode_utf8(replay_head(row, local_host));
    assert((head + row.body).skip(head.len() as int) =~= row.body);
    let tail = "\r\nContent-Length: "@ + crate::number::decimal(row.body.len())
        + "\r\nConnection: close\r\n\r\n"@;
    let text = replay_head(row, local_host);
    assert(text.subrange(text.len() - tail.len(), text.len() as int) =~= tail);
}

/// No line that a replay says anew is sent again as it was captured.
pub proof fn law_replay_drops_old_framing(lines: Seq<Seq<char>>)
    ensures
        forall|i: int|
            0 <= i < lines.len() && is_replaced(#[trigger] lines[i]) ==> kept_lines(
                lines.remove(i),
            ) == kept_lines(lines),
    decreases lines.len(),
{
    assert forall|i: int| 0 <= i < lines.len() && is_replaced(#[trigger] lines[i]) implies kept_lines(
        lines.remove(i),
    ) == kept_lines(lines) by {
        let init = lines.drop_last();
        if i == lines.len() - 1 {
            assert(lines.remove(i) =~= init);
        } else {
            law_replay_drops_old_framing(init);
            assert(init[i] == lines[i]);
            assert(lines.remove(i).drop_last() =~= init.remove(i));
            assert(lines.remove(i).last() == lines.last());
        }
    }
}

/// A captured line that is not empty and says neither the length, nor the host,
/// nor a request line with one of the common methods is sent again as it was, in
/// its place.
pub proof fn law_replay_sends_the_other_lines(lines: Seq<Seq<char>>, line: Seq<char>)
    requires
        line.len() > 0,
        !"content-length:"@.is_prefix_of(crate::text::lower(line)),
        !"host:"@.is_prefix_of(crate::text::lower(line)),
        !"GET "@.is_prefix_of(line),
        !"POST "@.is_prefix_of(line),
        !"PUT "@.is_prefix_of(line),
        !"PATCH "@.is_prefix_of(line),
        !"DELETE "@.is_prefix_of(line),
        !"HEAD "@.is_prefix_of(line),
        !"OPTIONS "@.is_prefix_of(line),
    ensures
        kept_lines(lines.push(line)) == kept_lines(lines) + line + "\r\n"@,
{
    assert(lines.push(line).drop_last() =~= lines);
}

/// A captured line that is empty, or says the length, the host, or a request line
/// with one of the common methods, is not sent again.
pub proof fn law_replay_leaves_lines_out(lines: Seq<Seq<char>>, line: Seq<char>)
    requires
        line.len() == 0 || "content-length:"@.is_prefix_of(crate::text::lower(line))
            || "host:"@.is_prefix_of(crate::text::lower(line)) || "GET "@.is_prefix_of(line)
            || "POST "@.is_prefix_of(line) || "PUT "@.is_prefix_of(line) || "PATCH "@.is_prefix_of(
            line,
        ) || "DELETE "@.is_prefix_of(line) || "HEAD "@.is_prefix_of(line)
            || "OPTIONS "@.is_prefix_of(line),
    ensures
        kept_lines(lines.push(line)) == kept_lines(lines),
        kept_lines(Seq::empty()).len() == 0,
{
    assert(lines.push(line).drop_last() =~= lines);
}

/// A replay asks with the captured method for the captured path up to its first
/// space, of the local host and port, and sends the captured lines in between.
pub proof fn law_replay_asks_as_captured(
    row: crate::store::LoggedView,
    local_host: Seq<char>,
    target: Seq<char>,
    tail: Seq<char>,
)
    requires
        forall|i: int| 0 <= i < target.len() ==> target[i] != ' ',
        row.path == target || row.path == target + seq![' '] + tail,
    ensures
        replay_head(row, local_host) == row.method + seq![' '] + target + " HTTP/1.1\r\n"@
            + kept_lines(crate::text::lines(row.headers)) + "Host: "@ + local_host + seq![':']
            + crate::number::decimal(row.port as nat) + "\r\nContent-Length: "@
            + crate::number::decimal(row.body.len()) + "\r\nConnection: close\r\n\r\n"@,
{
    reveal_strlit(" ");
    reveal_strlit(":");
    assert(" "@ =~= seq![' ']);
    assert(":"@ =~= seq![':']);
    crate::text::lemma_find_char_none(target, ' ');
    let full = target + seq![' '] + tail;
    if row.path == full {
        assert forall|i: int| 0 <= i < target.len() implies full[i] != ' ' by {
            assert(full[i] == target[i]);
        }
        assert(full[target.len() as int] == ' ');
        crate::text::lemma_find_char_is(full, ' ', target.len() as int);
        assert(full.take(target.len() as int) =~= target);
    }
}

/// A replay is sent as its head and the captured body; its response is read by its
/// own method, or else the captured one; and what is said of it.
pub proof fn law_what_a_replay_says(
    local_host: &str,
    row: &LoggedRequest,
    sent: Vec<u8>,
    request: &[u8],
    method: String,
    status: u16,
    line: String,
    id: &str,
    missing: String,
)
    requires
        call_ensures(replay_request, (local_host, row), sent),
        call_ensures(replay_method, (request, row), method),
        call_ensures(replayed_line, (row, status), line),
        call_ensures(no_capture_message, (id,), missing),
    ensures
        sent@ == vstd::utf8::encode_utf8(replay_head(row@, local_host@)) + row.body@,
        crate::http::method_of(request@) matches Some(m) ==> method@ == m,
        crate::http::method_of(request@) is None ==> method@ == row.method@,
        line@ == "replayed "@ + row.id@ + " "@ + row.method@ + " "@ + row.path@ + " -> "@
            + crate::number::decimal(status as nat),
        missing@ == "no captured request with id `"@ + id@ + "`"@,
{
}

} // verus!
