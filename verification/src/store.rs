//! The webhook log: what is captured of a request, which captures are kept and
//! how they are shown.
use vstd::prelude::*;
use vstd::slice::slice_subrange;

use crate::http::{content_length, request_method, request_path};
use crate::number::{push_decimal, push_numeral};
use crate::octets::to_bytes;
use crate::search::find_bytes;
use crate::text::utf8_lossy;

verus! {

/// How many requests the log keeps.
pub const MAX_ROWS: usize = 500;

/// How many requests are shown while a tunnel runs.
pub const MAX_SHOWN: usize = 50;

/// A captured request.
#[derive(Debug)]
pub struct LoggedRequest {
    pub id: String,
    pub created_at: i64,
    pub method: String,
    pub path: String,
    pub port: u16,
    pub headers: String,
    pub body: Vec<u8>,
    pub status: Option<u16>,
}

#[verifier::ext_equal]
pub ghost struct LoggedView {
    pub id: Seq<char>,
    pub created_at: i64,
    pub method: Seq<char>,
    pub path: Seq<char>,
    pub port: u16,
    pub headers: Seq<char>,
    pub body: Seq<u8>,
    pub status: Option<u16>,
}

impl View for LoggedRequest {
    type V = LoggedView;

    open spec fn view(&self) -> LoggedView {
        LoggedView {
            id: self.id@,
            created_at: self.created_at,
            method: self.method@,
            path: self.path@,
            port: self.port,
            headers: self.headers@,
            body: self.body@,
            status: self.status,
        }
    }
}

impl Clone for LoggedRequest {
    fn clone(&self) -> (res: Self)
        ensures
            res@ == self@,
    {
        LoggedRequest {
            id: self.id.clone(),
            created_at: self.created_at,
            method: self.method.clone(),
            path: self.path.clone(),
            port: self.port,
            headers: self.headers.clone(),
            body: to_bytes(self.body.as_slice()),
            status: self.status,
        }
    }
}

/// The text before the blank line of a request; all of it where there is none.
pub open spec fn head_text(raw: Seq<u8>) -> Seq<char> {
    match crate::search::find(raw, crate::http::crlf_end()) {
        Some(i) => crate::text::shown_text(raw.take(i)),
        None => crate::text::shown_text(raw),
    }
}

/// The bytes behind the blank line of a request, as many as `length` says and
/// there are; nothing where there is no blank line.
pub open spec fn body_bytes(raw: Seq<u8>, length: Option<nat>) -> Seq<u8> {
    match crate::search::find(raw, crate::http::crlf_end()) {
        Some(i) => {
            let rest = raw.skip(i + 4);
            match length {
                Some(n) => if n < rest.len() {
                    rest.take(n as int)
                } else {
                    rest
                },
                None => rest,
            }
        },
        None => Seq::empty(),
    }
}

/// What is captured of a request at some time, where its head says `method`,
/// `path` and `length`.
pub open spec fn captured(
    created_at: i64,
    port: u16,
    raw: Seq<u8>,
    status: Option<u16>,
    method: Option<Seq<char>>,
    path: Option<Seq<char>>,
    length: Option<nat>,
) -> LoggedView {
    LoggedView {
        id: crate::number::hex((created_at as u64) as nat),
        created_at,
        method: match method {
            Some(m) => m,
            None => "GET"@,
        },
        path: match path {
            Some(p) => p,
            None => "/"@,
        },
        port,
        headers: head_text(raw),
        body: body_bytes(raw, length),
        status,
    }
}

/// View of an optional length.
pub open spec fn opt_nat(n: Option<usize>) -> Option<nat> {
    match n {
        Some(v) => Some(v as nat),
        None => None,
    }
}

/// Where the blank line of a request stands.
fn blank_line(raw: &[u8]) -> (res: Option<usize>)
    ensures
        match res {
            Some(i) => crate::search::find(raw@, crate::http::crlf_end()) == Some(i as int) && i + 4
                <= raw@.len(),
            None => crate::search::find(raw@, crate::http::crlf_end()) is None,
        },
{
    let blank: Vec<u8> = vec![13, 10, 13, 10];
    assert(blank@ =~= crate::http::crlf_end());
    proof {
        crate::search::lemma_find(raw@, crate::http::crlf_end());
    }
    find_bytes(raw, blank.as_slice())
}

/// The head of a request as text.
pub fn headers_only(raw: &[u8]) -> (res: String)
    ensures
        res@ == head_text(raw@),
{
    match blank_line(raw) {
        Some(i) => {
            let head = slice_subrange(raw, 0, i);
            assert(head@ =~= raw@.take(i as int));
            utf8_lossy(head)
        },
        None => utf8_lossy(raw),
    }
}

/// The body of a request whose head announces that length.
pub fn body_with_length(raw: &[u8], length: Option<usize>) -> (res: Vec<u8>)
    ensures
        res@ == body_bytes(raw@, opt_nat(length)),
{
    let n: usize = raw.len();
    match blank_line(raw) {
        Some(i) => {
            let rest = slice_subrange(raw, i + 4, n);
            assert(rest@ =~= raw@.skip(i + 4));
            match length {
                Some(len) if len < rest.len() => {
                    let body = slice_subrange(rest, 0, len);
                    assert(body@ =~= rest@.take(len as int));
                    to_bytes(body)
                },
                _ => to_bytes(rest),
            }
        },
        None => {
            let none: Vec<u8> = Vec::new();
            assert(none@ =~= Seq::empty());
            none
        },
    }
}

/// The body of a request.
pub fn body_of(raw: &[u8]) -> (res: Vec<u8>)
    ensures
        res@ == body_bytes(raw@, crate::http::length_of(raw@)),
{
    body_with_length(raw, content_length(raw))
}

/// What is captured of a request whose head says `method`, `path` and
/// `length`.
pub fn capture_parts(
    created_at: i64,
    port: u16,
    raw: &[u8],
    status: Option<u16>,
    method: Option<String>,
    path: Option<String>,
    length: Option<usize>,
) -> (row: LoggedRequest)
    ensures
        row@ == captured(
            created_at,
            port,
            raw@,
            status,
            crate::text::opt_text(method),
            crate::text::opt_text(path),
            opt_nat(length),
        ),
{
    let mut id: String = String::new();
    push_numeral(&mut id, created_at as u64, 16);
    assert(id@ =~= crate::number::hex((created_at as u64) as nat));
    LoggedRequest {
        id,
        created_at,
        method: match method {
            Some(m) => m,
            None => "GET".to_owned(),
        },
        path: match path {
            Some(p) => p,
            None => "/".to_owned(),
        },
        port,
        headers: headers_only(raw),
        body: body_with_length(raw, length),
        status,
    }
}

/// What is captured of a request, with the status of its response.
pub fn capture(created_at: i64, port: u16, raw: &[u8], status: Option<u16>) -> (row: LoggedRequest)
    ensures
        row@ == captured(
            created_at,
            port,
            raw@,
            status,
            crate::http::method_of(raw@),
            crate::http::path_of(raw@),
            crate::http::length_of(raw@),
        ),
{
    capture_parts(
        created_at,
        port,
        raw,
        status,
        request_method(raw),
        request_path(raw),
        content_length(raw),
    )
}

/// The ids that fall out of the log, of all ids from the newest to the oldest.
pub open spec fn outdated(newest_first: Seq<Seq<char>>) -> Seq<Seq<char>> {
    if newest_first.len() > MAX_ROWS {
        newest_first.skip(MAX_ROWS as int)
    } else {
        Seq::empty()
    }
}

/// The log keeps its newest requests, as many as it has room for, and all of
/// them while there is room.
pub proof fn law_log_keeps_the_newest(newest_first: Seq<Seq<char>>)
    ensures
        ({
            let kept = newest_first.len() - outdated(newest_first).len();
            &&& 0 <= kept <= MAX_ROWS
            &&& newest_first.take(kept) + outdated(newest_first) == newest_first
            &&& newest_first.len() <= MAX_ROWS ==> kept == newest_first.len()
            &&& newest_first.len() > MAX_ROWS ==> kept == MAX_ROWS
        }),
{
    let kept = newest_first.len() - outdated(newest_first).len();
    assert(newest_first.take(kept) + outdated(newest_first) =~= newest_first);
}

/// The ids that fall out of the log, of all ids from the newest to the oldest.
pub fn expired(newest_first: &Vec<String>) -> (out: Vec<String>)
    ensures
        crate::text::strings(out@) == outdated(crate::text::strings(newest_first@)),
{
    let ghost views = crate::text::strings(newest_first@);
    let mut out: Vec<String> = Vec::new();
    let mut i: usize = MAX_ROWS;
    assert(crate::text::strings(out@) =~= Seq::empty());
    if newest_first.len() > MAX_ROWS {
        assert(views.subrange(MAX_ROWS as int, MAX_ROWS as int) =~= Seq::empty());
        while i < newest_first.len()
            invariant
                MAX_ROWS <= i <= newest_first@.len(),
                views == crate::text::strings(newest_first@),
                crate::text::strings(out@) == views.subrange(MAX_ROWS as int, i as int),
            decreases newest_first@.len() - i,
        {
            let ghost before = out@;
            out.push(newest_first[i].clone());
            assert(crate::text::strings(out@) =~= crate::text::strings(before).push(
                newest_first@[i as int]@,
            ));
            assert(views.subrange(MAX_ROWS as int, i + 1) =~= views.subrange(
                MAX_ROWS as int,
                i as int,
            ).push(views[i as int]));
            i = i + 1;
        }
        assert(views.subrange(MAX_ROWS as int, i as int) =~= views.skip(MAX_ROWS as int));
    }
    out
}

/// Views of captured requests.
pub open spec fn row_views(rows: Seq<LoggedRequest>) -> Seq<LoggedView> {
    rows.map_values(|r: LoggedRequest| r@)
}

/// The list with a new capture at its front, and no longer than is shown.
pub open spec fn with_newest(shown: Seq<LoggedView>, row: LoggedView) -> Seq<LoggedView> {
    let all = seq![row] + shown;
    if all.len() > MAX_SHOWN {
        all.take(MAX_SHOWN as int)
    } else {
        all
    }
}

/// Put a new capture at the front of the list that is shown.
pub fn show_newest(shown: &mut Vec<LoggedRequest>, row: LoggedRequest)
    ensures
        row_views(final(shown)@) == with_newest(row_views(old(shown)@), row@),
{
    let ghost view = row@;
    let ghost before = row_views(shown@);
    shown.insert(0, row);
    assert(row_views(shown@) =~= seq![view] + before);
    if shown.len() > MAX_SHOWN {
        shown.truncate(MAX_SHOWN);
        assert(row_views(shown@) =~= (seq![view] + before).take(MAX_SHOWN as int));
    }
}

/// The line that shows a capture.
pub open spec fn row_text(row: LoggedView) -> Seq<char> {
    row.id + "  "@ + row.method + " "@ + row.path + "  :"@ + crate::number::decimal(
        row.port as nat,
    ) + "  "@ + (match row.status {
        Some(s) => crate::number::decimal(s as nat),
        None => "-"@,
    })
}

/// The line that shows a capture.
pub fn row_line(row: &LoggedRequest) -> (out: String)
    ensures
        out@ == row_text(row@),
{
    let mut out: String = String::new();
    out.append(row.id.as_str());
    out.append("  ");
    out.append(row.method.as_str());
    out.append(" ");
    out.append(row.path.as_str());
    out.append("  :");
    push_decimal(&mut out, row.port as u64);
    out.append("  ");
    match row.status {
        Some(s) => push_decimal(&mut out, s as u64),
        None => out.append("-"),
    }
    assert(out@ =~= row_text(row@));
    out
}

/// The list that is shown never outgrows its size, begins with the newest
/// capture and goes on with those before it.
pub proof fn law_newest_is_shown_first(shown: Seq<LoggedView>, row: LoggedView)
    ensures
        with_newest(shown, row).len() <= MAX_SHOWN,
        with_newest(shown, row)[0] == row,
        forall|i: int|
            0 < i < with_newest(shown, row).len() ==> #[trigger] with_newest(shown, row)[i]
                == shown[i - 1],
        shown.len() < MAX_SHOWN ==> with_newest(shown, row).len() == shown.len() + 1,
{
}

/// A request with a blank line and a right length is captured whole: its head
/// up to that line and every byte behind it.
pub proof fn law_capture_keeps_the_body(
    created_at: i64,
    port: u16,
    head: Seq<u8>,
    body: Seq<u8>,
    status: Option<u16>,
    method: Option<Seq<char>>,
    path: Option<Seq<char>>,
)
    requires
        crate::search::find(head + crate::http::crlf_end(), crate::http::crlf_end()) == Some(
            head.len() as int,
        ),
    ensures
        ({
            let raw = head + crate::http::crlf_end() + body;
            let row = captured(
                created_at,
                port,
                raw,
                status,
                method,
                path,
                Some(body.len()),
            );
            row.body == body && row.headers == crate::text::shown_text(head)
        }),
{
    let end = crate::http::crlf_end();
    crate::search::lemma_find_append(head + end, body, end);
    let raw = head + end + body;
    assert(raw.take(head.len() as int) =~= head);
    assert(raw.skip(head.len() as int + 4) =~= body);
}

/// What a capture holds: the time, in hexadecimal digits as its id; the method and
/// the path, GET and `/` where the head says none; the port and the status; the
/// head up to the blank line; and of what stands behind that as much as the length
/// says. Without a blank line all is head.
pub proof fn law_what_is_captured(
    created_at: i64,
    port: u16,
    raw: Seq<u8>,
    status: Option<u16>,
    method: Seq<char>,
    path: Seq<char>,
    length: Option<nat>,
    blank: int,
)
    ensures
        ({
            let end = seq![13u8, 10u8, 13u8, 10u8];
            let row = captured(created_at, port, raw, status, Some(method), Some(path), length);
            &&& row.method == method
            &&& row.path == path
            &&& row.created_at == created_at
            &&& row.port == port
            &&& row.status == status
            &&& created_at >= 0 ==> row.id == crate::number::hex(created_at as nat)
            &&& captured(created_at, port, raw, status, None, None, length) == (LoggedView {
                method: "GET"@,
                path: "/"@,
                ..row
            })
            &&& (forall|j: int|
                !#[trigger] crate::search::occurs(raw, end, j))
                ==> row.headers == crate::text::shown_text(raw) && row.body.len() == 0
            &&& crate::search::occurs(raw, end, blank) && (forall|j: int|
                0 <= j < blank ==> !#[trigger] crate::search::occurs(raw, end, j)) ==> {
                &&& row.headers == crate::text::shown_text(raw.take(blank))
                &&& row.body.is_prefix_of(raw.skip(blank + 4))
                &&& row.body.len() == (match length {
                    Some(n) => if n < raw.len() - blank - 4 {
                        n as int
                    } else {
                        raw.len() - blank - 4
                    },
                    None => raw.len() - blank - 4,
                })
            }
        }),
{
    let end = seq![13u8, 10u8, 13u8, 10u8];
    assert(end =~= crate::http::crlf_end());
    crate::search::lemma_find(raw, end);
    if crate::search::occurs(raw, end, blank) && (forall|j: int|
        0 <= j < blank ==> !#[trigger] crate::search::occurs(raw, end, j)) {
        crate::search::lemma_find_is(raw, end, blank);
        let row = captured(created_at, port, raw, status, Some(method), Some(path), length);
        let rest = raw.skip(blank + 4);
        assert(row.body =~= rest.subrange(0, row.body.len() as int));
    }
}

/// The log has room for 500 requests and the list that is shown for 50: what came
/// before those goes.
pub proof fn law_how_many_are_kept(
    newest_first: Seq<Seq<char>>,
    shown: Seq<LoggedView>,
    row: LoggedView,
)
    ensures
        newest_first.len() <= 500 ==> outdated(newest_first).len() == 0,
        newest_first.len() > 500 ==> outdated(newest_first) == newest_first.skip(500),
        shown.len() < 50 ==> with_newest(shown, row) == seq![row] + shown,
        shown.len() >= 50 ==> with_newest(shown, row) == seq![row] + shown.take(49),
{
    if shown.len() >= 50 {
        assert(with_newest(shown, row) =~= seq![row] + shown.take(49));
    }
}

/// A capture is shown by its id, method, path, port and status, a dash where there
/// is none.
pub proof fn law_shown_captures(row: LoggedView, status: u16)
    ensures
        ({
            let front = row.id + "  "@ + row.method + " "@ + row.path + "  :"@
                + crate::number::decimal(row.port as nat);
            &&& row_text(LoggedView { status: Some(status), ..row }) == front + "  "@
                + crate::number::decimal(status as nat)
            &&& row_text(LoggedView { status: None, ..row }) == front + "  -"@
        }),
{
    reveal_strlit("  ");
    reveal_strlit("-");
    reveal_strlit("  -");
    let front = row.id + "  "@ + row.method + " "@ + row.path + "  :"@ + crate::number::decimal(
        row.port as nat,
    );
    assert(front + "  "@ + "-"@ =~= front + "  -"@);
}

/// A capture is made of what the request says of itself, with the time, the port and
/// the status that it is given.
pub proof fn law_captures(
    created_at: i64,
    port: u16,
    raw: &[u8],
    status: Option<u16>,
    row: LoggedRequest,
    body: Vec<u8>,
    head: String,
)
    requires
        call_ensures(capture, (created_at, port, raw, status), row),
        call_ensures(body_of, (raw,), body),
        call_ensures(headers_only, (raw,), head),
    ensures
        row.created_at == created_at,
        row.port == port,
        row.status == status,
        crate::http::method_of(raw@) matches Some(m) ==> row.method@ == m,
        crate::http::method_of(raw@) is None ==> row.method@ == "GET"@,
        crate::http::path_of(raw@) matches Some(p) ==> row.path@ == p,
        crate::http::path_of(raw@) is None ==> row.path@ == "/"@,
        row.headers@ == head@,
        row.body@ == body@,
        body@ == captured(
            created_at,
            port,
            raw@,
            status,
            None,
            None,
            crate::http::length_of(raw@),
        ).body,
{
}

} // verus!
