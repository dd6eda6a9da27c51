//! HTTP/1.1 heads: whom a request is for, and what its headers say.
use vstd::prelude::*;
use vstd::slice::slice_subrange;
use vstd::string::*;

use crate::number::{parse_unsigned, push_decimal};
use crate::search::{chars_end_with, find_bytes, find_chars};
use crate::text::{
    before_char, bytes_of, chars_of, find_char, push_chars, same_str_ignoring_case, split_once_char,
    split_pieces, str_is_empty, string_of, to_lower, trim_range, trimmed, trimmed_start_char, utf8_lossy,
    utf8_text,
};

verus! {

/// Headers beyond this number make a head unreadable.
pub const MAX_HEADERS: usize = 64;

/// Header names and raw values, in order.
pub type HeaderViews = Seq<(Seq<char>, Seq<u8>)>;

/// What `httparse` reads of a request head.
pub struct RequestHead {
    pub method: Option<String>,
    pub path: Option<String>,
    pub headers: Vec<(String, Vec<u8>)>,
}

/// What `httparse` reads of a response head.
pub struct ResponseHead {
    pub code: Option<u16>,
    pub headers: Vec<(String, Vec<u8>)>,
}

pub open spec fn header_views(headers: Seq<(String, Vec<u8>)>) -> HeaderViews {
    headers.map_values(|h: (String, Vec<u8>)| (h.0@, h.1@))
}

/// Nothing of a request head was read: its headers have no names.
pub open spec fn is_blank(head: RequestHead) -> bool {
    &&& head.method is None
    &&& head.path is None
    &&& forall|i: int| 0 <= i < head.headers@.len() ==> (#[trigger] head.headers@[i]).0@.len() == 0
}

/// What `httparse::Request::parse` leaves in a request that was made with room
/// for `limit` headers: method, path and headers, as far as the bytes got it,
/// or `None` where it fails. An incomplete head is no failure; it leaves the
/// headers that it did not fill empty.
pub uninterp spec fn httparse_request(head: Seq<u8>, limit: nat) -> Option<
    (Option<Seq<char>>, Option<Seq<char>>, Seq<(Seq<char>, Seq<u8>)>),
>;

/// What `httparse::Response::parse` leaves in a response that was made with
/// room for `limit` headers: status code and headers, or `None` where it fails.
pub uninterp spec fn httparse_response(head: Seq<u8>, limit: nat) -> Option<
    (Option<u16>, Seq<(Seq<char>, Seq<u8>)>),
>;

/// The lines of a head, up to its first CR LF CR LF.
pub open spec fn byte_lines(head: Seq<u8>) -> Seq<Seq<u8>> {
    match crate::search::find(head, crlf_end()) {
        Some(end) => crate::text::pieces(head.take(end), crlf()),
        None => Seq::empty(),
    }
}

/// A head that ends in CR LF CR LF, with no line break in front and no line that
/// ends in LF alone.
pub open spec fn is_clean(head: Seq<u8>) -> bool {
    &&& crate::search::find(head, crlf_end()) is Some
    &&& head[0] != 13 && head[0] != 10
    &&& forall|i: int|
        0 <= i < byte_lines(head).len() ==> !(#[trigger] byte_lines(head)[i]).contains(10u8)
}

/// What the lines of a request head say, if they are a request line and no more
/// than `limit` header lines.
pub open spec fn said_request(head: Seq<u8>, limit: nat) -> Option<
    (Option<Seq<char>>, Option<Seq<char>>, HeaderViews),
> {
    match (
        crate::lines::request_on(byte_lines(head)[0]),
        crate::lines::headers_on(byte_lines(head).drop_first()),
    ) {
        (Some((method, path)), Some(headers)) => if headers.len() <= limit {
            Some((Some(method), Some(path), headers))
        } else {
            None
        },
        _ => None,
    }
}

/// What the lines of a response head say, if they are a status line and no more
/// than `limit` header lines.
pub open spec fn said_response(head: Seq<u8>, limit: nat) -> Option<(Option<u16>, HeaderViews)> {
    match (
        crate::lines::status_on(byte_lines(head)[0]),
        crate::lines::headers_on(byte_lines(head).drop_first()),
    ) {
        (Some(code), Some(headers)) => if headers.len() <= limit {
            Some((Some(code), headers))
        } else {
            None
        },
        _ => None,
    }
}

/// The bytes that decide what is read of a head: those up to the first
/// CR LF CR LF, where no line break stands in front.
pub open spec fn cut_head(head: Seq<u8>) -> Seq<u8> {
    match crate::search::find(head, crlf_end()) {
        Some(end) => if head[0] != 13 && head[0] != 10 {
            head.take(end + 4)
        } else {
            head
        },
        None => head,
    }
}

/// What is read of a request head: what its lines say where it is clean, and what
/// `httparse` makes of any other.
pub open spec fn request_parts(head: Seq<u8>, limit: nat) -> Option<
    (Option<Seq<char>>, Option<Seq<char>>, HeaderViews),
> {
    if is_clean(head) {
        said_request(head, limit)
    } else {
        httparse_request(cut_head(head), limit)
    }
}

/// What is read of a response head: what its lines say where it is clean, and
/// what `httparse` makes of any other.
pub open spec fn response_parts(head: Seq<u8>, limit: nat) -> Option<(Option<u16>, HeaderViews)> {
    if is_clean(head) {
        said_response(head, limit)
    } else {
        httparse_response(cut_head(head), limit)
    }
}

/// A request head that was read holds these parts; `None` stands for failure.
pub open spec fn holds_request(
    res: Option<RequestHead>,
    parts: Option<(Option<Seq<char>>, Option<Seq<char>>, HeaderViews)>,
) -> bool {
    match res {
        Some(r) => parts == Some(
            (
                crate::text::opt_text(r.method),
                crate::text::opt_text(r.path),
                header_views(r.headers@),
            ),
        ),
        None => parts is None,
    }
}

/// A response head that was read holds these parts; `None` stands for failure.
pub open spec fn holds_response(
    res: Option<ResponseHead>,
    parts: Option<(Option<u16>, HeaderViews)>,
) -> bool {
    match res {
        Some(r) => parts == Some((r.code, header_views(r.headers@))),
        None => parts is None,
    }
}

/// `httparse::Request::parse` on `head` with room for `limit` headers. Its
/// result is a function of the two. Where every line up to the first
/// CR LF CR LF ends in CR LF and no line break stands in front, the head is read
/// as its lines say, the spaces and tabs around a value aside, and it fails
/// where the first is no request line, another is no header line, or there are
/// too many. Where no line break stands in front, nothing is read behind the
/// first CR LF CR LF. No bytes are an incomplete head, no failure, and fill
/// nothing.
#[verifier::external_body]
fn parse_request(head: &[u8], limit: usize) -> (res: Option<RequestHead>)
    ensures
        is_clean(head@) ==> holds_request(res, said_request(head@, limit as nat)),
        !is_clean(head@) ==> holds_request(res, httparse_request(head@, limit as nat)),
        !is_clean(head@) ==> holds_request(res, httparse_request(cut_head(head@), limit as nat)),
        head@.len() == 0 ==> res is Some && is_blank(res->Some_0),
{
    let mut headers = vec![httparse::EMPTY_HEADER; limit];
    let mut req = httparse::Request::new(&mut headers);
    req.parse(head).ok()?;
    Some(
        RequestHead {
            method: req.method.map(str::to_string),
            path: req.path.map(str::to_string),
            headers: req.headers.iter().map(|h| (h.name.to_string(), h.value.to_vec())).collect(),
        },
    )
}

/// `httparse::Response::parse` on `head` with room for `limit` headers. Its
/// result is a function of the two. Where every line up to the first
/// CR LF CR LF ends in CR LF and no line break stands in front, the head is read
/// as its lines say, the spaces and tabs around a value aside, and it fails
/// where the first is no status line, another is no header line, or there are
/// too many. Where no line break stands in front, nothing is read behind the
/// first CR LF CR LF.
#[verifier::external_body]
fn parse_response(head: &[u8], limit: usize) -> (res: Option<ResponseHead>)
    ensures
        is_clean(head@) ==> holds_response(res, said_response(head@, limit as nat)),
        !is_clean(head@) ==> holds_response(res, httparse_response(head@, limit as nat)),
        !is_clean(head@) ==> holds_response(res, httparse_response(cut_head(head@), limit as nat)),
{
    let mut headers = vec![httparse::EMPTY_HEADER; limit];
    let mut resp = httparse::Response::new(&mut headers);
    resp.parse(head).ok()?;
    Some(
        ResponseHead {
            code: resp.code,
            headers: resp.headers.iter().map(|h| (h.name.to_string(), h.value.to_vec())).collect(),
        },
    )
}

// ---------------------------------------------------------------------------
// Hosts

/// The hostname of `foo.example:port`.
pub open spec fn hostname(host: Seq<char>) -> Seq<char> {
    crate::text::trim(crate::text::before(host, ':'))
}

/// The label in front of `suffix`, where `host` is exactly one label and that
/// suffix.
pub open spec fn label_before(host: Seq<char>, suffix: Seq<char>) -> Option<Seq<char>> {
    if suffix.is_suffix_of(host) {
        let sub = host.take(host.len() - suffix.len());
        if sub.len() > 0 && crate::search::find(sub, seq!['.']) is None {
            Some(sub)
        } else {
            None
        }
    } else {
        None
    }
}

/// The suffix that a configured apex domain stands for; blank ones stand for none.
pub open spec fn domain_suffix(domain: Option<Seq<char>>) -> Option<Seq<char>> {
    match domain {
        Some(d) => {
            let t = crate::text::trim(d);
            if t.len() == 0 {
                None
            } else {
                Some(seq!['.'] + crate::text::trim_start_char(t, '.'))
            }
        },
        None => None,
    }
}

/// The tunnel id that a host name carries: the label in front of the apex
/// domain, or else of `.vyse.dev`, `.localhost` or `.vyse.local`.
pub open spec fn tunnel_id_of_host(host: Seq<char>, domain: Option<Seq<char>>) -> Option<Seq<char>> {
    let h = crate::text::lower(hostname(host));
    let own = match domain_suffix(domain) {
        Some(suffix) => label_before(h, suffix),
        None => None,
    };
    if own is Some {
        own
    } else if label_before(h, ".vyse.dev"@) is Some {
        label_before(h, ".vyse.dev"@)
    } else if label_before(h, ".localhost"@) is Some {
        label_before(h, ".localhost"@)
    } else {
        label_before(h, ".vyse.local"@)
    }
}

/// View of an optional string slice.
pub open spec fn opt_str(s: Option<&str>) -> Option<Seq<char>> {
    match s {
        Some(x) => Some(x@),
        None => None,
    }
}

/// Pull a hostname from `foo.example:port`.
pub fn hostname_only(host: &str) -> (res: &str)
    ensures
        res@ == hostname(host@),
{
    let chars: Vec<char> = chars_of(host);
    let name = before_char(chars.as_slice(), ':');
    let (i, j): (usize, usize) = trim_range(name);
    proof {
        crate::text::lemma_find_char(host@, ':');
        assert(host@.subrange(i as int, j as int) =~= name@.subrange(i as int, j as int));
    }
    host.substring_char(i, j)
}

fn label_in_front(host: &[char], suffix: &[char]) -> (res: Option<String>)
    ensures
        crate::text::opt_text(res) == label_before(host@, suffix@),
{
    if !chars_end_with(host, suffix) {
        return None;
    }
    let sub = slice_subrange(host, 0, host.len() - suffix.len());
    assert(sub@ =~= host@.take(host@.len() - suffix@.len()));
    if sub.len() == 0 {
        return None;
    }
    match find_char(sub, '.') {
        Some(_) => None,
        None => Some(string_of(sub)),
    }
}

/// Map a public Host header onto a tunnel id.
///
/// Tries `.vyse.dev`, `.localhost`, and `.vyse.local`.
pub fn extract_tunnel_id(host: &str) -> (res: Option<String>)
    ensures
        crate::text::opt_text(res) == tunnel_id_of_host(host@, None),
{
    extract_tunnel_id_for_domain(host, None)
}

/// Map a public Host header onto a tunnel id, trying the apex domain first.
pub fn extract_tunnel_id_for_domain(host: &str, domain: Option<&str>) -> (res: Option<String>)
    ensures
        crate::text::opt_text(res) == tunnel_id_of_host(host@, opt_str(domain)),
{
    let h: Vec<char> = to_lower(chars_of(hostname_only(host)).as_slice());
    if let Some(d) = domain {
        let d_chars: Vec<char> = chars_of(d);
        let t = trimmed(d_chars.as_slice());
        if t.len() > 0 {
            let mut suffix: Vec<char> = Vec::new();
            suffix.push('.');
            suffix.extend_from_slice(trimmed_start_char(t, '.'));
            assert(suffix@ =~= seq!['.'] + crate::text::trim_start_char(t@, '.'));
            let own = label_in_front(h.as_slice(), suffix.as_slice());
            if own.is_some() {
                return own;
            }
        }
    }
    let dev = label_in_front(h.as_slice(), chars_of(".vyse.dev").as_slice());
    if dev.is_some() {
        return dev;
    }
    let localhost = label_in_front(h.as_slice(), chars_of(".localhost").as_slice());
    if localhost.is_some() {
        return localhost;
    }
    label_in_front(h.as_slice(), chars_of(".vyse.local").as_slice())
}

/// A host made of one label and the apex domain leads to the tunnel of that
/// label, in any letter case and with any port behind it.
pub proof fn law_subdomain_host_names_its_tunnel(
    label: Seq<char>,
    domain: Seq<char>,
    port: Seq<char>,
)
    requires
        label.len() > 0,
        forall|i: int|
            0 <= i < label.len() ==> #[trigger] label[i] != '.' && label[i] != ':'
                && !crate::text::is_space(label[i]),
        domain.len() > 0,
        forall|i: int|
            0 <= i < domain.len() ==> #[trigger] domain[i] != ':' && !crate::text::is_space(
                domain[i],
            ),
        domain[0] != '.',
        crate::text::lower(domain) == domain,
    ensures
        tunnel_id_of_host(label + seq!['.'] + domain, Some(domain)) == Some(
            crate::text::lower(label),
        ),
        tunnel_id_of_host(label + seq!['.'] + domain + seq![':'] + port, Some(domain)) == Some(
            crate::text::lower(label),
        ),
{
    let name = label + seq!['.'] + domain;
    assert forall|i: int| 0 <= i < name.len() implies name[i] != ':' && !crate::text::is_space(
        name[i],
    ) by {
        if i < label.len() {
            assert(name[i] == label[i]);
        } else if i > label.len() {
            assert(name[i] == domain[i - label.len() - 1]);
        }
    }
    crate::text::lemma_find_char_none(name, ':');
    crate::text::lemma_trim_none(name);
    assert(hostname(name) == name);
    let full = name + seq![':'] + port;
    assert forall|i: int| 0 <= i < name.len() implies full[i] != ':' by {
        assert(full[i] == name[i]);
    }
    assert(full[name.len() as int] == ':');
    crate::text::lemma_find_char_is(full, ':', name.len() as int);
    assert(full.take(name.len() as int) =~= name);
    assert(hostname(full) == name);
    crate::text::lemma_trim_none(domain);
    let suffix = seq!['.'] + domain;
    assert(domain_suffix(Some(domain)) == Some(suffix));
    let h = crate::text::lower(name);
    let sub = crate::text::lower(label);
    assert(h =~= sub + suffix) by {
        assert forall|i: int| 0 <= i < h.len() implies h[i] == (sub + suffix)[i] by {
            if i > label.len() {
                assert(crate::text::lower(domain)[i - label.len() - 1] == domain[i - label.len()
                    - 1]);
            }
        }
    }
    assert(h.subrange(h.len() - suffix.len(), h.len() as int) =~= suffix);
    assert(suffix.is_suffix_of(h));
    assert(h.take(h.len() - suffix.len()) =~= sub);
    assert forall|i: int| 0 <= i < sub.len() implies sub[i] != '.' by {
        assert(label[i] != '.');
    }
    crate::text::lemma_find_char_none(sub, '.');
}

// ---------------------------------------------------------------------------
// Headers

/// The value of the first header called `name` whose value is UTF-8, trimmed.
pub open spec fn lookup(headers: HeaderViews, name: Seq<char>) -> Option<Seq<char>>
    decreases headers.len(),
{
    if headers.len() == 0 {
        None
    } else if crate::text::same_ignoring_case(headers[0].0, name) && vstd::utf8::valid_utf8(
        headers[0].1,
    ) {
        Some(crate::text::trim(vstd::utf8::decode_utf8(headers[0].1)))
    } else {
        lookup(headers.drop_first(), name)
    }
}

/// What the `X-Vyse-Tunnel` headers decide: `None` where they decide nothing.
/// The first that is not blank wins; one that is no UTF-8 leaves the request
/// without a tunnel.
pub open spec fn tunnel_override(headers: HeaderViews) -> Option<Option<Seq<char>>>
    decreases headers.len(),
{
    if headers.len() == 0 {
        None
    } else if crate::text::same_ignoring_case(headers[0].0, "x-vyse-tunnel"@) {
        if !vstd::utf8::valid_utf8(headers[0].1) {
            Some(None)
        } else {
            let value = crate::text::trim(vstd::utf8::decode_utf8(headers[0].1));
            if value.len() > 0 {
                Some(Some(crate::text::lower(value)))
            } else {
                tunnel_override(headers.drop_first())
            }
        }
    } else {
        tunnel_override(headers.drop_first())
    }
}

/// What the first `Host` header says.
pub open spec fn tunnel_of_host_header(
    headers: HeaderViews,
    domain: Option<Seq<char>>,
) -> Option<Seq<char>>
    decreases headers.len(),
{
    if headers.len() == 0 {
        None
    } else if crate::text::same_ignoring_case(headers[0].0, "host"@) {
        if vstd::utf8::valid_utf8(headers[0].1) {
            tunnel_id_of_host(vstd::utf8::decode_utf8(headers[0].1), domain)
        } else {
            None
        }
    } else {
        tunnel_of_host_header(headers.drop_first(), domain)
    }
}

/// The tunnel that request headers are for: `X-Vyse-Tunnel` wins over `Host`.
pub open spec fn tunnel_of_headers(
    headers: HeaderViews,
    domain: Option<Seq<char>>,
) -> Option<Seq<char>> {
    match tunnel_override(headers) {
        Some(decided) => decided,
        None => tunnel_of_host_header(headers, domain),
    }
}

/// The tunnel that a buffered request head is for.
pub open spec fn tunnel_of_head(head: Seq<u8>, domain: Option<Seq<char>>) -> Option<Seq<char>> {
    match request_parts(head, MAX_HEADERS as nat) {
        Some((method, path, headers)) => tunnel_of_headers(headers, domain),
        None => None,
    }
}

/// The value of header `name` in a head that is read as a request, or else as a
/// response.
pub open spec fn header_of(head: Seq<u8>, name: Seq<char>) -> Option<Seq<char>> {
    let from_request = match request_parts(head, MAX_HEADERS as nat) {
        Some((method, path, headers)) => lookup(headers, name),
        None => None,
    };
    if from_request is Some {
        from_request
    } else {
        match response_parts(head, MAX_HEADERS as nat) {
            Some((code, headers)) => lookup(headers, name),
            None => None,
        }
    }
}

/// The length that a Content-Length header announces.
pub open spec fn length_of(head: Seq<u8>) -> Option<nat> {
    match header_of(head, "content-length"@) {
        Some(v) => crate::number::unsigned(v, 10, usize::MAX as nat),
        None => None,
    }
}

/// The head announces a chunked body.
pub open spec fn announces_chunks(head: Seq<u8>) -> bool {
    match header_of(head, "transfer-encoding"@) {
        Some(v) => crate::search::find(crate::text::lower(v), "chunked"@) is Some,
        None => false,
    }
}

/// A header that says by itself which tunnel a request is for, or that it is
/// for none.
pub open spec fn overrides(header: (Seq<char>, Seq<u8>)) -> bool {
    crate::text::same_ignoring_case(header.0, "x-vyse-tunnel"@) && (!vstd::utf8::valid_utf8(
        header.1,
    ) || crate::text::trim(vstd::utf8::decode_utf8(header.1)).len() > 0)
}

proof fn lemma_override(headers: HeaderViews, k: int)
    requires
        0 <= k < headers.len(),
        crate::text::same_ignoring_case(headers[k].0, "x-vyse-tunnel"@),
        vstd::utf8::valid_utf8(headers[k].1),
        crate::text::trim(vstd::utf8::decode_utf8(headers[k].1)).len() > 0,
        forall|j: int| 0 <= j < k ==> !overrides(#[trigger] headers[j]),
    ensures
        tunnel_override(headers) == Some(
            Some(crate::text::lower(crate::text::trim(vstd::utf8::decode_utf8(headers[k].1)))),
        ),
    decreases k,
{
    if k > 0 {
        let rest = headers.drop_first();
        assert(rest[k - 1] == headers[k]);
        assert forall|j: int| 0 <= j < k - 1 implies !overrides(#[trigger] rest[j]) by {
            assert(rest[j] == headers[j + 1]);
        }
        lemma_override(rest, k - 1);
        assert(!overrides(headers[0]));
    }
}

/// A request with an `X-Vyse-Tunnel` header that is not blank goes to the tunnel
/// that the first such header names, whatever its `Host` is. (One before it that
/// is no UTF-8 would leave the request without a tunnel.)
pub proof fn law_override_header_wins(headers: HeaderViews, k: int, domain: Option<Seq<char>>)
    requires
        0 <= k < headers.len(),
        crate::text::same_ignoring_case(headers[k].0, "x-vyse-tunnel"@),
        vstd::utf8::valid_utf8(headers[k].1),
        crate::text::trim(vstd::utf8::decode_utf8(headers[k].1)).len() > 0,
        forall|j: int| 0 <= j < k ==> !overrides(#[trigger] headers[j]),
    ensures
        tunnel_of_headers(headers, domain) == Some(
            crate::text::lower(crate::text::trim(vstd::utf8::decode_utf8(headers[k].1))),
        ),
{
    lemma_override(headers, k);
}

proof fn lemma_no_override(headers: HeaderViews)
    requires
        forall|j: int|
            0 <= j < headers.len() ==> !crate::text::same_ignoring_case(
                (#[trigger] headers[j]).0,
                "x-vyse-tunnel"@,
            ),
    ensures
        tunnel_override(headers) is None,
    decreases headers.len(),
{
    if headers.len() > 0 {
        let rest = headers.drop_first();
        assert forall|j: int| 0 <= j < rest.len() implies !crate::text::same_ignoring_case(
            (#[trigger] rest[j]).0,
            "x-vyse-tunnel"@,
        ) by {
            assert(rest[j] == headers[j + 1]);
        }
        lemma_no_override(rest);
        assert(!crate::text::same_ignoring_case(headers[0].0, "x-vyse-tunnel"@));
    }
}

proof fn lemma_first_host(headers: HeaderViews, k: int, domain: Option<Seq<char>>)
    requires
        0 <= k < headers.len(),
        crate::text::same_ignoring_case(headers[k].0, "host"@),
        vstd::utf8::valid_utf8(headers[k].1),
        forall|j: int|
            0 <= j < k ==> !crate::text::same_ignoring_case((#[trigger] headers[j]).0, "host"@),
    ensures
        tunnel_of_host_header(headers, domain) == tunnel_id_of_host(
            vstd::utf8::decode_utf8(headers[k].1),
            domain,
        ),
    decreases k,
{
    if k > 0 {
        let rest = headers.drop_first();
        assert(rest[k - 1] == headers[k]);
        assert forall|j: int| 0 <= j < k - 1 implies !crate::text::same_ignoring_case(
            (#[trigger] rest[j]).0,
            "host"@,
        ) by {
            assert(rest[j] == headers[j + 1]);
        }
        lemma_first_host(rest, k - 1, domain);
        assert(!crate::text::same_ignoring_case(headers[0].0, "host"@));
    }
}

/// A request without an `X-Vyse-Tunnel` header goes where its first `Host`
/// header says.
pub proof fn law_first_host_header_decides(
    headers: HeaderViews,
    k: int,
    domain: Option<Seq<char>>,
)
    requires
        0 <= k < headers.len(),
        crate::text::same_ignoring_case(headers[k].0, "host"@),
        vstd::utf8::valid_utf8(headers[k].1),
        forall|j: int|
            0 <= j < k ==> !crate::text::same_ignoring_case((#[trigger] headers[j]).0, "host"@),
        forall|j: int|
            0 <= j < headers.len() ==> !crate::text::same_ignoring_case(
                (#[trigger] headers[j]).0,
                "x-vyse-tunnel"@,
            ),
    ensures
        tunnel_of_headers(headers, domain) == tunnel_id_of_host(
            vstd::utf8::decode_utf8(headers[k].1),
            domain,
        ),
{
    lemma_no_override(headers);
    lemma_first_host(headers, k, domain);
}

/// The value of the first header called `name` whose value is UTF-8, trimmed.
pub fn find_header(headers: &Vec<(String, Vec<u8>)>, name: &str) -> (res: Option<String>)
    ensures
        crate::text::opt_text(res) == lookup(header_views(headers@), name@),
{
    let ghost views = header_views(headers@);
    let mut i: usize = 0;
    assert(views.skip(0) =~= views);
    while i < headers.len()
        invariant
            i <= headers@.len(),
            views == header_views(headers@),
            lookup(views.skip(i as int), name@) == lookup(views, name@),
        decreases headers@.len() - i,
    {
        assert(views.skip(i as int)[0] == (headers@[i as int].0@, headers@[i as int].1@));
        assert(views.skip(i as int).drop_first() =~= views.skip(i + 1));
        if same_str_ignoring_case(headers[i].0.as_str(), name) {
            if let Some(value) = utf8_text(headers[i].1.as_slice()) {
                return Some(string_of(trimmed(chars_of(value.as_str()).as_slice())));
            }
        }
        i = i + 1;
    }
    None
}

/// The tunnel that request headers are for: `X-Vyse-Tunnel` wins over `Host`.
pub fn tunnel_id_from_headers(headers: &Vec<(String, Vec<u8>)>, domain: Option<&str>) -> (res:
    Option<String>)
    ensures
        crate::text::opt_text(res) == tunnel_of_headers(header_views(headers@), opt_str(domain)),
{
    let ghost views = header_views(headers@);
    let mut i: usize = 0;
    assert(views.skip(0) =~= views);
    while i < headers.len()
        invariant
            i <= headers@.len(),
            views == header_views(headers@),
            tunnel_override(views.skip(i as int)) == tunnel_override(views),
        decreases headers@.len() - i,
    {
        assert(views.skip(i as int)[0] == (headers@[i as int].0@, headers@[i as int].1@));
        assert(views.skip(i as int).drop_first() =~= views.skip(i + 1));
        if same_str_ignoring_case(headers[i].0.as_str(), "x-vyse-tunnel") {
            match utf8_text(headers[i].1.as_slice()) {
                None => {
                    return None;
                },
                Some(value) => {
                    let chars: Vec<char> = chars_of(value.as_str());
                    let t = trimmed(chars.as_slice());
                    if t.len() > 0 {
                        return Some(string_of(to_lower(t).as_slice()));
                    }
                },
            }
        }
        i = i + 1;
    }
    let mut k: usize = 0;
    while k < headers.len()
        invariant
            k <= headers@.len(),
            views == header_views(headers@),
            tunnel_override(views) is None,
            tunnel_of_host_header(views.skip(k as int), opt_str(domain)) == tunnel_of_host_header(
                views,
                opt_str(domain),
            ),
        decreases headers@.len() - k,
    {
        assert(views.skip(k as int)[0] == (headers@[k as int].0@, headers@[k as int].1@));
        assert(views.skip(k as int).drop_first() =~= views.skip(k + 1));
        if same_str_ignoring_case(headers[k].0.as_str(), "host") {
            return match utf8_text(headers[k].1.as_slice()) {
                None => None,
                Some(value) => extract_tunnel_id_for_domain(value.as_str(), domain),
            };
        }
        k = k + 1;
    }
    None
}

/// Resolve the tunnel id from a buffered HTTP/1.1 request head.
///
/// `X-Vyse-Tunnel` wins so local testing can skip wildcard DNS:
/// `curl -H "X-Vyse-Tunnel: demo" http://127.0.0.1:8080/`
pub fn tunnel_id_from_http_head(head: &[u8]) -> (res: Option<String>)
    ensures
        crate::text::opt_text(res) == tunnel_of_head(head@, None),
{
    tunnel_id_from_http_head_in(head, None)
}

proof fn lemma_unnamed_headers(headers: HeaderViews, domain: Option<Seq<char>>)
    requires
        forall|i: int| 0 <= i < headers.len() ==> (#[trigger] headers[i]).0.len() == 0,
    ensures
        tunnel_override(headers) is None,
        tunnel_of_host_header(headers, domain) is None,
    decreases headers.len(),
{
    if headers.len() > 0 {
        reveal_strlit("x-vyse-tunnel");
        reveal_strlit("host");
        assert(crate::text::lower(headers[0].0).len() == 0);
        assert(crate::text::lower("x-vyse-tunnel"@).len() == 13);
        assert(crate::text::lower("host"@).len() == 4);
        let rest = headers.drop_first();
        assert forall|i: int| 0 <= i < rest.len() implies (#[trigger] rest[i]).0.len() == 0 by {
            assert(rest[i] == headers[i + 1]);
        }
        lemma_unnamed_headers(rest, domain);
    }
}

/// Resolve the tunnel id from a request head, trying the apex domain first. No
/// bytes name no tunnel.
pub fn tunnel_id_from_http_head_in(head: &[u8], domain: Option<&str>) -> (res: Option<String>)
    ensures
        crate::text::opt_text(res) == tunnel_of_head(head@, opt_str(domain)),
        head@.len() == 0 ==> res is None,
{
    match parse_request(head, MAX_HEADERS) {
        Some(req) => {
            proof {
                if head@.len() == 0 {
                    lemma_unnamed_headers(header_views(req.headers@), opt_str(domain));
                }
            }
            tunnel_id_from_headers(&req.headers, domain)
        },
        None => None,
    }
}

/// The request target of a head.
pub open spec fn path_of(head: Seq<u8>) -> Option<Seq<char>> {
    match request_parts(head, MAX_HEADERS as nat) {
        Some((method, path, headers)) => path,
        None => None,
    }
}

/// The method of a request head.
pub open spec fn method_of(head: Seq<u8>) -> Option<Seq<char>> {
    match request_parts(head, MAX_HEADERS as nat) {
        Some((method, path, headers)) => method,
        None => None,
    }
}

/// The status of a response head.
pub open spec fn status_of(head: Seq<u8>) -> Option<u16> {
    match response_parts(head, MAX_HEADERS as nat) {
        Some((code, headers)) => code,
        None => None,
    }
}

pub fn request_path(head: &[u8]) -> (res: Option<String>)
    ensures
        crate::text::opt_text(res) == path_of(head@),
{
    match parse_request(head, MAX_HEADERS) {
        Some(req) => req.path,
        None => None,
    }
}

pub fn request_method(head: &[u8]) -> (res: Option<String>)
    ensures
        crate::text::opt_text(res) == method_of(head@),
{
    match parse_request(head, MAX_HEADERS) {
        Some(req) => req.method,
        None => None,
    }
}

pub fn response_status(head: &[u8]) -> (res: Option<u16>)
    ensures
        res == status_of(head@),
{
    match parse_response(head, MAX_HEADERS) {
        Some(resp) => resp.code,
        None => None,
    }
}

/// The value of a header of a request head, or else of a response head.
pub fn header_value(head: &[u8], name: &str) -> (res: Option<String>)
    ensures
        crate::text::opt_text(res) == header_of(head@, name@),
{
    if let Some(req) = parse_request(head, MAX_HEADERS) {
        let found = find_header(&req.headers, name);
        if found.is_some() {
            return found;
        }
    }
    match parse_response(head, MAX_HEADERS) {
        Some(resp) => find_header(&resp.headers, name),
        None => None,
    }
}

/// What a Content-Length value announces.
pub fn content_length_from(value: Option<String>) -> (res: Option<usize>)
    ensures
        match value {
            Some(v) => match res {
                Some(n) => crate::number::unsigned(v@, 10, usize::MAX as nat) == Some(n as nat),
                None => crate::number::unsigned(v@, 10, usize::MAX as nat) is None,
            },
            None => res is None,
        },
{
    match value {
        Some(v) => match parse_unsigned(chars_of(v.as_str()).as_slice(), 10, usize::MAX as u64) {
            Some(n) => Some(n as usize),
            None => None,
        },
        None => None,
    }
}

pub fn content_length(head: &[u8]) -> (res: Option<usize>)
    ensures
        match res {
            Some(n) => length_of(head@) == Some(n as nat),
            None => length_of(head@) is None,
        },
{
    content_length_from(header_value(head, "content-length"))
}

/// A Transfer-Encoding value that speaks of chunks, in any letter case.
pub fn chunked_from(value: Option<String>) -> (res: bool)
    ensures
        res == (match value {
            Some(v) => crate::search::find(crate::text::lower(v@), "chunked"@) is Some,
            None => false,
        }),
{
    match value {
        Some(v) => find_chars(
            to_lower(chars_of(v.as_str()).as_slice()).as_slice(),
            chars_of("chunked").as_slice(),
        ).is_some(),
        None => false,
    }
}

pub fn is_chunked(head: &[u8]) -> (res: bool)
    ensures
        res == announces_chunks(head@),
{
    chunked_from(header_value(head, "transfer-encoding"))
}

// ---------------------------------------------------------------------------
// Header blocks

/// A line break of two bytes.
pub open spec fn crlf() -> Seq<u8> {
    seq![13u8, 10u8]
}

/// The end of a header block whose lines end in CR LF.
pub open spec fn crlf_end() -> Seq<u8> {
    seq![13u8, 10u8, 13u8, 10u8]
}

/// The end of a header block whose lines end in LF.
pub open spec fn lf_end() -> Seq<u8> {
    seq![10u8, 10u8]
}

/// Where the header block ends, blank line and all: at the first CR LF CR LF,
/// and where there is none, at the first LF LF.
pub open spec fn head_len(buf: Seq<u8>) -> Option<int> {
    match crate::search::find(buf, crlf_end()) {
        Some(i) => Some(i + 4),
        None => match crate::search::find(buf, lf_end()) {
            Some(i) => Some(i + 2),
            None => None,
        },
    }
}

/// The header lines that stay when the body is framed anew: every line with
/// text in it but those that frame the old body, each with its line break.
pub open spec fn kept_lines(lines: Seq<Seq<char>>, eol: Seq<char>) -> Seq<char>
    decreases lines.len(),
{
    if lines.len() == 0 {
        Seq::empty()
    } else if frames_body(lines[0]) || lines[0].len() == 0 {
        kept_lines(lines.drop_first(), eol)
    } else {
        lines[0] + eol + kept_lines(lines.drop_first(), eol)
    }
}

/// The name in front of a header line's colon; empty where there is none.
pub open spec fn line_name(line: Seq<char>) -> Seq<char> {
    match crate::text::split_once(line, ':') {
        Some((name, value)) => crate::text::trim(name),
        None => Seq::empty(),
    }
}

/// The line says how long the body is.
pub open spec fn frames_body(line: Seq<char>) -> bool {
    crate::text::same_ignoring_case(line_name(line), "transfer-encoding"@)
        || crate::text::same_ignoring_case(line_name(line), "content-length"@)
}

/// The line break that a header block ends in.
pub open spec fn eol_of(head: Seq<u8>) -> Seq<char> {
    if crate::search::find(head, crlf_end()) is Some {
        seq!['\r', '\n']
    } else {
        seq!['\n']
    }
}

/// The lines of a header block, without the blank one behind it.
pub open spec fn head_lines(head: Seq<u8>) -> Seq<Seq<char>> {
    let eol = eol_of(head);
    match head_len(head) {
        Some(end) => crate::text::pieces(
            crate::text::shown_text(head.take(end - 2 * eol.len())),
            eol,
        ),
        None => Seq::empty(),
    }
}

/// A header block whose body is announced by one Content-Length of `body_len`:
/// the first line, the lines that stay, the new length, a blank line.
pub open spec fn reframed(head: Seq<u8>, body_len: nat) -> Seq<char> {
    let eol = eol_of(head);
    let lines = head_lines(head);
    lines[0] + eol + kept_lines(lines.drop_first(), eol) + "Content-Length: "@
        + crate::number::decimal(body_len) + eol + eol
}

/// A complete header block, cut off behind its end, is complete at the same place.
pub proof fn lemma_head_alone(buf: Seq<u8>)
    requires
        head_len(buf) is Some,
    ensures
        0 <= head_len(buf)->Some_0 <= buf.len(),
        head_len(buf.take(head_len(buf)->Some_0)) == head_len(buf),
{
    let end = head_len(buf)->Some_0;
    crate::search::lemma_find(buf, crlf_end());
    crate::search::lemma_find(buf, lf_end());
    let head = buf.take(end);
    let more = buf.skip(end);
    assert(head + more =~= buf);
    assert forall|j: int| #[trigger] crate::search::occurs(head, crlf_end(), j) implies crate::search::occurs(
        buf,
        crlf_end(),
        j,
    ) by {
        crate::search::lemma_occurs_append(head, more, crlf_end(), j);
    }
    assert forall|j: int| #[trigger] crate::search::occurs(head, lf_end(), j) implies crate::search::occurs(
        buf,
        lf_end(),
        j,
    ) by {
        crate::search::lemma_occurs_append(head, more, lf_end(), j);
    }
    crate::search::lemma_find(head, crlf_end());
    match crate::search::find(buf, crlf_end()) {
        Some(i) => {
            crate::search::lemma_occurs_append(head, more, crlf_end(), i);
            crate::search::lemma_find_is(head, crlf_end(), i);
        },
        None => {
            let i = crate::search::find(buf, lf_end())->Some_0;
            crate::search::lemma_occurs_append(head, more, lf_end(), i);
            crate::search::lemma_find_none(head, crlf_end());
            crate::search::lemma_find_is(head, lf_end(), i);
        },
    }
}

/// Where the header block ends, if it is complete.
pub fn header_end(buf: &[u8]) -> (res: Option<usize>)
    ensures
        match res {
            Some(n) => head_len(buf@) == Some(n as int) && n <= buf@.len(),
            None => head_len(buf@) is None,
        },
{
    let n: usize = buf.len();
    let long: Vec<u8> = vec![13, 10, 13, 10];
    let short: Vec<u8> = vec![10, 10];
    assert(long@ =~= crlf_end());
    assert(short@ =~= lf_end());
    proof {
        crate::search::lemma_find(buf@, crlf_end());
        crate::search::lemma_find(buf@, lf_end());
    }
    match find_bytes(buf, long.as_slice()) {
        Some(i) => Some(i + 4),
        None => match find_bytes(buf, short.as_slice()) {
            Some(i) => Some(i + 2),
            None => None,
        },
    }
}

/// The header block is complete.
pub fn headers_complete(buf: &[u8]) -> (res: bool)
    ensures
        res == (head_len(buf@) is Some),
{
    header_end(buf).is_some()
}

/// Where the first CR LF stands.
pub fn find_crlf(buf: &[u8]) -> (res: Option<usize>)
    ensures
        match res {
            Some(n) => crate::search::find(buf@, crlf()) == Some(n as int) && n + 2 <= buf@.len(),
            None => crate::search::find(buf@, crlf()) is None,
        },
{
    let pat: Vec<u8> = vec![13, 10];
    assert(pat@ =~= crlf());
    proof {
        crate::search::lemma_find(buf@, crlf());
    }
    find_bytes(buf, pat.as_slice())
}

fn line_frames_body(line: &[char]) -> (res: bool)
    ensures
        res == frames_body(line@),
{
    let name: String = match split_once_char(line, ':') {
        Some((n, _)) => string_of(trimmed(n)),
        None => String::new(),
    };
    assert(name@ =~= line_name(line@));
    same_str_ignoring_case(name.as_str(), "transfer-encoding") || same_str_ignoring_case(
        name.as_str(),
        "content-length",
    )
}

/// Why a message could not be taken apart.
#[derive(Clone, Copy, Debug, PartialEq, Eq, Structural)]
pub enum HttpError {
    /// A head to frame anew has no blank line.
    IncompleteHead,
    /// A response has no blank line behind its headers.
    ResponseHeadIncomplete,
    /// A response has no status that can be read.
    StatusMissing,
}

impl HttpError {
    /// What the error says.
    pub open spec fn text(self) -> Seq<char> {
        match self {
            HttpError::IncompleteHead => "incomplete HTTP headers"@,
            HttpError::ResponseHeadIncomplete => "HTTP response headers incomplete"@,
            HttpError::StatusMissing => "HTTP response status missing"@,
        }
    }

    pub fn message(self) -> (res: String)
        ensures
            res@ == self.text(),
    {
        match self {
            HttpError::IncompleteHead => "incomplete HTTP headers".to_owned(),
            HttpError::ResponseHeadIncomplete => "HTTP response headers incomplete".to_owned(),
            HttpError::StatusMissing => "HTTP response status missing".to_owned(),
        }
    }
}

proof fn lemma_eol_of(head: Seq<u8>, end: int)
    requires
        head_len(head) == Some(end),
    ensures
        0 <= end - 2 * eol_of(head).len(),
        end <= head.len(),
{
    crate::search::lemma_find(head, crlf_end());
    crate::search::lemma_find(head, lf_end());
}

/// A head whose lines say, in place of how its body was framed, that the body
/// is `body_len` bytes long. Where the old head announced chunks and all its lines
/// end in CR LF, the new one is read to announce that length, and no chunks.
pub fn headers_with_content_length(head: &[u8], body_len: usize) -> (res: Result<
    Vec<u8>,
    HttpError,
>)
    ensures
        match res {
            Ok(out) => head_len(head@) is Some && out@ == vstd::utf8::encode_utf8(
                reframed(head@, body_len as nat),
            ),
            Err(e) => head_len(head@) is None && e == HttpError::IncompleteHead,
        },
        is_clean(head@) && announces_chunks(head@) ==> match res {
            Ok(out) => forall|body: Seq<u8>|
                body.len() == body_len ==> #[trigger] crate::framing::is_whole(out@ + body),
            Err(_) => true,
        },
{
    let end: usize = match header_end(head) {
        Some(n) => n,
        None => {
            return Err(HttpError::IncompleteHead);
        },
    };
    let long: Vec<u8> = vec![13, 10, 13, 10];
    assert(long@ =~= crlf_end());
    let mut eol: Vec<char> = Vec::new();
    if find_bytes(head, long.as_slice()).is_some() {
        eol.push('\r');
    }
    eol.push('\n');
    assert(eol@ =~= eol_of(head@));
    proof {
        lemma_eol_of(head@, end as int);
    }
    let block = slice_subrange(head, 0, end - 2 * eol.len());
    assert(block@ =~= head@.take(end - 2 * eol@.len()));
    let text: Vec<char> = chars_of(utf8_lossy(block).as_str());
    let lines: Vec<Vec<char>> = split_pieces(text.as_slice(), eol.as_slice());
    let ghost views = crate::text::texts(lines@);
    proof {
        crate::text::lemma_pieces_some(text@, eol@);
    }
    assert(views == head_lines(head@));
    let mut out = String::new();
    push_chars(&mut out, lines[0].as_slice());
    push_chars(&mut out, eol.as_slice());
    let mut i: usize = 1;
    assert(views.skip(1) =~= views.drop_first());
    while i < lines.len()
        invariant
            1 <= i <= lines@.len(),
            views == crate::text::texts(lines@),
            out@ + kept_lines(views.skip(i as int), eol@) == views[0] + eol@ + kept_lines(
                views.skip(1),
                eol@,
            ),
        decreases lines@.len() - i,
    {
        let ghost rest = views.skip(i as int);
        assert(rest[0] == lines@[i as int]@);
        assert(rest.drop_first() =~= views.skip(i + 1));
        let ghost before = out@;
        if !line_frames_body(lines[i].as_slice()) && lines[i].len() > 0 {
            push_chars(&mut out, lines[i].as_slice());
            push_chars(&mut out, eol.as_slice());
            assert(before + (rest[0] + eol@ + kept_lines(rest.drop_first(), eol@)) =~= out@
                + kept_lines(rest.drop_first(), eol@));
        }
        i = i + 1;
    }
    assert(views.skip(i as int).len() == 0);
    assert(out@ =~= views[0] + eol@ + kept_lines(views.skip(1), eol@));
    out.append("Content-Length: ");
    push_decimal(&mut out, body_len as u64);
    push_chars(&mut out, eol.as_slice());
    push_chars(&mut out, eol.as_slice());
    proof {
        if is_clean(head@) && announces_chunks(head@) {
            assert(block@ == crate::framing::head_block(head@));
            assert forall|body: Seq<u8>| body.len() == body_len implies #[trigger] crate::framing::is_whole(
                vstd::utf8::encode_utf8(out@) + body,
            ) by {
                crate::framing::lemma_reframed_is_whole(head@, body);
            }
        }
    }
    Ok(bytes_of(out.as_str()))
}

/// The header lines that stay when the body is framed anew.
pub open spec fn kept(lines: Seq<Seq<char>>) -> Seq<Seq<char>>
    decreases lines.len(),
{
    if lines.len() == 0 {
        Seq::empty()
    } else if frames_body(lines[0]) || lines[0].len() == 0 {
        kept(lines.drop_first())
    } else {
        seq![lines[0]] + kept(lines.drop_first())
    }
}

pub open spec fn is_eol(eol: Seq<char>) -> bool {
    eol == seq!['\r', '\n'] || eol == seq!['\n']
}

/// The first line of a text that begins with a line and its break.
proof fn lemma_first_line(line: Seq<char>, eol: Seq<char>, rest: Seq<char>)
    requires
        is_eol(eol),
        crate::search::find(line, eol) is None,
    ensures
        crate::search::find(line + eol + rest, eol) == Some(line.len() as int),
        crate::text::pieces(line + eol + rest, eol) == seq![line] + crate::text::pieces(rest, eol),
{
    let s = line + eol + rest;
    let k = line.len() as int;
    assert(s.subrange(k, k + eol.len()) =~= eol);
    crate::search::lemma_find(line, eol);
    assert forall|j: int| 0 <= j < k implies !#[trigger] crate::search::occurs(s, eol, j) by {
        if j + eol.len() <= k {
            assert(s =~= line + (eol + rest));
            crate::search::lemma_occurs_append(line, eol + rest, eol, j);
        } else if crate::search::occurs(s, eol, j) {
            assert(s.subrange(j, j + 2)[1] == s[j + 1]);
            assert(s[k] == eol[0]);
        }
    }
    crate::search::lemma_find_is(s, eol, k);
    assert(s.take(k) =~= line);
    assert(s.skip(k + eol.len()) =~= rest);
}

/// No piece of a split holds the separator.
proof fn lemma_pieces_clean(s: Seq<char>, sep: Seq<char>)
    requires
        sep.len() > 0,
    ensures
        forall|i: int|
            0 <= i < crate::text::pieces(s, sep).len() ==> crate::search::find(
                #[trigger] crate::text::pieces(s, sep)[i],
                sep,
            ) is None,
    decreases s.len(),
{
    crate::search::lemma_find(s, sep);
    match crate::search::find(s, sep) {
        Some(k) => {
            let first = s.take(k);
            assert(first + s.skip(k) =~= s);
            assert forall|j: int|
                0 <= j && j + sep.len() <= first.len() implies !#[trigger] crate::search::occurs(
                first,
                sep,
                j,
            ) by {
                crate::search::lemma_occurs_append(first, s.skip(k), sep, j);
            }
            crate::search::lemma_find_none(first, sep);
            let rest = s.skip(k + sep.len());
            lemma_pieces_clean(rest, sep);
            assert forall|i: int|
                0 <= i < crate::text::pieces(s, sep).len() implies crate::search::find(
                #[trigger] crate::text::pieces(s, sep)[i],
                sep,
            ) is None by {
                if i > 0 {
                    assert(crate::text::pieces(s, sep)[i] == crate::text::pieces(rest, sep)[i - 1]);
                }
            }
        },
        None => {},
    }
}

proof fn lemma_kept_lines(lines: Seq<Seq<char>>, eol: Seq<char>, tail: Seq<char>)
    requires
        is_eol(eol),
        forall|i: int|
            0 <= i < lines.len() ==> crate::search::find(#[trigger] lines[i], eol) is None,
    ensures
        crate::text::pieces(kept_lines(lines, eol) + tail, eol) == kept(lines)
            + crate::text::pieces(tail, eol),
        forall|i: int| 0 <= i < kept(lines).len() ==> !frames_body(#[trigger] kept(lines)[i]),
    decreases lines.len(),
{
    if lines.len() == 0 {
        assert(kept_lines(lines, eol) + tail =~= tail);
        assert(kept(lines) + crate::text::pieces(tail, eol) =~= crate::text::pieces(tail, eol));
    } else {
        let rest = lines.drop_first();
        assert forall|i: int| 0 <= i < rest.len() implies crate::search::find(
            #[trigger] rest[i],
            eol,
        ) is None by {
            assert(rest[i] == lines[i + 1]);
        }
        lemma_kept_lines(rest, eol, tail);
        if !frames_body(lines[0]) && lines[0].len() > 0 {
            let behind = kept_lines(rest, eol) + tail;
            assert(kept_lines(lines, eol) + tail =~= lines[0] + eol + behind);
            lemma_first_line(lines[0], eol, behind);
            assert(seq![lines[0]] + (kept(rest) + crate::text::pieces(tail, eol)) =~= kept(lines)
                + crate::text::pieces(tail, eol));
            assert forall|i: int| 0 <= i < kept(lines).len() implies !frames_body(
                #[trigger] kept(lines)[i],
            ) by {
                if i > 0 {
                    assert(kept(lines)[i] == kept(rest)[i - 1]);
                }
            }
        }
    }
}

/// A head that was framed anew says once how long its body is: its lines are
/// the first line, the old lines that do not frame the body, and one
/// Content-Length.
pub proof fn law_reframed_head_frames_once(head: Seq<u8>, body_len: nat)
    requires
        head_len(head) is Some,
    ensures
        crate::text::pieces(reframed(head, body_len), eol_of(head)) == seq![head_lines(head)[0]]
            + kept(head_lines(head).drop_first()) + seq![
            "Content-Length: "@ + crate::number::decimal(body_len),
            Seq::empty(),
            Seq::empty(),
        ],
        forall|i: int|
            0 <= i < kept(head_lines(head).drop_first()).len() ==> !frames_body(
                #[trigger] kept(head_lines(head).drop_first())[i],
            ),
{
    let eol = eol_of(head);
    let lines = head_lines(head);
    let none = Seq::<char>::empty();
    let last = "Content-Length: "@ + crate::number::decimal(body_len);
    let text = crate::text::shown_text(head.take(head_len(head)->Some_0 - 2 * eol.len()));
    lemma_pieces_clean(text, eol);
    crate::text::lemma_pieces_some(text, eol);
    let rest = lines.drop_first();
    assert forall|i: int| 0 <= i < rest.len() implies crate::search::find(
        #[trigger] rest[i],
        eol,
    ) is None by {
        assert(rest[i] == lines[i + 1]);
    }
    reveal_strlit("Content-Length: ");
    crate::number::lemma_decimal_digits(body_len);
    assert forall|i: int| 0 <= i < last.len() implies last[i] != '\r' && last[i] != '\n' by {
        if i >= 16 {
            assert(last[i] == crate::number::decimal(body_len)[i - 16]);
            assert(crate::text::is_digit(crate::number::decimal(body_len)[i - 16]));
        }
    }
    assert forall|j: int|
        0 <= j && j + eol.len() <= last.len() implies !#[trigger] crate::search::occurs(
        last,
        eol,
        j,
    ) by {
        if crate::search::occurs(last, eol, j) {
            assert(last.subrange(j, j + eol.len())[0] == last[j]);
        }
    }
    crate::search::lemma_find_none(last, eol);
    crate::search::lemma_find_none(none, eol);
    lemma_first_line(none, eol, none);
    assert(none + eol + none =~= eol);
    assert(crate::text::pieces(none, eol) == seq![none]);
    lemma_first_line(last, eol, eol);
    let tail = last + eol + eol;
    lemma_kept_lines(rest, eol, tail);
    let behind = kept_lines(rest, eol) + tail;
    lemma_first_line(lines[0], eol, behind);
    assert(reframed(head, body_len) =~= lines[0] + eol + behind);
    assert(crate::text::pieces(tail, eol) =~= seq![last, none, none]);
    assert(crate::text::pieces(reframed(head, body_len), eol) =~= seq![lines[0]] + kept(rest)
        + seq![last, none, none]);
}

/// CR LF as text.
pub open spec fn crlf_text() -> Seq<char> {
    seq!['\r', '\n']
}

/// Lines, each with CR LF behind it.
pub open spec fn joined(lines: Seq<Seq<char>>) -> Seq<char>
    decreases lines.len(),
{
    if lines.len() == 0 {
        Seq::empty()
    } else {
        lines[0] + crlf_text() + joined(lines.drop_first())
    }
}

/// Lines that a header block can hold: no CR LF in any of them, and only the
/// first may be empty.
pub open spec fn are_lines(lines: Seq<Seq<char>>) -> bool {
    &&& lines.len() > 0
    &&& forall|i: int|
        0 <= i < lines.len() ==> crate::search::find(#[trigger] lines[i], crlf_text()) is None
    &&& forall|i: int| 0 < i < lines.len() ==> (#[trigger] lines[i]).len() > 0
}

proof fn lemma_joined_append(a: Seq<Seq<char>>, b: Seq<Seq<char>>)
    ensures
        joined(a + b) == joined(a) + joined(b),
    decreases a.len(),
{
    if a.len() == 0 {
        assert(a + b =~= b);
        assert(joined(a) + joined(b) =~= joined(b));
    } else {
        assert((a + b).drop_first() =~= a.drop_first() + b);
        lemma_joined_append(a.drop_first(), b);
        assert(a[0] + crlf_text() + (joined(a.drop_first()) + joined(b)) =~= joined(a) + joined(
            b,
        ));
    }
}

/// A line does not hide the first blank line behind it.
proof fn lemma_blank_behind_line(line: Seq<char>, behind: Seq<char>, m: int)
    requires
        crate::search::find(line, crlf_text()) is None,
        crate::search::find(behind, crlf_text() + crlf_text()) == Some(m),
        crate::search::find(behind, crlf_text()) != Some(0int),
    ensures
        crate::search::find(line + crlf_text() + behind, crlf_text() + crlf_text()) == Some(
            line.len() + 2 + m,
        ),
{
    let eol = crlf_text();
    let end = eol + eol;
    let all = line + eol + behind;
    let k = line.len() as int;
    lemma_first_line(line, eol, behind);
    crate::search::lemma_find(all, eol);
    crate::search::lemma_find(behind, eol);
    crate::search::lemma_find(behind, end);
    assert forall|j: int| 0 <= j < k + 2 + m implies !#[trigger] crate::search::occurs(
        all,
        end,
        j,
    ) by {
        if crate::search::occurs(all, end, j) {
            let here = all.subrange(j, j + 4);
            assert(here[0] == all[j] && here[1] == all[j + 1] && here[2] == all[j + 2] && here[3]
                == all[j + 3]);
            assert(end[0] == '\r' && end[1] == '\n' && end[2] == '\r' && end[3] == '\n');
            if j < k {
                assert(all.subrange(j, j + 2) =~= eol);
                assert(crate::search::occurs(all, eol, j));
            } else if j == k {
                assert(behind[0] == all[k + 2] && behind[1] == all[k + 3]);
                assert(behind.subrange(0, 2) =~= eol);
                crate::search::lemma_find_is(behind, eol, 0);
            } else if j == k + 1 {
                assert(all[j] == '\n');
            } else {
                assert(all.subrange(j, j + 4) =~= behind.subrange(j - k - 2, j - k + 2));
                assert(crate::search::occurs(behind, end, j - k - 2));
            }
        }
    }
    assert(all.subrange(k + 2 + m, k + 2 + m + 4) =~= behind.subrange(m, m + 4));
    crate::search::lemma_find_is(all, end, k + 2 + m);
}

/// The blank line behind joined lines is the first one, and what stands before
/// it splits into those lines.
proof fn lemma_joined(lines: Seq<Seq<char>>)
    requires
        are_lines(lines),
    ensures
        joined(lines).len() >= 2,
        crate::search::find(joined(lines) + crlf_text(), crlf_text() + crlf_text()) == Some(
            joined(lines).len() - 2,
        ),
        crate::search::find(joined(lines) + crlf_text(), crlf_text()) == Some(lines[0].len() as int),
        joined(lines) == joined(lines).take(joined(lines).len() - 2) + crlf_text(),
        crate::text::pieces(joined(lines).take(joined(lines).len() - 2), crlf_text()) == lines,
    decreases lines.len(),
{
    let eol = crlf_text();
    let end = eol + eol;
    let line = lines[0];
    let rest = lines.drop_first();
    let behind = joined(rest) + eol;
    let all = joined(lines) + eol;
    assert(all =~= line + eol + behind);
    lemma_first_line(line, eol, behind);
    let k = line.len() as int;
    if rest.len() == 0 {
        assert(lines =~= seq![line]);
        assert(joined(lines) =~= line + eol);
        assert(all =~= line + end);
        crate::search::lemma_find(all, eol);
        assert forall|j: int| 0 <= j < k implies !#[trigger] crate::search::occurs(all, end, j) by {
            if crate::search::occurs(all, end, j) {
                assert(all.subrange(j, j + 2) =~= all.subrange(j, j + 4).take(2));
                assert(end.take(2) =~= eol);
                assert(crate::search::occurs(all, eol, j));
            }
        }
        assert(all.subrange(k, k + 4) =~= end);
        crate::search::lemma_find_is(all, end, k);
        assert(joined(lines).take(k) =~= line);
    } else {
        assert forall|i: int| 0 <= i < rest.len() implies crate::search::find(
            #[trigger] rest[i],
            eol,
        ) is None by {
            assert(rest[i] == lines[i + 1]);
        }
        assert forall|i: int| 0 < i < rest.len() implies (#[trigger] rest[i]).len() > 0 by {
            assert(rest[i] == lines[i + 1]);
        }
        assert(lines[1].len() > 0);
        lemma_joined(rest);
        let m = joined(rest).len() - 2;
        lemma_blank_behind_line(line, behind, m);
        let inner = joined(rest).take(m);
        assert(joined(lines).take(k + 2 + m) =~= line + eol + inner);
        lemma_first_line(line, eol, inner);
        assert(seq![line] + rest =~= lines);
    }
    assert(joined(lines) =~= joined(lines).take(joined(lines).len() - 2) + eol);
}

/// A header block that was written line by line is read line by line, whatever
/// follows it.
pub proof fn lemma_written_head(lines: Seq<Seq<char>>, more: Seq<u8>)
    requires
        are_lines(lines),
    ensures
        ({
            let head = vstd::utf8::encode_utf8(joined(lines) + crlf_text());
            let end = head.len() - 4;
            &&& crate::search::find(head + more, crlf_end()) == Some(end)
            &&& head_len(head + more) == Some(head.len() as int)
            &&& head_lines(head + more) == lines
            &&& byte_lines(head + more) == crate::encoding::encoded_lines(lines)
            &&& eol_of(head + more) == crlf_text()
        }),
{
    let text = joined(lines) + crlf_text();
    let blank = crlf_text() + crlf_text();
    let head = vstd::utf8::encode_utf8(text);
    let inner = joined(lines).take(joined(lines).len() - 2);
    lemma_joined(lines);
    assert(vstd::utf8::is_ascii_chars(blank));
    vstd::utf8::is_ascii_chars_encode_utf8(blank);
    assert(vstd::utf8::encode_utf8(blank) =~= crlf_end()) by {
        assert(blank[0] as u8 == 13 && blank[1] as u8 == 10 && blank[2] as u8 == 13 && blank[3]
            as u8 == 10);
    }
    crate::encoding::lemma_find_encoded(text, blank);
    assert(text.take(joined(lines).len() - 2) =~= inner);
    assert(text =~= inner + blank);
    crate::encoding::lemma_encode_append(inner, blank);
    let end = vstd::utf8::encode_utf8(inner).len() as int;
    crate::search::lemma_find_append(head, more, crlf_end());
    assert((head + more).take(end) =~= vstd::utf8::encode_utf8(inner));
    vstd::utf8::encode_utf8_valid_utf8(inner);
    vstd::utf8::encode_utf8_decode_utf8(inner);
    lemma_crlf_bytes();
    crate::encoding::lemma_encoded_pieces(inner, crlf_text());
}

/// The bytes of CR LF.
pub proof fn lemma_crlf_bytes()
    ensures
        vstd::utf8::is_ascii_chars(crlf_text()),
        vstd::utf8::encode_utf8(crlf_text()) == crlf(),
{
    assert(vstd::utf8::is_ascii_chars(crlf_text()));
    vstd::utf8::is_ascii_chars_encode_utf8(crlf_text());
    assert(crlf_text()[0] as u8 == 13 && crlf_text()[1] as u8 == 10);
    assert(vstd::utf8::encode_utf8(crlf_text()) =~= crlf());
}

pub proof fn lemma_kept_joined(lines: Seq<Seq<char>>)
    ensures
        kept_lines(lines, crlf_text()) == joined(kept(lines)),
        kept(kept(lines)) == kept(lines),
        forall|i: int|
            0 <= i < kept(lines).len() ==> (#[trigger] kept(lines)[i]).len() > 0 && !frames_body(
                kept(lines)[i],
            ) && lines.contains(kept(lines)[i]),
    decreases lines.len(),
{
    if lines.len() > 0 {
        let rest = lines.drop_first();
        lemma_kept_joined(rest);
        assert forall|i: int| 0 <= i < kept(rest).len() implies lines.contains(
            #[trigger] kept(rest)[i],
        ) by {
            let j = choose|j: int| 0 <= j < rest.len() && rest[j] == kept(rest)[i];
            assert(lines[j + 1] == kept(rest)[i]);
        }
        if !frames_body(lines[0]) && lines[0].len() > 0 {
            assert(kept(lines).drop_first() =~= kept(rest));
            assert(lines[0] == kept(lines)[0]);
            assert forall|i: int| 0 <= i < kept(lines).len() implies (
            #[trigger] kept(lines)[i]).len() > 0 && !frames_body(kept(lines)[i]) && lines.contains(
                kept(lines)[i],
            ) by {
                if i > 0 {
                    assert(kept(lines)[i] == kept(rest)[i - 1]);
                }
            }
        }
    }
}

proof fn lemma_kept_append(a: Seq<Seq<char>>, b: Seq<Seq<char>>)
    ensures
        kept(a + b) == kept(a) + kept(b),
    decreases a.len(),
{
    if a.len() == 0 {
        assert(a + b =~= b);
        assert(kept(a) + kept(b) =~= kept(b));
    } else {
        assert((a + b).drop_first() =~= a.drop_first() + b);
        lemma_kept_append(a.drop_first(), b);
        assert(seq![a[0]] + (kept(a.drop_first()) + kept(b)) =~= seq![a[0]] + kept(a.drop_first())
            + kept(b));
    }
}

/// The line that announces a length.
pub open spec fn length_line(body_len: nat) -> Seq<char> {
    "Content-Length: "@ + crate::number::decimal(body_len)
}

proof fn lemma_length_line(body_len: nat)
    ensures
        crate::search::find(length_line(body_len), crlf_text()) is None,
        length_line(body_len).len() > 0,
        crate::text::split_once(length_line(body_len), ':') == Some(
            ("Content-Length"@, seq![' '] + crate::number::decimal(body_len)),
        ),
        frames_body(length_line(body_len)),
{
    let line = length_line(body_len);
    let digits = crate::number::decimal(body_len);
    reveal_strlit("Content-Length: ");
    reveal_strlit("Content-Length");
    reveal_strlit("content-length");
    crate::number::lemma_decimal_digits(body_len);
    assert forall|i: int| 0 <= i < line.len() implies line[i] != '\r' && line[i] != '\n' by {
        if i >= 16 {
            assert(line[i] == digits[i - 16]);
            assert(crate::text::is_digit(digits[i - 16]));
        }
    }
    assert forall|j: int|
        0 <= j && j + 2 <= line.len() implies !#[trigger] crate::search::occurs(
        line,
        crlf_text(),
        j,
    ) by {
        if crate::search::occurs(line, crlf_text(), j) {
            assert(line.subrange(j, j + 2)[0] == line[j]);
        }
    }
    crate::search::lemma_find_none(line, crlf_text());
    crate::text::lemma_find_char_is(line, ':', 14);
    assert(line.take(14) =~= "Content-Length"@);
    assert(line.skip(15) =~= seq![' '] + digits);
    crate::text::lemma_trim_none("Content-Length"@);
    assert(crate::text::lower("Content-Length"@) =~= crate::text::lower("content-length"@));
}

/// The lines of a head that was framed anew.
pub open spec fn reframed_lines(head: Seq<u8>, body_len: nat) -> Seq<Seq<char>> {
    seq![head_lines(head)[0]] + kept(head_lines(head).drop_first()) + seq![length_line(body_len)]
}

pub proof fn lemma_reframed_lines(head: Seq<u8>, body_len: nat)
    requires
        crate::search::find(head, crlf_end()) is Some,
    ensures
        are_lines(reframed_lines(head, body_len)),
        reframed(head, body_len) == joined(reframed_lines(head, body_len)) + crlf_text(),
{
    let eol = crlf_text();
    let lines = head_lines(head);
    let rest = lines.drop_first();
    let text = crate::text::shown_text(head.take(head_len(head)->Some_0 - 4));
    let all = reframed_lines(head, body_len);
    lemma_pieces_clean(text, eol);
    crate::text::lemma_pieces_some(text, eol);
    lemma_kept_joined(rest);
    lemma_length_line(body_len);
    assert forall|i: int| 0 <= i < all.len() implies crate::search::find(
        #[trigger] all[i],
        eol,
    ) is None by {
        if 0 < i < all.len() - 1 {
            assert(all[i] == kept(rest)[i - 1]);
            let j = choose|j: int| 0 <= j < rest.len() && rest[j] == kept(rest)[i - 1];
            assert(rest[j] == lines[j + 1]);
        }
    }
    assert forall|i: int| 0 < i < all.len() implies (#[trigger] all[i]).len() > 0 by {
        if i < all.len() - 1 {
            assert(all[i] == kept(rest)[i - 1]);
        }
    }
    let last = seq![length_line(body_len)];
    lemma_joined_append(seq![lines[0]] + kept(rest), last);
    lemma_joined_append(seq![lines[0]], kept(rest));
    assert(seq![lines[0]].drop_first() =~= Seq::empty());
    assert(last.drop_first() =~= Seq::empty());
    reveal_with_fuel(joined, 2);
    assert(joined(seq![lines[0]]) =~= lines[0] + eol);
    assert(joined(last) =~= length_line(body_len) + eol);
    assert(reframed(head, body_len) =~= joined(all) + eol);
}

/// To frame a head anew twice is to frame it anew once, with the last length.
/// (The lines end in CR LF.)
pub proof fn law_last_framing_counts(head: Seq<u8>, first_len: nat, body_len: nat)
    requires
        crate::search::find(head, crlf_end()) is Some,
    ensures
        head_len(vstd::utf8::encode_utf8(reframed(head, first_len))) is Some,
        reframed(vstd::utf8::encode_utf8(reframed(head, first_len)), body_len) == reframed(
            head,
            body_len,
        ),
{
    let once = vstd::utf8::encode_utf8(reframed(head, first_len));
    let lines = reframed_lines(head, first_len);
    let rest = head_lines(head).drop_first();
    let last = seq![length_line(first_len)];
    lemma_reframed_lines(head, first_len);
    lemma_reframed_lines(head, body_len);
    lemma_written_head(lines, Seq::empty());
    assert(once + Seq::<u8>::empty() =~= once);
    lemma_reframed_lines(once, body_len);
    lemma_kept_joined(rest);
    lemma_kept_append(kept(rest), last);
    lemma_length_line(first_len);
    assert(lines.drop_first() =~= kept(rest) + last);
    assert(last.drop_first() =~= Seq::empty());
    reveal_with_fuel(kept, 2);
    assert(kept(last) =~= Seq::empty());
    assert(kept(lines.drop_first()) =~= kept(rest));
    assert(reframed_lines(once, body_len) =~= reframed_lines(head, body_len));
}

/// A complete plain-text error response that closes the connection.
pub open spec fn error_response(status: u16, reason: Seq<char>, body: Seq<char>) -> Seq<char> {
    "HTTP/1.1 "@ + crate::number::decimal(status as nat) + " "@ + reason
        + "\r\nContent-Type: text/plain; charset=utf-8\r\nContent-Length: "@
        + crate::number::decimal(vstd::utf8::encode_utf8(body).len())
        + "\r\nConnection: close\r\n\r\n"@ + body
}

pub fn http_error_response(status: u16, reason: &str, body: &str) -> (res: Vec<u8>)
    ensures
        res@ == vstd::utf8::encode_utf8(error_response(status, reason@, body@)),
{
    let mut out = String::new();
    out.append("HTTP/1.1 ");
    push_decimal(&mut out, status as u64);
    out.append(" ");
    out.append(reason);
    out.append("\r\nContent-Type: text/plain; charset=utf-8\r\nContent-Length: ");
    push_decimal(&mut out, body.as_bytes().len() as u64);
    out.append("\r\nConnection: close\r\n\r\n");
    out.append(body);
    assert(out@ =~= error_response(status, reason@, body@));
    bytes_of(out.as_str())
}

/// A response taken apart.
pub struct ParsedResponse {
    pub status: u16,
    pub headers: Vec<(String, String)>,
    pub body: Vec<u8>,
}

/// View of a list of names and texts.
pub open spec fn pair_views(pairs: Seq<(String, String)>) -> Seq<(Seq<char>, Seq<char>)> {
    pairs.map_values(|p: (String, String)| (p.0@, p.1@))
}

/// The headers that have a name, with their values as text.
pub open spec fn named_headers(headers: HeaderViews) -> Seq<(Seq<char>, Seq<char>)>
    decreases headers.len(),
{
    if headers.len() == 0 {
        Seq::empty()
    } else if headers.last().0.len() == 0 {
        named_headers(headers.drop_last())
    } else {
        named_headers(headers.drop_last()).push(
            (headers.last().0, crate::text::shown_text(headers.last().1)),
        )
    }
}

/// Headers with a name, with their values as text.
fn headers_with_names(headers: &Vec<(String, Vec<u8>)>) -> (out: Vec<(String, String)>)
    ensures
        pair_views(out@) == named_headers(header_views(headers@)),
{
    let ghost views = header_views(headers@);
    let mut out: Vec<(String, String)> = Vec::new();
    let mut i: usize = 0;
    assert(pair_views(out@) =~= named_headers(views.take(0)));
    while i < headers.len()
        invariant
            i <= headers@.len(),
            views == header_views(headers@),
            pair_views(out@) == named_headers(views.take(i as int)),
        decreases headers@.len() - i,
    {
        assert(views.take(i + 1).drop_last() =~= views.take(i as int));
        assert(views.take(i + 1).last() == (headers@[i as int].0@, headers@[i as int].1@));
        let ghost before = out@;
        if !str_is_empty(headers[i].0.as_str()) {
            out.push((headers[i].0.clone(), utf8_lossy(headers[i].1.as_slice())));
            assert(pair_views(out@) =~= pair_views(before).push(
                (headers@[i as int].0@, crate::text::shown_text(headers@[i as int].1@)),
            ));
        }
        i = i + 1;
    }
    assert(views.take(i as int) =~= views);
    out
}

/// The response whose head was read as `head`, from its bytes.
pub fn assemble_response(raw: &[u8], head: Option<ResponseHead>) -> (res: Result<
    ParsedResponse,
    HttpError,
>)
    ensures
        match res {
            Ok(r) => {
                &&& head_len(raw@) is Some
                &&& head matches Some(h) && h.code == Some(r.status) && pair_views(r.headers@)
                    == named_headers(header_views(h.headers@))
                &&& r.body@ == raw@.skip(head_len(raw@)->Some_0)
            },
            Err(e) => if head_len(raw@) is None {
                e == HttpError::ResponseHeadIncomplete
            } else {
                &&& e == HttpError::StatusMissing
                &&& head matches Some(h) ==> h.code is None
            },
        },
{
    let end: usize = match header_end(raw) {
        Some(n) => n,
        None => {
            return Err(HttpError::ResponseHeadIncomplete);
        },
    };
    match head {
        Some(h) => match h.code {
            Some(status) => {
                let headers = headers_with_names(&h.headers);
                let rest = slice_subrange(raw, end, raw.len());
                assert(rest@ =~= raw@.skip(end as int));
                Ok(ParsedResponse { status, headers, body: crate::octets::to_bytes(rest) })
            },
            None => Err(HttpError::StatusMissing),
        },
        None => Err(HttpError::StatusMissing),
    }
}

/// Take a complete HTTP/1.1 response apart: status, headers with a name, and
/// what follows the head.
pub fn parse_http1_response(raw: &[u8]) -> (res: Result<ParsedResponse, HttpError>)
    ensures
        match res {
            Ok(r) => {
                &&& head_len(raw@) is Some
                &&& response_parts(raw@, MAX_HEADERS as nat) matches Some((code, headers))
                    && code == Some(r.status) && pair_views(r.headers@) == named_headers(headers)
                &&& r.body@ == raw@.skip(head_len(raw@)->Some_0)
            },
            Err(e) => if head_len(raw@) is None {
                e == HttpError::ResponseHeadIncomplete
            } else {
                e == HttpError::StatusMissing && status_of(raw@) is None
            },
        },
{
    assemble_response(raw, parse_response(raw, MAX_HEADERS))
}

/// A head whose lines can be read is clean.
pub proof fn lemma_read_head_is_clean(head: Seq<u8>)
    requires
        crate::search::find(head, crlf_end()) is Some,
        crate::lines::request_on(byte_lines(head)[0]) is Some || crate::lines::status_on(
            byte_lines(head)[0],
        ) is Some,
        crate::lines::headers_on(byte_lines(head).drop_first()) is Some,
    ensures
        is_clean(head),
{
    let lines = byte_lines(head);
    let end = crate::search::find(head, crlf_end())->Some_0;
    let block = head.take(end);
    crate::search::lemma_find(head, crlf_end());
    crate::search::lemma_find(block, crlf());
    crate::text::lemma_pieces_some(block, crlf());
    if crate::lines::request_on(lines[0]) is Some {
        crate::lines::lemma_request_line_bytes(lines[0]);
    } else {
        crate::lines::lemma_status_line_bytes(lines[0]);
    }
    assert(lines[0][0] == head[0]);
    assert forall|i: int| 0 <= i < lines.len() implies !(#[trigger] lines[i]).contains(10u8) by {
        if i > 0 {
            assert(lines.drop_first()[i - 1] == lines[i]);
            assert(crate::lines::header_on(lines[i]) is Some);
            crate::lines::lemma_header_line_bytes(lines[i]);
        }
    }
}

/// Text without control characters holds no line break.
pub proof fn lemma_text_is_one_line(s: Seq<char>)
    requires
        crate::lines::is_value_text(s),
    ensures
        crate::search::find(s, crlf_text()) is None,
{
    assert forall|j: int|
        0 <= j && j + 2 <= s.len() implies !#[trigger] crate::search::occurs(
        s,
        crlf_text(),
        j,
    ) by {
        if crate::search::occurs(s, crlf_text(), j) {
            assert(s.subrange(j, j + 2)[0] == s[j]);
        }
    }
    crate::search::lemma_find_none(s, crlf_text());
}

/// An ASCII name that may stand in front of a header's colon.
pub open spec fn is_name(name: Seq<char>) -> bool {
    &&& vstd::utf8::is_ascii_chars(name)
    &&& name.len() > 0
    &&& forall|i: int|
        0 <= i < name.len() ==> crate::lines::is_token_byte(#[trigger] name[i] as u8)
}

/// A header line that is written with one space says what was written.
pub proof fn lemma_header_line(name: Seq<char>, value: Seq<char>)
    requires
        is_name(name),
        vstd::utf8::is_ascii_chars(value),
        crate::lines::is_value_text(value),
        value.len() > 0,
        value[0] > ' ',
        value.last() > ' ',
    ensures
        crate::lines::header_on(vstd::utf8::encode_utf8(name + seq![':', ' '] + value)) == Some(
            (name, vstd::utf8::encode_utf8(value)),
        ),
        crate::lines::is_value_text(name + seq![':', ' '] + value),
{
    let line = name + seq![':', ' '] + value;
    let front = vstd::utf8::encode_utf8(name);
    let coded = vstd::utf8::encode_utf8(value);
    let mid = seq![':', ' '];
    vstd::utf8::is_ascii_chars_encode_utf8(name);
    vstd::utf8::is_ascii_chars_encode_utf8(value);
    assert(vstd::utf8::is_ascii_chars(mid));
    vstd::utf8::is_ascii_chars_encode_utf8(mid);
    assert(mid[0] as u8 == 58 && mid[1] as u8 == 32);
    assert(vstd::utf8::encode_utf8(mid) =~= seq![58u8, 32u8]);
    crate::encoding::lemma_encode_append(name + mid, value);
    crate::encoding::lemma_encode_append(name, mid);
    let bytes = vstd::utf8::encode_utf8(line);
    let behind = seq![32u8] + coded;
    assert(bytes =~= front + seq![58u8] + behind);
    assert forall|i: int| 0 <= i < front.len() implies crate::lines::is_token_byte(
        #[trigger] front[i],
    ) by {
        assert(name[i] as u8 == front[i]);
    }
    assert(!front.contains(58u8)) by {
        assert forall|i: int| 0 <= i < front.len() implies front[i] != 58 by {
            assert(crate::lines::is_token_byte(front[i]));
        }
    }
    crate::lines::lemma_first_byte(front, 58u8, behind);
    crate::lines::lemma_value_text(value);
    assert(crate::lines::is_text(behind)) by {
        assert forall|i: int| 0 <= i < behind.len() implies crate::lines::is_text_byte(
            #[trigger] behind[i],
        ) by {
            if i > 0 {
                assert(behind[i] == coded[i - 1]);
            }
        }
    }
    assert(crate::lines::ascii_text(front) =~= name) by {
        assert forall|i: int| 0 <= i < name.len() implies front[i] as char == name[i] by {
            assert(name[i] as u8 == front[i]);
            assert('\0' <= name[i] <= '\u{7f}');
        }
    }
    let last = value.len() - 1;
    assert(value[0] as u8 == coded[0] && value[last] as u8 == coded[last]);
    assert('\0' <= value[0] <= '\u{7f}' && '\0' <= value[last] <= '\u{7f}');
    assert(behind.drop_first() =~= coded);
    reveal_with_fuel(crate::lines::ungapped_start, 2);
    assert(crate::lines::ungapped(behind) == coded);
    assert forall|i: int| 0 <= i < line.len() implies (#[trigger] line[i]) == '\t' || line[i] >= ' '
        && line[i] != '\u{7f}' by {
        if i < name.len() {
            assert('\0' <= name[i] <= '\u{7f}');
            assert(crate::lines::is_token_byte(name[i] as u8));
        } else if i >= name.len() + 2 {
            assert(line[i] == value[i - name.len() - 2]);
        }
    }
}

/// A number of three digits, digit by digit.
proof fn lemma_three_digits(n: nat)
    requires
        100 <= n <= 999,
    ensures
        crate::number::decimal(n).len() == 3,
        100 * (crate::number::decimal(n)[0] as int - 48) + 10 * (crate::number::decimal(n)[1] as int
            - 48) + (crate::number::decimal(n)[2] as int - 48) == n,
{
    reveal_with_fuel(crate::number::numeral, 4);
    let tens = n / 10;
    assert(10 <= tens <= 99);
    assert(1 <= tens / 10 <= 9);
}

/// A status line says its status.
pub proof fn lemma_status_line(status: u16, reason: Seq<char>)
    requires
        100 <= status <= 999,
        crate::lines::is_value_text(reason),
    ensures
        ({
            let line = "HTTP/1.1 "@ + crate::number::decimal(status as nat) + " "@ + reason;
            &&& crate::lines::status_on(vstd::utf8::encode_utf8(line)) == Some(status)
            &&& crate::lines::is_value_text(line)
        }),
{
    let digits = crate::number::decimal(status as nat);
    let line = "HTTP/1.1 "@ + digits + " "@ + reason;
    reveal_strlit("HTTP/1.1 ");
    reveal_strlit("HTTP/1.1");
    reveal_strlit(" ");
    lemma_three_digits(status as nat);
    crate::number::lemma_decimal_digits(status as nat);
    let gap = seq![' '];
    let code = digits + gap;
    let text = code + reason;
    assert(line =~= "HTTP/1.1"@ + (gap + text));
    crate::encoding::lemma_encode_append("HTTP/1.1"@, gap + text);
    crate::encoding::lemma_encode_append(gap, text);
    crate::encoding::lemma_encode_append(code, reason);
    assert(vstd::utf8::is_ascii_chars(gap));
    vstd::utf8::is_ascii_chars_encode_utf8(gap);
    assert(gap[0] as u8 == 32);
    assert(vstd::utf8::encode_utf8(gap) =~= seq![32u8]);
    let version = vstd::utf8::encode_utf8("HTTP/1.1"@);
    let rest = vstd::utf8::encode_utf8(text);
    let bytes = vstd::utf8::encode_utf8(line);
    assert(bytes =~= version + seq![32u8] + rest);
    crate::lines::lemma_version(version);
    assert(!version.contains(32u8)) by {
        assert forall|i: int| 0 <= i < version.len() implies version[i] != 32 by {
            assert(version[i] >= 33);
        }
    }
    crate::lines::lemma_first_byte(version, 32u8, rest);
    assert(crate::text::is_digit(digits[0]) && crate::text::is_digit(digits[1])
        && crate::text::is_digit(digits[2]));
    assert(vstd::utf8::is_ascii_chars(code));
    vstd::utf8::is_ascii_chars_encode_utf8(code);
    let front = vstd::utf8::encode_utf8(code);
    assert(code[0] as u8 == front[0] && code[1] as u8 == front[1] && code[2] as u8 == front[2]
        && code[3] as u8 == front[3]);
    assert(rest[0] == front[0] && rest[1] == front[1] && rest[2] == front[2] && rest[3]
        == front[3]);
    assert(crate::lines::is_value_text(text)) by {
        assert forall|i: int| 0 <= i < text.len() implies (#[trigger] text[i]) == '\t' || text[i]
            >= ' ' && text[i] != '\u{7f}' by {
            if i < 3 {
                assert(text[i] == digits[i]);
            } else if i > 3 {
                assert(text[i] == reason[i - 4]);
            }
        }
    }
    crate::lines::lemma_value_text(text);
    assert forall|i: int| 0 <= i < line.len() implies (#[trigger] line[i]) == '\t' || line[i] >= ' '
        && line[i] != '\u{7f}' by {
        if i >= 9 {
            assert(line[i] == text[i - 9]);
        }
    }
}

/// The lines of an error response.
pub open spec fn error_lines(status: u16, reason: Seq<char>, body_len: nat) -> Seq<Seq<char>> {
    seq![
        "HTTP/1.1 "@ + crate::number::decimal(status as nat) + " "@ + reason,
        "Content-Type: text/plain; charset=utf-8"@,
        length_line(body_len),
        "Connection: close"@,
    ]
}

proof fn lemma_error_text(status: u16, reason: Seq<char>, body: Seq<char>)
    ensures
        error_response(status, reason, body) == joined(
            error_lines(status, reason, vstd::utf8::encode_utf8(body).len()),
        ) + crlf_text() + body,
{
    let n = vstd::utf8::encode_utf8(body).len();
    let lines = error_lines(status, reason, n);
    let eol = crlf_text();
    reveal_strlit("\r\nContent-Type: text/plain; charset=utf-8\r\nContent-Length: ");
    reveal_strlit("Content-Type: text/plain; charset=utf-8");
    reveal_strlit("Content-Length: ");
    reveal_strlit("\r\nConnection: close\r\n\r\n");
    reveal_strlit("Connection: close");
    let l1 = lines.drop_first();
    let l2 = l1.drop_first();
    let l3 = l2.drop_first();
    let l4 = l3.drop_first();
    assert(joined(l4) =~= Seq::empty());
    assert(joined(l3) =~= lines[3] + eol);
    assert(joined(l2) =~= lines[2] + eol + lines[3] + eol);
    assert(joined(l1) =~= lines[1] + eol + (lines[2] + eol + lines[3] + eol));
    assert(joined(lines) =~= lines[0] + eol + (lines[1] + eol + (lines[2] + eol + lines[3] + eol)));
    assert("\r\nContent-Type: text/plain; charset=utf-8\r\nContent-Length: "@ =~= eol + lines[1]
        + eol + "Content-Length: "@);
    assert("\r\nConnection: close\r\n\r\n"@ =~= eol + lines[3] + eol + eol);
    assert(error_response(status, reason, body) =~= joined(lines) + eol + body);
}

/// The line that announces a length, as it is read.
pub proof fn lemma_length_header(body_len: nat)
    ensures
        crate::lines::header_on(vstd::utf8::encode_utf8(length_line(body_len))) == Some(
            ("Content-Length"@, vstd::utf8::encode_utf8(crate::number::decimal(body_len))),
        ),
        crate::lines::is_value_text(length_line(body_len)),
{
    let digits = crate::number::decimal(body_len);
    reveal_strlit("Content-Length: ");
    reveal_strlit("Content-Length");
    crate::number::lemma_decimal_digits(body_len);
    assert forall|i: int| 0 <= i < digits.len() implies ' ' < #[trigger] digits[i] < '\u{7f}' by {
        assert(crate::text::is_digit(digits[i]));
    }
    assert(digits.last() == digits[digits.len() - 1]);
    assert(length_line(body_len) =~= "Content-Length"@ + seq![':', ' '] + digits);
    lemma_header_line("Content-Length"@, digits);
}

/// The header lines of an error response, as they are read.
proof fn lemma_error_headers(status: u16, reason: Seq<char>, body_len: nat)
    ensures
        ({
            let lines = error_lines(status, reason, body_len);
            &&& crate::lines::header_on(vstd::utf8::encode_utf8(lines[1])) == Some(
                ("Content-Type"@, vstd::utf8::encode_utf8("text/plain; charset=utf-8"@)),
            )
            &&& crate::lines::header_on(vstd::utf8::encode_utf8(lines[2])) == Some(
                ("Content-Length"@, vstd::utf8::encode_utf8(crate::number::decimal(body_len))),
            )
            &&& crate::lines::header_on(vstd::utf8::encode_utf8(lines[3])) == Some(
                ("Connection"@, vstd::utf8::encode_utf8("close"@)),
            )
            &&& forall|i: int| 1 <= i < 4 ==> crate::lines::is_value_text(#[trigger] lines[i])
        }),
{
    let lines = error_lines(status, reason, body_len);
    reveal_strlit("Content-Type: text/plain; charset=utf-8");
    reveal_strlit("Content-Type");
    reveal_strlit("text/plain; charset=utf-8");
    reveal_strlit("Connection: close");
    reveal_strlit("Connection");
    reveal_strlit("close");
    assert(lines[1] =~= "Content-Type"@ + seq![':', ' '] + "text/plain; charset=utf-8"@);
    lemma_header_line("Content-Type"@, "text/plain; charset=utf-8"@);
    assert(lines[3] =~= "Connection"@ + seq![':', ' '] + "close"@);
    lemma_header_line("Connection"@, "close"@);
    lemma_length_header(body_len);
}

/// A request head that is written line by line is read as its lines say,
/// whatever follows it: method, target, headers, and the tunnel that these name.
pub proof fn law_written_request_is_read_by_its_lines(
    lines: Seq<Seq<char>>,
    more: Seq<u8>,
    domain: Option<Seq<char>>,
    name: Seq<char>,
)
    requires
        are_lines(lines),
        lines.len() <= MAX_HEADERS + 1,
        crate::lines::request_on(vstd::utf8::encode_utf8(lines[0])) is Some,
        crate::lines::headers_on(crate::encoding::encoded_lines(lines).drop_first()) is Some,
    ensures
        ({
            let head = vstd::utf8::encode_utf8(joined(lines) + crlf_text()) + more;
            let coded = crate::encoding::encoded_lines(lines);
            let said = crate::lines::request_on(coded[0])->Some_0;
            let headers = crate::lines::headers_on(coded.drop_first())->Some_0;
            &&& method_of(head) == Some(said.0)
            &&& path_of(head) == Some(said.1)
            &&& header_of(head, name) == lookup(headers, name)
            &&& tunnel_of_head(head, domain) == tunnel_of_headers(headers, domain)
        }),
{
    let head = vstd::utf8::encode_utf8(joined(lines) + crlf_text()) + more;
    lemma_written_head(lines, more);
    lemma_read_head_is_clean(head);
}

/// An error response is read back as it was written: its status, its headers
/// and its body, also where the body holds a blank line.
pub proof fn law_error_response_is_read_back(status: u16, reason: Seq<char>, body: Seq<char>)
    requires
        100 <= status <= 999,
        crate::lines::is_value_text(reason),
    ensures
        ({
            let raw = vstd::utf8::encode_utf8(error_response(status, reason, body));
            &&& head_len(raw) is Some
            &&& raw.skip(head_len(raw)->Some_0) == vstd::utf8::encode_utf8(body)
            &&& response_parts(raw, MAX_HEADERS as nat) matches Some((code, headers)) && code
                == Some(status) && named_headers(headers) == seq![
                ("Content-Type"@, "text/plain; charset=utf-8"@),
                (
                    "Content-Length"@,
                    crate::number::decimal(vstd::utf8::encode_utf8(body).len()),
                ),
                ("Connection"@, "close"@),
            ]
        }),
{
    let coded = vstd::utf8::encode_utf8(body);
    let n = coded.len();
    let lines = error_lines(status, reason, n);
    let raw = vstd::utf8::encode_utf8(error_response(status, reason, body));
    let head = vstd::utf8::encode_utf8(joined(lines) + crlf_text());
    lemma_error_text(status, reason, body);
    crate::encoding::lemma_encode_append(joined(lines) + crlf_text(), body);
    assert(raw == head + coded);
    lemma_status_line(status, reason);
    lemma_error_headers(status, reason, n);
    assert forall|i: int| 0 <= i < lines.len() implies crate::search::find(
        #[trigger] lines[i],
        crlf_text(),
    ) is None by {
        lemma_text_is_one_line(lines[i]);
    }
    assert forall|i: int| 0 < i < lines.len() implies (#[trigger] lines[i]).len() > 0 by {
        if lines[i].len() == 0 {
            assert(crate::lines::header_on(vstd::utf8::encode_utf8(lines[i])) is Some);
            crate::lines::lemma_header_line_bytes(vstd::utf8::encode_utf8(lines[i]));
        }
    }
    lemma_written_head(lines, coded);
    assert(raw.skip(head.len() as int) =~= coded);
    let fields = byte_lines(raw).drop_first();
    assert(fields[0] == vstd::utf8::encode_utf8(lines[1]) && fields[1] == vstd::utf8::encode_utf8(
        lines[2],
    ) && fields[2] == vstd::utf8::encode_utf8(lines[3]));
    assert(crate::lines::headers_on(fields) is Some);
    lemma_read_head_is_clean(raw);
    let headers = crate::lines::headers_on(fields)->Some_0;
    assert(response_parts(raw, MAX_HEADERS as nat) == Some((Some(status), headers)));
    lemma_named_headers(
        headers,
        seq!["Content-Type"@, "Content-Length"@, "Connection"@],
        seq!["text/plain; charset=utf-8"@, crate::number::decimal(n), "close"@],
    );
}

/// Headers with names, and with values that are encoded text.
proof fn lemma_named_headers(
    headers: HeaderViews,
    names: Seq<Seq<char>>,
    values: Seq<Seq<char>>,
)
    requires
        headers.len() == names.len() == values.len(),
        forall|i: int|
            0 <= i < headers.len() ==> #[trigger] headers[i] == (
                names[i],
                vstd::utf8::encode_utf8(values[i]),
            ) && names[i].len() > 0,
    ensures
        named_headers(headers) == Seq::new(headers.len(), |i: int| (names[i], values[i])),
    decreases headers.len(),
{
    if headers.len() > 0 {
        lemma_named_headers(headers.drop_last(), names.drop_last(), values.drop_last());
        let k = headers.len() - 1;
        assert(headers.last() == headers[k]);
        vstd::utf8::encode_utf8_valid_utf8(values[k]);
        vstd::utf8::encode_utf8_decode_utf8(values[k]);
        assert(named_headers(headers) =~= Seq::new(
            headers.len(),
            |i: int| (names[i], values[i]),
        ));
    } else {
        assert(named_headers(headers) =~= Seq::new(
            headers.len(),
            |i: int| (names[i], values[i]),
        ));
    }
}

/// A header is looked up by its name in any letter case; the first of the name
/// whose value is UTF-8 counts, without the white space around it.
pub proof fn law_headers_are_looked_up(
    header: (Seq<char>, Seq<u8>),
    value: Seq<char>,
    rest: HeaderViews,
    name: Seq<char>,
)
    ensures
        lookup(Seq::empty(), name) is None,
        crate::text::lower(header.0) == crate::text::lower(name) ==> lookup(
            seq![(header.0, vstd::utf8::encode_utf8(value))] + rest,
            name,
        ) == Some(crate::text::trim(value)),
        crate::text::lower(header.0) != crate::text::lower(name) || !vstd::utf8::valid_utf8(
            header.1,
        ) ==> lookup(seq![header] + rest, name) == lookup(rest, name),
{
    vstd::utf8::encode_utf8_valid_utf8(value);
    vstd::utf8::encode_utf8_decode_utf8(value);
    assert((seq![header] + rest).drop_first() =~= rest);
}

/// Which tunnel headers ask for where none decides: without an X-Vyse-Tunnel header
/// that says something and without a Host header, no tunnel; one that is no UTF-8
/// asks for none either.
pub proof fn law_headers_without_a_tunnel(
    headers: HeaderViews,
    k: int,
    domain: Option<Seq<char>>,
)
    requires
        forall|j: int|
            0 <= j < headers.len() ==> crate::text::lower((#[trigger] headers[j]).0)
                != "x-vyse-tunnel"@,
    ensures
        (forall|j: int|
            0 <= j < headers.len() ==> crate::text::lower((#[trigger] headers[j]).0) != "host"@)
            ==> tunnel_of_headers(headers, domain) is None,
        0 <= k < headers.len() && crate::text::lower(headers[k].0) == "host"@
            && !vstd::utf8::valid_utf8(headers[k].1) && (forall|j: int|
            0 <= j < k ==> crate::text::lower((#[trigger] headers[j]).0) != "host"@)
            ==> tunnel_of_headers(headers, domain) is None,
{
    lemma_names_in_lower();
    lemma_no_override(headers);
    if forall|j: int|
        0 <= j < headers.len() ==> crate::text::lower((#[trigger] headers[j]).0) != "host"@ {
        lemma_host_at(headers, headers.len() as int, domain);
    } else if 0 <= k < headers.len() && (forall|j: int|
        0 <= j < k ==> crate::text::lower((#[trigger] headers[j]).0) != "host"@) {
        lemma_host_at(headers, k, domain);
    }
}

proof fn lemma_names_in_lower()
    ensures
        crate::text::lower("host"@) == "host"@,
        crate::text::lower("x-vyse-tunnel"@) == "x-vyse-tunnel"@,
        crate::text::lower("transfer-encoding"@) == "transfer-encoding"@,
        crate::text::lower("content-length"@) == "content-length"@,
{
    reveal_strlit("host");
    reveal_strlit("x-vyse-tunnel");
    reveal_strlit("transfer-encoding");
    reveal_strlit("content-length");
    assert(crate::text::lower("host"@) =~= "host"@);
    assert(crate::text::lower("x-vyse-tunnel"@) =~= "x-vyse-tunnel"@);
    assert(crate::text::lower("transfer-encoding"@) =~= "transfer-encoding"@);
    assert(crate::text::lower("content-length"@) =~= "content-length"@);
}

/// What headers say of a host from the place of the first one on.
proof fn lemma_host_at(headers: HeaderViews, k: int, domain: Option<Seq<char>>)
    requires
        0 <= k <= headers.len(),
        forall|j: int|
            0 <= j < k ==> crate::text::lower((#[trigger] headers[j]).0) != "host"@,
    ensures
        tunnel_of_host_header(headers, domain) == tunnel_of_host_header(headers.skip(k), domain),
        k == headers.len() ==> tunnel_of_host_header(headers, domain) is None,
        k < headers.len() && crate::text::lower(headers[k].0) == "host"@ ==> tunnel_of_host_header(
            headers,
            domain,
        ) == (if vstd::utf8::valid_utf8(headers[k].1) {
            tunnel_id_of_host(vstd::utf8::decode_utf8(headers[k].1), domain)
        } else {
            None
        }),
    decreases k,
{
    lemma_names_in_lower();
    if k == 0 {
        assert(headers.skip(0) =~= headers);
    } else {
        let rest = headers.drop_first();
        assert(headers[0] == headers[0int]);
        assert(crate::text::lower(headers[0].0) != "host"@);
        assert forall|j: int| 0 <= j < k - 1 implies crate::text::lower((#[trigger] rest[j]).0)
            != "host"@ by {
            assert(rest[j] == headers[j + 1]);
        }
        lemma_host_at(rest, k - 1, domain);
        assert(rest.skip(k - 1) =~= headers.skip(k));
        if k < headers.len() {
            assert(rest[k - 1] == headers[k]);
        }
    }
}

/// A blank X-Vyse-Tunnel header does not count: the Host header decides. One that is
/// no UTF-8 leaves the request without a tunnel.
pub proof fn law_blank_overrides(
    header: (Seq<char>, Seq<u8>),
    rest: HeaderViews,
    domain: Option<Seq<char>>,
)
    requires
        crate::text::lower(header.0) == "x-vyse-tunnel"@,
    ensures
        vstd::utf8::valid_utf8(header.1) && crate::text::trim(
            vstd::utf8::decode_utf8(header.1),
        ).len() == 0 ==> tunnel_of_headers(seq![header] + rest, domain) == tunnel_of_headers(
            rest,
            domain,
        ),
        !vstd::utf8::valid_utf8(header.1) ==> tunnel_of_headers(seq![header] + rest, domain)
            is None,
{
    lemma_names_in_lower();
    reveal_strlit("host");
    reveal_strlit("x-vyse-tunnel");
    assert((seq![header] + rest).drop_first() =~= rest);
    assert("host"@.len() != "x-vyse-tunnel"@.len());
}

/// A host name carries the tunnel id that stands, one label of small letters, in
/// front of the apex domain, or else of `.vyse.dev`, `.localhost` or `.vyse.local`;
/// any other carries none.
pub proof fn law_hosts_of_tunnels(host: Seq<char>, domain: Seq<char>, label: Seq<char>)
    requires
        domain.len() > 0,
        domain[0] != '.',
        !crate::text::is_space(domain[0]),
        !crate::text::is_space(domain.last()),
    ensures
        ({
            let h = crate::text::lower(hostname(host));
            let one = label.len() > 0 && forall|i: int| 0 <= i < label.len() ==> label[i] != '.';
            let builtin = h == label + ".vyse.dev"@ || h == label + ".localhost"@ || h == label
                + ".vyse.local"@;
            let own = h == label + seq!['.'] + domain;
            let found = tunnel_id_of_host(host, Some(domain));
            &&& one && own ==> found == Some(label)
            &&& one && builtin ==> tunnel_id_of_host(host, None) == Some(label)
            &&& one && builtin ==> found is Some
            &&& found == Some(label) ==> one && (own || builtin)
            &&& tunnel_id_of_host(host, None) == Some(label) ==> one && builtin
        }),
{
    let h = crate::text::lower(hostname(host));
    crate::text::law_trim_takes_what_is_around(Seq::empty(), domain, Seq::empty());
    assert(Seq::<char>::empty() + domain + Seq::empty() =~= domain);
    assert(crate::text::trim_start_char(domain, '.') == domain);
    let own = seq!['.'] + domain;
    assert(domain_suffix(Some(domain)) == Some(own));
    reveal_strlit(".vyse.dev");
    reveal_strlit(".localhost");
    reveal_strlit(".vyse.local");
    assert(label + seq!['.'] + domain =~= label + own);
    lemma_label(h, own, label);
    lemma_label(h, ".vyse.dev"@, label);
    lemma_label(h, ".localhost"@, label);
    lemma_label(h, ".vyse.local"@, label);
    lemma_one_suffix(h, label);
}

proof fn lemma_label(h: Seq<char>, suffix: Seq<char>, label: Seq<char>)
    ensures
        label_before(h, suffix) == Some(label) <==> h == label + suffix && label.len() > 0
            && forall|i: int| 0 <= i < label.len() ==> label[i] != '.',
{
    if label_before(h, suffix) == Some(label) {
        crate::text::lemma_find_char(label, '.');
        assert(h =~= label + suffix) by {
            assert(h.subrange(h.len() - suffix.len(), h.len() as int) == suffix);
        }
    }
    if h == label + suffix && label.len() > 0 && forall|i: int|
        0 <= i < label.len() ==> label[i] != '.' {
        crate::text::lemma_find_char_none(label, '.');
        assert(h.subrange(h.len() - suffix.len(), h.len() as int) =~= suffix);
        assert(h.take(h.len() - suffix.len()) =~= label);
    }
}

/// No host name ends in two of the built-in suffixes.
proof fn lemma_one_suffix(h: Seq<char>, label: Seq<char>)
    ensures
        h == label + ".vyse.dev"@ ==> label_before(h, ".localhost"@) is None && label_before(
            h,
            ".vyse.local"@,
        ) is None,
        h == label + ".localhost"@ ==> label_before(h, ".vyse.dev"@) is None && label_before(
            h,
            ".vyse.local"@,
        ) is None,
        h == label + ".vyse.local"@ ==> label_before(h, ".vyse.dev"@) is None && label_before(
            h,
            ".localhost"@,
        ) is None,
{
    let (a, b, c) = (".vyse.dev"@, ".localhost"@, ".vyse.local"@);
    reveal_strlit(".vyse.dev");
    reveal_strlit(".localhost");
    reveal_strlit(".vyse.local");
    assert(a.last() == 'v' && b.last() == 't' && c.last() == 'l');
    if a.is_suffix_of(h) {
        assert(h.subrange(h.len() - a.len(), h.len() as int).last() == h.last());
    }
    if b.is_suffix_of(h) {
        assert(h.subrange(h.len() - b.len(), h.len() as int).last() == h.last());
    }
    if c.is_suffix_of(h) {
        assert(h.subrange(h.len() - c.len(), h.len() as int).last() == h.last());
    }
    if h == label + a {
        assert(h.last() == a.last());
    }
    if h == label + b {
        assert(h.last() == b.last());
    }
    if h == label + c {
        assert(h.last() == c.last());
    }
}

/// A host name ends in front of its port, and white space around it does not count.
/// An apex domain may be written with a dot in front; a blank one is none.
pub proof fn law_host_names(
    name: Seq<char>,
    port: Seq<char>,
    host: Seq<char>,
    domain: Seq<char>,
)
    requires
        forall|i: int| 0 <= i < name.len() ==> name[i] != ':',
    ensures
        hostname(name) == crate::text::trim(name),
        hostname(name + seq![':'] + port) == crate::text::trim(name),
        domain.len() > 0 && !crate::text::is_space(domain[0]) && !crate::text::is_space(
            domain.last(),
        ) ==> tunnel_id_of_host(host, Some(seq!['.'] + domain)) == tunnel_id_of_host(
            host,
            Some(domain),
        ),
        (forall|i: int| 0 <= i < domain.len() ==> crate::text::is_space(#[trigger] domain[i]))
            ==> tunnel_id_of_host(host, Some(domain)) == tunnel_id_of_host(host, None),
{
    crate::text::law_splitting(name, ':', port);
    let none = Seq::<char>::empty();
    if domain.len() > 0 && !crate::text::is_space(domain[0]) && !crate::text::is_space(
        domain.last(),
    ) {
        let dotted = seq!['.'] + domain;
        crate::text::law_trim_takes_what_is_around(none, domain, none);
        crate::text::law_trim_takes_what_is_around(none, dotted, none);
        assert(none + domain + none =~= domain);
        assert(none + dotted + none =~= dotted);
        assert(dotted.last() == domain.last());
        assert(dotted.drop_first() =~= domain);
    }
    if forall|i: int| 0 <= i < domain.len() ==> crate::text::is_space(#[trigger] domain[i]) {
        crate::text::law_trim_takes_what_is_around(domain, none, none);
        assert(domain + none + none =~= domain);
    }
}

/// A body is chunked where the Transfer-Encoding says so anywhere in its value, in
/// any letter case; its length is the decimal number in its Content-Length.
pub proof fn law_framing_headers(head: Seq<u8>)
    ensures
        announces_chunks(head) <==> (header_of(head, "transfer-encoding"@) matches Some(v)
            && exists|i: int|
            0 <= i <= v.len() - 7 && crate::text::lower(#[trigger] v.subrange(i, i + 7))
                == "chunked"@),
        length_of(head) == (match header_of(head, "content-length"@) {
            Some(v) => crate::number::unsigned(v, 10, usize::MAX as nat),
            None => None,
        }),
{
    reveal_strlit("chunked");
    match header_of(head, "transfer-encoding"@) {
        Some(v) => {
            let low = crate::text::lower(v);
            crate::search::lemma_find(low, "chunked"@);
            assert forall|i: int| 0 <= i <= v.len() - 7 implies crate::text::lower(
                #[trigger] v.subrange(i, i + 7),
            ) == low.subrange(i, i + 7) by {
                assert(crate::text::lower(v.subrange(i, i + 7)) =~= low.subrange(i, i + 7));
            }
            if crate::search::find(low, "chunked"@) is Some {
                let k = crate::search::find(low, "chunked"@)->Some_0;
                assert(crate::text::lower(v.subrange(k, k + 7)) == "chunked"@);
            }
            if exists|i: int|
                0 <= i <= v.len() - 7 && crate::text::lower(#[trigger] v.subrange(i, i + 7))
                    == "chunked"@ {
                let i = choose|i: int|
                    0 <= i <= v.len() - 7 && crate::text::lower(#[trigger] v.subrange(i, i + 7))
                        == "chunked"@;
                assert(crate::search::occurs(low, "chunked"@, i));
            }
        },
        None => {},
    }
}

/// A head ends behind its first CR LF CR LF, and where there is none behind its
/// first LF LF.
pub proof fn law_ends_of_heads(buf: Seq<u8>, k: int)
    ensures
        ({
            let end = seq![13u8, 10u8, 13u8, 10u8];
            let short = seq![10u8, 10u8];
            let no_end = forall|j: int| !#[trigger] crate::search::occurs(buf, end, j);
            &&& crate::search::occurs(buf, end, k) && (forall|j: int|
                0 <= j < k ==> !#[trigger] crate::search::occurs(buf, end, j)) ==> head_len(buf)
                == Some(k + 4)
            &&& no_end && crate::search::occurs(buf, short, k) && (forall|j: int|
                0 <= j < k ==> !#[trigger] crate::search::occurs(buf, short, j)) ==> head_len(buf)
                == Some(k + 2)
            &&& no_end && (forall|j: int| !#[trigger] crate::search::occurs(buf, short, j))
                ==> head_len(buf) is None
        }),
{
    let end = seq![13u8, 10u8, 13u8, 10u8];
    let short = seq![10u8, 10u8];
    assert(end =~= crlf_end());
    assert(short =~= lf_end());
    crate::search::lemma_find(buf, end);
    crate::search::lemma_find(buf, short);
}

/// Of the lines of a head all stay when its body is framed anew, in their order,
/// but those named Transfer-Encoding or Content-Length, in any letter case, and
/// blank ones.
pub proof fn law_lines_that_stay(
    name: Seq<char>,
    value: Seq<char>,
    bare: Seq<char>,
    rest: Seq<Seq<char>>,
)
    requires
        forall|i: int| 0 <= i < name.len() ==> name[i] != ':',
        forall|i: int| 0 <= i < bare.len() ==> bare[i] != ':',
    ensures
        ({
            let line = name + seq![':'] + value;
            let key = crate::text::lower(crate::text::trim(name));
            &&& kept(seq![line] + rest) == (if key == "transfer-encoding"@ || key
                == "content-length"@ {
                kept(rest)
            } else {
                seq![line] + kept(rest)
            })
            &&& kept(seq![bare] + rest) == (if bare.len() == 0 {
                kept(rest)
            } else {
                seq![bare] + kept(rest)
            })
            &&& kept(Seq::empty()).len() == 0
        }),
{
    lemma_names_in_lower();
    reveal_strlit("transfer-encoding");
    reveal_strlit("content-length");
    let line = name + seq![':'] + value;
    crate::text::law_splitting(name, ':', value);
    crate::text::law_splitting(bare, ':', value);
    assert((seq![line] + rest).drop_first() =~= rest);
    assert((seq![bare] + rest).drop_first() =~= rest);
    assert(crate::text::lower(Seq::<char>::empty()).len() == 0);
}

/// A written head that is framed anew is its first line, the lines that stay, the
/// length and a blank line.
pub proof fn law_heads_framed_anew(lines: Seq<Seq<char>>, more: Seq<u8>, body_len: nat)
    requires
        are_lines(lines),
    ensures
        reframed(vstd::utf8::encode_utf8(joined(lines) + seq!['\r', '\n']) + more, body_len)
            == lines[0] + seq!['\r', '\n'] + joined(kept(lines.drop_first())) + "Content-Length: "@
            + crate::number::decimal(body_len) + seq!['\r', '\n'] + seq!['\r', '\n'],
        joined(lines) == lines[0] + seq!['\r', '\n'] + joined(lines.drop_first()),
        joined(Seq::empty()).len() == 0,
{
    assert(crlf_text() =~= seq!['\r', '\n']);
    lemma_written_head(lines, more);
    lemma_kept_joined(lines.drop_first());
}

/// An error response, line by line.
pub proof fn law_error_responses(status: u16, reason: Seq<char>, body: Seq<char>)
    ensures
        error_response(status, reason, body) == "HTTP/1.1 "@ + crate::number::decimal(
            status as nat,
        ) + " "@ + reason + crlf_text() + "Content-Type: text/plain; charset=utf-8"@ + crlf_text()
            + "Content-Length: "@ + crate::number::decimal(vstd::utf8::encode_utf8(body).len())
            + crlf_text() + "Connection: close"@ + crlf_text() + crlf_text() + body,
        crlf_text() == seq!['\r', '\n'],
{
    let n = vstd::utf8::encode_utf8(body).len();
    let lines = error_lines(status, reason, n);
    lemma_error_text(status, reason, body);
    reveal_with_fuel(joined, 5);
    let (l1, l2, l3) = (
        lines.drop_first(),
        lines.drop_first().drop_first(),
        lines.drop_first().drop_first().drop_first(),
    );
    assert(l3.drop_first() =~= Seq::empty());
    assert(l1[0] == lines[1] && l2[0] == lines[2] && l3[0] == lines[3]);
    assert(joined(lines) =~= lines[0] + crlf_text() + (lines[1] + crlf_text() + (lines[2]
        + crlf_text() + (lines[3] + crlf_text()))));
    let digits = crate::number::decimal(n);
    let size = "Content-Length: "@;
    assert(lines[0] + crlf_text() + (lines[1] + crlf_text() + ((size + digits) + crlf_text() + (
    lines[3] + crlf_text()))) + crlf_text() + body =~= lines[0] + crlf_text() + lines[1]
        + crlf_text() + size + digits + crlf_text() + lines[3] + crlf_text() + crlf_text() + body);
}

/// The headers of a response are handed on one by one, with their values as text;
/// those without a name are left out.
pub proof fn law_response_headers(headers: HeaderViews, name: Seq<char>, value: Seq<u8>)
    ensures
        named_headers(Seq::empty()).len() == 0,
        name.len() > 0 ==> named_headers(headers.push((name, value))) == named_headers(
            headers,
        ).push((name, crate::text::shown_text(value))),
        name.len() == 0 ==> named_headers(headers.push((name, value))) == named_headers(headers),
{
    assert(headers.push((name, value)).drop_last() =~= headers);
}

/// A clean head is read as its lines say, with up to 64 headers; a value is that of
/// a request, or else of a response.
pub proof fn law_clean_heads(head: Seq<u8>, name: Seq<char>)
    requires
        is_clean(head),
    ensures
        ({
            let lines = byte_lines(head);
            let headers = crate::lines::headers_on(lines.drop_first());
            let asks = crate::lines::request_on(lines[0]);
            let code = crate::lines::status_on(lines[0]);
            let fits = headers is Some && headers->Some_0.len() <= 64;
            &&& fits && asks is Some ==> {
                &&& method_of(head) == Some(asks->Some_0.0)
                &&& path_of(head) == Some(asks->Some_0.1)
                &&& header_of(head, name) == lookup(headers->Some_0, name)
            }
            &&& fits && code is Some ==> {
                &&& status_of(head) == code
                &&& header_of(head, name) == lookup(headers->Some_0, name)
            }
            &&& !fits ==> method_of(head) is None && path_of(head) is None && status_of(head)
                is None && header_of(head, name) is None
            &&& asks is None ==> method_of(head) is None && path_of(head) is None
            &&& code is None ==> status_of(head) is None
        }),
{
}

/// A request line that is written is read.
pub proof fn lemma_request_line(method: Seq<char>, target: Seq<char>)
    requires
        is_name(method),
        target.len() > 0,
        forall|i: int| 0 <= i < target.len() ==> '!' <= #[trigger] target[i] <= '~',
    ensures
        ({
            let line = method + seq![' '] + target + seq![' '] + "HTTP/1.1"@;
            &&& crate::lines::request_on(vstd::utf8::encode_utf8(line)) == Some((method, target))
            &&& crate::lines::is_value_text(line)
        }),
{
    let gap = seq![' '];
    let line = method + gap + target + gap + "HTTP/1.1"@;
    reveal_strlit("HTTP/1.1");
    assert(line =~= method + (gap + (target + (gap + "HTTP/1.1"@))));
    crate::encoding::lemma_encode_append(method, gap + (target + (gap + "HTTP/1.1"@)));
    crate::encoding::lemma_encode_append(gap, target + (gap + "HTTP/1.1"@));
    crate::encoding::lemma_encode_append(target, gap + "HTTP/1.1"@);
    crate::encoding::lemma_encode_append(gap, "HTTP/1.1"@);
    assert(vstd::utf8::is_ascii_chars(gap));
    vstd::utf8::is_ascii_chars_encode_utf8(gap);
    assert(gap[0] as u8 == 32);
    assert(vstd::utf8::encode_utf8(gap) =~= seq![32u8]);
    let m = vstd::utf8::encode_utf8(method);
    let t = vstd::utf8::encode_utf8(target);
    let v = vstd::utf8::encode_utf8("HTTP/1.1"@);
    assert(vstd::utf8::encode_utf8(line) =~= m + seq![32u8] + (t + seq![32u8] + v));
    vstd::utf8::is_ascii_chars_encode_utf8(method);
    assert(vstd::utf8::is_ascii_chars(target)) by {
        assert forall|i: int| 0 <= i < target.len() implies '\0' <= #[trigger] target[i]
            <= '\u{7f}' by {
            assert('!' <= target[i] <= '~');
        }
    }
    vstd::utf8::is_ascii_chars_encode_utf8(target);
    vstd::utf8::encode_utf8_valid_utf8(target);
    vstd::utf8::encode_utf8_decode_utf8(target);
    assert forall|i: int| 0 <= i < m.len() implies crate::lines::is_token_byte(#[trigger] m[i])
        && m[i] != 32 by {
        assert(method[i] as u8 == m[i]);
    }
    assert forall|i: int| 0 <= i < t.len() implies (#[trigger] t[i]) >= 33 && t[i] != 127 by {
        assert(target[i] as u8 == t[i]);
        assert('!' <= target[i] <= '~');
    }
    assert(!m.contains(32u8) && !t.contains(32u8));
    crate::lines::law_request_lines(m, t, v);
    assert(Seq::new(m.len(), |i: int| m[i] as char) =~= method) by {
        assert forall|i: int| 0 <= i < m.len() implies m[i] as char == method[i] by {
            assert(method[i] as u8 == m[i]);
            assert('\0' <= method[i] <= '\u{7f}');
        }
    }
    assert forall|i: int| 0 <= i < line.len() implies (#[trigger] line[i]) == '\t' || line[i] >= ' '
        && line[i] != '\u{7f}' by {
        let k = method.len() as int;
        let n = target.len() as int;
        if i < k {
            assert(line[i] == method[i]);
            assert(crate::lines::is_token_byte(method[i] as u8));
            assert('\0' <= method[i] <= '\u{7f}');
        } else if k < i < k + 1 + n {
            assert(line[i] == target[i - k - 1]);
            assert('!' <= target[i - k - 1] <= '~');
        } else if i > k + 1 + n {
            assert(line[i] == "HTTP/1.1"@[i - k - n - 2]);
        }
    }
}

/// A request with one header, as it is written.
pub open spec fn request_head(method: Seq<char>, target: Seq<char>, header: Seq<char>) -> Seq<u8> {
    vstd::utf8::encode_utf8(
        method + seq![' '] + target + seq![' '] + "HTTP/1.1"@ + seq!['\r', '\n'] + header + seq![
            '\r',
            '\n',
            '\r',
            '\n',
        ],
    )
}

/// A request with one header is read as it is written: its method, its target and
/// the header, whatever follows it.
pub proof fn law_requests_with_one_header(
    method: Seq<char>,
    target: Seq<char>,
    name: Seq<char>,
    value: Seq<char>,
    more: Seq<u8>,
    domain: Option<Seq<char>>,
)
    requires
        is_name(method),
        target.len() > 0,
        forall|i: int| 0 <= i < target.len() ==> '!' <= #[trigger] target[i] <= '~',
        is_name(name),
        value.len() > 0,
        forall|i: int| 0 <= i < value.len() ==> '!' <= #[trigger] value[i] <= '~',
    ensures
        ({
            let head = request_head(method, target, name + seq![':', ' '] + value) + more;
            &&& method_of(head) == Some(method)
            &&& path_of(head) == Some(target)
            &&& header_of(head, name) == Some(value)
            &&& tunnel_of_head(head, domain) == tunnel_of_headers(
                seq![(name, vstd::utf8::encode_utf8(value))],
                domain,
            )
        }),
{
    let first = method + seq![' '] + target + seq![' '] + "HTTP/1.1"@;
    let header = name + seq![':', ' '] + value;
    let lines = seq![first, header];
    let head = request_head(method, target, header) + more;
    lemma_request_line(method, target);
    assert forall|i: int| 0 <= i < value.len() implies '\0' <= #[trigger] value[i] <= '\u{7f}'
        && !crate::text::is_space(value[i]) by {
        assert('!' <= value[i] <= '~');
    }
    assert(vstd::utf8::is_ascii_chars(value));
    assert forall|i: int| 0 <= i < value.len() implies (#[trigger] value[i]) == '\t' || value[i]
        >= ' ' && value[i] != '\u{7f}' by {
        assert('!' <= value[i] <= '~');
    }
    assert('!' <= value[0] <= '~' && '!' <= value.last() <= '~');
    lemma_header_line(name, value);
    lemma_text_is_one_line(first);
    lemma_text_is_one_line(header);
    assert(are_lines(lines));
    reveal_with_fuel(joined, 3);
    assert(lines.drop_first() =~= seq![header]);
    assert(seq![header].drop_first() =~= Seq::empty());
    assert(first + seq!['\r', '\n'] + header + seq!['\r', '\n', '\r', '\n'] =~= joined(lines)
        + crlf_text());
    let coded = crate::encoding::encoded_lines(lines);
    assert(coded[0] == vstd::utf8::encode_utf8(first));
    assert(coded.drop_first() =~= seq![vstd::utf8::encode_utf8(header)]);
    assert forall|i: int| 0 <= i < coded.drop_first().len() implies crate::lines::header_on(
        #[trigger] coded.drop_first()[i],
    ) is Some by {
        assert(coded.drop_first()[i] == vstd::utf8::encode_utf8(header));
    }
    law_written_request_is_read_by_its_lines(lines, more, domain, name);
    let field = (name, vstd::utf8::encode_utf8(value));
    let headers = crate::lines::headers_on(coded.drop_first())->Some_0;
    assert(headers =~= seq![field]);
    law_headers_are_looked_up(field, value, Seq::empty(), name);
    assert(seq![field] + Seq::<(Seq<char>, Seq<u8>)>::empty() =~= seq![field]);
    crate::text::lemma_trim_none(value);
}

/// The lines of a head, and the head framed anew: with CR LF between the lines where
/// the head ends in CR LF CR LF, and with LF where it ends in LF LF.
pub proof fn law_lines_of_heads(head: Seq<u8>, k: int, body_len: nat)
    ensures
        ({
            let end = seq![13u8, 10u8, 13u8, 10u8];
            let short = seq![10u8, 10u8];
            let no_end = forall|j: int| !#[trigger] crate::search::occurs(head, end, j);
            let size = "Content-Length: "@ + crate::number::decimal(body_len);
            &&& crate::search::occurs(head, end, k) && (forall|j: int|
                0 <= j < k ==> !#[trigger] crate::search::occurs(head, end, j)) ==> {
                let eol = seq!['\r', '\n'];
                let lines = crate::text::pieces(crate::text::shown_text(head.take(k)), eol);
                reframed(head, body_len) == lines[0] + eol + kept_lines(lines.drop_first(), eol)
                    + size + eol + eol
            }
            &&& no_end && crate::search::occurs(head, short, k) && (forall|j: int|
                0 <= j < k ==> !#[trigger] crate::search::occurs(head, short, j)) ==> {
                let eol = seq!['\n'];
                let lines = crate::text::pieces(crate::text::shown_text(head.take(k)), eol);
                reframed(head, body_len) == lines[0] + eol + kept_lines(lines.drop_first(), eol)
                    + size + eol + eol
            }
        }),
{
    law_ends_of_heads(head, k);
    let end = seq![13u8, 10u8, 13u8, 10u8];
    let short = seq![10u8, 10u8];
    assert(end =~= crlf_end());
    assert(short =~= lf_end());
    crate::search::lemma_find(head, end);
    let digits = crate::number::decimal(body_len);
    let lines = head_lines(head);
    let eol = eol_of(head);
    let front = lines[0] + eol + kept_lines(lines.drop_first(), eol);
    assert(front + "Content-Length: "@ + digits + eol + eol =~= front + ("Content-Length: "@
        + digits) + eol + eol);
}

/// The lines that stay are written with a line break behind each.
pub proof fn law_lines_are_written(line: Seq<char>, rest: Seq<Seq<char>>, eol: Seq<char>)
    ensures
        kept_lines(Seq::empty(), eol).len() == 0,
        kept_lines(seq![line] + rest, eol) == (if kept(seq![line] + rest) == kept(rest) {
            kept_lines(rest, eol)
        } else {
            line + eol + kept_lines(rest, eol)
        }),
{
    let all = seq![line] + rest;
    assert(all.drop_first() =~= rest);
    assert(all[0] == line);
    if !(frames_body(line) || line.len() == 0) {
        assert(kept(all).len() == kept(rest).len() + 1);
    }
}

/// A response is taken apart where its head is complete and says a status; its body
/// is all that stands behind the head. Why another is not.
pub proof fn law_responses_taken_apart(
    raw: &[u8],
    head: Option<ResponseHead>,
    res: Result<ParsedResponse, HttpError>,
    whole: Result<ParsedResponse, HttpError>,
)
    requires
        call_ensures(assemble_response, (raw, head), res),
        call_ensures(parse_http1_response, (raw,), whole),
    ensures
        res is Ok <==> head_len(raw@) is Some && (head matches Some(h) && h.code is Some),
        res matches Ok(r) ==> (head matches Some(h) && h.code == Some(r.status)) && r.body@
            == raw@.skip(head_len(raw@)->Some_0),
        head_len(raw@) is None ==> (res matches Err(e) && e.text()
            == "HTTP response headers incomplete"@),
        head_len(raw@) is Some && res is Err ==> res->Err_0.text()
            == "HTTP response status missing"@,
        whole is Ok <==> head_len(raw@) is Some && status_of(raw@) is Some,
        whole matches Ok(r) ==> status_of(raw@) == Some(r.status) && r.body@ == raw@.skip(
            head_len(raw@)->Some_0,
        ),
        head_len(raw@) is None ==> (whole matches Err(e) && e.text()
            == "HTTP response headers incomplete"@),
        head_len(raw@) is Some && status_of(raw@) is None ==> (whole matches Err(e) && e.text()
            == "HTTP response status missing"@),
{
}

/// A length is a decimal number, and a body is chunked where `chunked` stands in its
/// encoding, in any letter case.
pub proof fn law_values_of_framing(
    value: Option<String>,
    length: Option<usize>,
    chunked: bool,
    front: Seq<char>,
    back: Seq<char>,
)
    requires
        call_ensures(content_length_from, (value,), length),
        call_ensures(chunked_from, (value,), chunked),
    ensures
        value is None ==> length is None && !chunked,
        value matches Some(v) ==> (length matches Some(n) ==> crate::number::unsigned(
            v@,
            10,
            usize::MAX as nat,
        ) == Some(n as nat)),
        value matches Some(v) ==> (length is None ==> crate::number::unsigned(
            v@,
            10,
            usize::MAX as nat,
        ) is None),
        value matches Some(v) ==> crate::text::lower(v@) == front + "chunked"@ + back ==> chunked,
        value matches Some(v) ==> v@.len() < 7 ==> !chunked,
{
    reveal_strlit("chunked");
    if let Some(v) = value {
        let low = crate::text::lower(v@);
        crate::search::lemma_find(low, "chunked"@);
        let k = front.len() as int;
        let all = front + "chunked"@ + back;
        assert(all.subrange(k, k + 7) =~= "chunked"@);
        if low == all {
            assert(crate::search::occurs(low, "chunked"@, k));
        }
    }
}

/// Without an apex domain only the built-in ones count.
pub proof fn law_built_in_hosts(
    host: &str,
    res: Option<String>,
    domain: Option<&str>,
    other: Option<String>,
    name: &str,
)
    requires
        call_ensures(extract_tunnel_id, (host,), res),
        call_ensures(extract_tunnel_id_for_domain, (host, domain), other),
        call_ensures(hostname_only, (host,), name),
    ensures
        crate::text::opt_text(res) == tunnel_id_of_host(host@, None),
        domain is None ==> crate::text::opt_text(other) == crate::text::opt_text(res),
        domain matches Some(d) ==> crate::text::opt_text(other) == tunnel_id_of_host(
            host@,
            Some(d@),
        ),
        forall|i: int| 0 <= i < name@.len() ==> name@[i] != ':',
{
    let part = crate::text::before(host@, ':');
    crate::text::lemma_find_char(host@, ':');
    assert forall|i: int| 0 <= i < part.len() implies part[i] != ':' by {
        assert(part[i] == host@[i]);
    }
    crate::text::law_trim(part);
    let (i, j) = choose|i: int, j: int|
        0 <= i <= j <= part.len() && #[trigger] part.subrange(i, j) == crate::text::trim(part) && (
        forall|k: int| 0 <= k < i || j <= k < part.len() ==> crate::text::is_space(#[trigger] part[k]));
    assert forall|k: int| 0 <= k < name@.len() implies name@[k] != ':' by {
        assert(name@[k] == part[i + k]);
    }
}

} // verus!
