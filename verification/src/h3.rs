//! HTTP/3 requests in terms of HTTP/1.1, and responses back.
use vstd::prelude::*;

use crate::http::{
    extract_tunnel_id_for_domain, parse_http1_response, tunnel_id_from_http_head_in, HttpError,
    ParsedResponse,
};
use crate::gateway::HttpRoute;
use crate::number::push_decimal;
use crate::session::Hub;
use crate::text::{bytes_of, opt_clone, same_str, same_str_ignoring_case};
use crate::udp::{is_allowed_masque_host, parse_masque_udp_path};

verus! {

/// What an HTTP/3 request says of itself. Names of headers are in small letters.
pub struct H3Request {
    pub method: String,
    pub path: String,
    pub path_and_query: Option<String>,
    pub authority: Option<String>,
    pub headers: Vec<(String, Vec<u8>)>,
}

#[verifier::ext_equal]
pub ghost struct H3RequestView {
    pub method: Seq<char>,
    pub path: Seq<char>,
    pub path_and_query: Option<Seq<char>>,
    pub authority: Option<Seq<char>>,
    pub headers: crate::http::HeaderViews,
}

impl View for H3Request {
    type V = H3RequestView;

    open spec fn view(&self) -> H3RequestView {
        H3RequestView {
            method: self.method@,
            path: self.path@,
            path_and_query: crate::text::opt_text(self.path_and_query),
            authority: crate::text::opt_text(self.authority),
            headers: crate::http::header_views(self.headers@),
        }
    }
}

/// A byte that may be shown as text in a header: visible ASCII, space or tab.
pub open spec fn is_visible(b: u8) -> bool {
    32 <= b < 127 || b == 9
}

/// The text of a header value, where all of it can be shown.
pub open spec fn value_text(value: Seq<u8>) -> Option<Seq<char>> {
    if forall|i: int| 0 <= i < value.len() ==> is_visible(#[trigger] value[i]) {
        Some(value.map_values(|b: u8| b as char))
    } else {
        None
    }
}

/// The value of the first header called `name`.
pub open spec fn first_value(headers: crate::http::HeaderViews, name: Seq<char>) -> Option<Seq<u8>>
    decreases headers.len(),
{
    if headers.len() == 0 {
        None
    } else if headers[0].0 == name {
        Some(headers[0].1)
    } else {
        first_value(headers.drop_first(), name)
    }
}

/// The host that the `host` header names.
pub open spec fn host_text(headers: crate::http::HeaderViews) -> Option<Seq<char>> {
    match first_value(headers, "host"@) {
        Some(value) => value_text(value),
        None => None,
    }
}

/// Headers that HTTP/1.1 gets from elsewhere than from the HTTP/3 headers.
pub open spec fn is_connection_header(name: Seq<char>) -> bool {
    name == "host"@ || name == "connection"@ || name == "transfer-encoding"@ || name
        == "content-length"@
}

/// One header line.
pub open spec fn header_line(name: Seq<char>, value: Seq<u8>) -> Seq<char> {
    name + ": "@ + (match value_text(value) {
        Some(text) => text,
        None => Seq::empty(),
    }) + "\r\n"@
}

/// The lines of the headers that carry over.
pub open spec fn header_lines(headers: crate::http::HeaderViews) -> Seq<char>
    decreases headers.len(),
{
    if headers.len() == 0 {
        Seq::empty()
    } else if is_connection_header(headers.last().0) {
        header_lines(headers.drop_last())
    } else {
        header_lines(headers.drop_last()) + header_line(headers.last().0, headers.last().1)
    }
}

/// The host of a request: its authority, or else its `host` header.
pub open spec fn host_of(req: H3RequestView) -> Option<Seq<char>> {
    if req.authority is Some {
        req.authority
    } else {
        host_text(req.headers)
    }
}

/// The head of the HTTP/1.1 request that stands for an HTTP/3 one.
pub open spec fn http1_head(req: H3RequestView, body_len: nat) -> Seq<char> {
    req.method + " "@ + (match req.path_and_query {
        Some(p) => p,
        None => seq!['/'],
    }) + " HTTP/1.1\r\n"@ + (match host_of(req) {
        Some(host) => "Host: "@ + host + "\r\n"@,
        None => Seq::empty(),
    }) + header_lines(req.headers) + "Content-Length: "@ + crate::number::decimal(body_len)
        + "\r\nConnection: close\r\n\r\n"@
}

/// The HTTP/1.1 request that stands for an HTTP/3 one.
pub open spec fn http1_request(req: H3RequestView, body: Seq<u8>) -> Seq<u8> {
    vstd::utf8::encode_utf8(http1_head(req, body.len())) + body
}

/// The tunnel that a request is for, where its HTTP/1.1 form says `from_head`:
/// that, or else what its authority says, or else its `host` header.
pub open spec fn tunnel_of(
    req: H3RequestView,
    from_head: Option<Seq<char>>,
    domain: Seq<char>,
) -> Option<Seq<char>> {
    if from_head is Some {
        from_head
    } else {
        match host_of(req) {
            Some(host) => crate::http::tunnel_id_of_host(host, Some(domain)),
            None => None,
        }
    }
}

fn visible_text(value: &[u8]) -> (res: Option<String>)
    ensures
        crate::text::opt_text(res) == value_text(value@),
{
    let mut out: String = String::new();
    let mut i: usize = 0;
    while i < value.len()
        invariant
            i <= value@.len(),
            forall|j: int| 0 <= j < i ==> is_visible(#[trigger] value@[j]),
            out@ == value@.take(i as int).map_values(|b: u8| b as char),
        decreases value@.len() - i,
    {
        let b: u8 = value[i];
        if !((32 <= b && b < 127) || b == 9) {
            assert(!is_visible(value@[i as int]));
            return None;
        }
        out.push(b as char);
        assert(out@ =~= value@.take(i + 1).map_values(|b: u8| b as char));
        i = i + 1;
    }
    assert(value@.take(i as int) =~= value@);
    Some(out)
}

fn host_header(headers: &Vec<(String, Vec<u8>)>) -> (res: Option<String>)
    ensures
        crate::text::opt_text(res) == host_text(crate::http::header_views(headers@)),
{
    let ghost views = crate::http::header_views(headers@);
    let mut i: usize = 0;
    assert(views.skip(0) =~= views);
    while i < headers.len()
        invariant
            i <= headers@.len(),
            views == crate::http::header_views(headers@),
            first_value(views.skip(i as int), "host"@) == first_value(views, "host"@),
        decreases headers@.len() - i,
    {
        assert(views.skip(i as int)[0] == (headers@[i as int].0@, headers@[i as int].1@));
        assert(views.skip(i as int).drop_first() =~= views.skip(i + 1));
        if same_str(headers[i].0.as_str(), "host") {
            return visible_text(headers[i].1.as_slice());
        }
        i = i + 1;
    }
    None
}

fn request_host(req: &H3Request) -> (res: Option<String>)
    ensures
        crate::text::opt_text(res) == host_of(req@),
{
    match &req.authority {
        Some(authority) => Some(authority.clone()),
        None => host_header(&req.headers),
    }
}

fn push_header_lines(out: &mut String, headers: &Vec<(String, Vec<u8>)>)
    ensures
        final(out)@ == old(out)@ + header_lines(crate::http::header_views(headers@)),
{
    let ghost views = crate::http::header_views(headers@);
    let ghost start = out@;
    let mut i: usize = 0;
    assert(out@ =~= start + header_lines(views.take(0)));
    while i < headers.len()
        invariant
            i <= headers@.len(),
            views == crate::http::header_views(headers@),
            out@ == start + header_lines(views.take(i as int)),
        decreases headers@.len() - i,
    {
        let ghost next = views.take(i + 1);
        assert(next.drop_last() =~= views.take(i as int));
        assert(next.last() == (headers@[i as int].0@, headers@[i as int].1@));
        let name = headers[i].0.as_str();
        if !(same_str(name, "host") || same_str(name, "connection") || same_str(
            name,
            "transfer-encoding",
        ) || same_str(name, "content-length")) {
            out.append(name);
            out.append(": ");
            if let Some(text) = visible_text(headers[i].1.as_slice()) {
                out.append(text.as_str());
            }
            out.append("\r\n");
            assert(out@ =~= start + header_lines(next));
        }
        i = i + 1;
    }
    assert(views.take(i as int) =~= views);
}

/// The HTTP/1.1 request that stands for an HTTP/3 one.
pub fn h3_to_http1(req: &H3Request, body: &[u8]) -> (out: Vec<u8>)
    ensures
        out@ == http1_request(req@, body@),
{
    let mut head: String = String::new();
    head.append(req.method.as_str());
    head.append(" ");
    match &req.path_and_query {
        Some(p) => head.append(p.as_str()),
        None => head.push('/'),
    }
    head.append(" HTTP/1.1\r\n");
    if let Some(host) = request_host(req) {
        head.append("Host: ");
        head.append(host.as_str());
        head.append("\r\n");
    }
    push_header_lines(&mut head, &req.headers);
    head.append("Content-Length: ");
    push_decimal(&mut head, body.len() as u64);
    head.append("\r\nConnection: close\r\n\r\n");
    assert(head@ =~= http1_head(req@, body@.len()));
    let mut out: Vec<u8> = bytes_of(head.as_str());
    out.extend_from_slice(body);
    assert(out@ =~= http1_request(req@, body@));
    out
}

/// The tunnel that a request is for, where its HTTP/1.1 form says `from_head`.
pub fn tunnel_id_or_host(req: &H3Request, from_head: Option<String>, domain: &str) -> (res: Option<
    String,
>)
    ensures
        crate::text::opt_text(res) == tunnel_of(
            req@,
            crate::text::opt_text(from_head),
            domain@,
        ),
{
    if from_head.is_some() {
        return from_head;
    }
    match request_host(req) {
        Some(host) => extract_tunnel_id_for_domain(host.as_str(), Some(domain)),
        None => None,
    }
}

/// The tunnel that a request is for, given its HTTP/1.1 form.
pub fn tunnel_id_from_h3(req: &H3Request, http1: &[u8], domain: &str) -> (res: Option<String>)
    ensures
        crate::text::opt_text(res) == tunnel_of(
            req@,
            crate::http::tunnel_of_head(http1@, Some(domain@)),
            domain@,
        ),
        http1@.len() == 0 ==> crate::text::opt_text(res) == tunnel_of(req@, None, domain@),
{
    tunnel_id_or_host(req, tunnel_id_from_http_head_in(http1, Some(domain)), domain)
}

// ---------------------------------------------------------------------------
// Responses

/// An HTTP/3 response.
pub struct H3Response {
    pub status: u16,
    pub headers: Vec<(String, String)>,
    pub body: Vec<u8>,
}

/// Headers of an HTTP/1.1 response that HTTP/3 has no use for.
pub open spec fn is_framing_header(name: Seq<char>) -> bool {
    crate::text::same_ignoring_case(name, "connection"@) || crate::text::same_ignoring_case(
        name,
        "transfer-encoding"@,
    ) || crate::text::same_ignoring_case(name, "content-length"@)
}

/// The headers of a response that carry over.
pub open spec fn carried(headers: Seq<(Seq<char>, Seq<char>)>) -> Seq<(Seq<char>, Seq<char>)>
    decreases headers.len(),
{
    if headers.len() == 0 {
        Seq::empty()
    } else if is_framing_header(headers.last().0) {
        carried(headers.drop_last())
    } else {
        carried(headers.drop_last()).push(headers.last())
    }
}

/// What a client gets where the origin's response cannot be read.
pub open spec fn malformed_text() -> Seq<char> {
    "vyse: origin returned a malformed response\n"@
}

fn carried_headers(headers: &Vec<(String, String)>) -> (out: Vec<(String, String)>)
    ensures
        crate::http::pair_views(out@) == carried(crate::http::pair_views(headers@)),
{
    let ghost views = crate::http::pair_views(headers@);
    let mut out: Vec<(String, String)> = Vec::new();
    let mut i: usize = 0;
    assert(crate::http::pair_views(out@) =~= carried(views.take(0)));
    while i < headers.len()
        invariant
            i <= headers@.len(),
            views == crate::http::pair_views(headers@),
            crate::http::pair_views(out@) == carried(views.take(i as int)),
        decreases headers@.len() - i,
    {
        let ghost next = views.take(i + 1);
        assert(next.drop_last() =~= views.take(i as int));
        assert(next.last() == (headers@[i as int].0@, headers@[i as int].1@));
        let ghost before = out@;
        let name = headers[i].0.as_str();
        if !(same_str_ignoring_case(name, "connection") || same_str_ignoring_case(
            name,
            "transfer-encoding",
        ) || same_str_ignoring_case(name, "content-length")) {
            out.push((headers[i].0.clone(), headers[i].1.clone()));
            assert(crate::http::pair_views(out@) =~= crate::http::pair_views(before).push(
                next.last(),
            ));
        }
        i = i + 1;
    }
    assert(views.take(i as int) =~= views);
    out
}

/// The HTTP/3 response for an HTTP/1.1 response that was taken apart, or could
/// not be.
pub fn h3_response(parsed: Result<ParsedResponse, HttpError>) -> (res: H3Response)
    ensures
        match parsed {
            Ok(p) => {
                &&& res.status == p.status
                &&& crate::http::pair_views(res.headers@) == carried(
                    crate::http::pair_views(p.headers@),
                )
                &&& res.body@ == p.body@
            },
            Err(_) => {
                &&& res.status == 502
                &&& crate::http::pair_views(res.headers@) == seq![
                    ("Content-Type"@, "text/plain; charset=utf-8"@),
                ]
                &&& res.body@ == vstd::utf8::encode_utf8(malformed_text())
            },
        },
{
    match parsed {
        Ok(p) => H3Response {
            status: p.status,
            headers: carried_headers(&p.headers),
            body: p.body,
        },
        Err(_) => {
            let mut headers: Vec<(String, String)> = Vec::new();
            headers.push(("Content-Type".to_owned(), "text/plain; charset=utf-8".to_owned()));
            assert(crate::http::pair_views(headers@) =~= seq![
                ("Content-Type"@, "text/plain; charset=utf-8"@),
            ]);
            H3Response {
                status: 502,
                headers,
                body: bytes_of("vyse: origin returned a malformed response\n"),
            }
        },
    }
}

/// The HTTP/3 response for the bytes of an HTTP/1.1 response.
pub fn http1_to_h3(raw: &[u8]) -> (res: H3Response)
    ensures
        crate::http::head_len(raw@) is Some && crate::http::status_of(raw@) is Some ==> {
            &&& crate::http::status_of(raw@) == Some(res.status)
            &&& crate::http::response_parts(raw@, crate::http::MAX_HEADERS as nat) matches Some(
                (code, headers),
            ) && crate::http::pair_views(res.headers@) == carried(
                crate::http::named_headers(headers),
            )
            &&& res.body@ == raw@.skip(crate::http::head_len(raw@)->Some_0)
        },
        crate::http::head_len(raw@) is None || crate::http::status_of(raw@) is None ==> {
            &&& res.status == 502
            &&& crate::http::pair_views(res.headers@) == seq![
                ("Content-Type"@, "text/plain; charset=utf-8"@),
            ]
            &&& res.body@ == vstd::utf8::encode_utf8(malformed_text())
        },
{
    h3_response(parse_http1_response(raw))
}

/// An HTTP/3 response says nothing of how HTTP/1.1 framed it.
pub proof fn law_no_framing_header_carries_over(headers: Seq<(Seq<char>, Seq<char>)>)
    ensures
        forall|i: int|
            0 <= i < carried(headers).len() ==> !is_framing_header(
                (#[trigger] carried(headers)[i]).0,
            ),
        carried(carried(headers)) == carried(headers),
    decreases headers.len(),
{
    if headers.len() > 0 {
        let init = headers.drop_last();
        law_no_framing_header_carries_over(init);
        if !is_framing_header(headers.last().0) {
            let all = carried(headers);
            assert(all.drop_last() =~= carried(init));
            assert forall|i: int| 0 <= i < all.len() implies !is_framing_header(
                (#[trigger] all[i]).0,
            ) by {
                if i < all.len() - 1 {
                    assert(all[i] == carried(init)[i]);
                }
            }
        }
    }
}

// ---------------------------------------------------------------------------
// Decisions

/// What to do with a CONNECT-UDP request.
#[derive(Clone, Copy, Debug, PartialEq, Eq, Structural)]
#[allow(inconsistent_fields)]
pub enum UdpRoute {
    /// Answer with this status.
    Status(u16),
    /// Open a UDP session to the port over the connection.
    Open { conn: u64, port: u16 },
}

/// What becomes of a CONNECT-UDP request for the tunnel `id`: only loopback
/// hosts and ports that the tunnel advertised are relayed to.
pub open spec fn udp_routed(
    tunnels: Map<Seq<char>, crate::registry::TunnelView>,
    id: Option<Seq<char>>,
    path: Seq<char>,
) -> UdpRoute {
    match id {
        None => UdpRoute::Status(400),
        Some(name) => match crate::udp::masque_target(path) {
            Err(_) => UdpRoute::Status(400),
            Ok((host, port)) => if !crate::udp::allowed_host(host) {
                UdpRoute::Status(403)
            } else if !tunnels.contains_key(name) {
                UdpRoute::Status(404)
            } else if !tunnels[name].udp_ports.contains(port) {
                UdpRoute::Status(403)
            } else {
                UdpRoute::Open { conn: tunnels[name].conn, port }
            },
        },
    }
}

fn has_port(ports: &Vec<u16>, port: u16) -> (res: bool)
    ensures
        res == ports@.contains(port),
{
    let mut i: usize = 0;
    while i < ports.len()
        invariant
            i <= ports@.len(),
            forall|j: int| 0 <= j < i ==> ports@[j] != port,
        decreases ports@.len() - i,
    {
        if ports[i] == port {
            return true;
        }
        i = i + 1;
    }
    false
}

/// What a request without a tunnel id is told over HTTP/3.
pub open spec fn h3_missing_text() -> Seq<char> {
    "vyse: missing tunnel id on HTTP/3 request\n"@
}

impl Hub {
    /// What becomes of a CONNECT-UDP request for that tunnel.
    pub fn route_udp(&self, id: Option<String>, path: &str) -> (res: UdpRoute)
        ensures
            res == udp_routed(self@.tunnels, crate::text::opt_text(id), path@),
    {
        let name: String = match id {
            Some(name) => name,
            None => {
                return UdpRoute::Status(400);
            },
        };
        match parse_masque_udp_path(path) {
            Err(_) => UdpRoute::Status(400),
            Ok((host, port)) => {
                if !is_allowed_masque_host(host.as_str()) {
                    return UdpRoute::Status(403);
                }
                match self.registry.get(name.as_str()) {
                    None => UdpRoute::Status(404),
                    Some(tunnel) => if has_port(&tunnel.udp_ports, port) {
                        UdpRoute::Open { conn: tunnel.conn, port }
                    } else {
                        UdpRoute::Status(403)
                    },
                }
            },
        }
    }

    /// What becomes of a CONNECT-UDP request.
    pub fn route_connect_udp(&self, req: &H3Request) -> (res: UdpRoute)
        ensures
            res == udp_routed(
                self@.tunnels,
                tunnel_of(req@, None, self@.domain),
                req@.path,
            ),
    {
        let none: Vec<u8> = Vec::new();
        let id = tunnel_id_from_h3(req, none.as_slice(), self.domain.as_str());
        self.route_udp(id, req.path.as_str())
    }

    /// What becomes of an HTTP/3 request: it is routed as the HTTP/1.1 request
    /// that stands for it.
    pub fn route_h3(&self, req: &H3Request, body: &[u8]) -> (res: HttpRoute)
        ensures
            res@ == crate::gateway::routed(
                self@.tunnels,
                tunnel_of(
                    req@,
                    crate::http::tunnel_of_head(http1_request(req@, body@), Some(self@.domain)),
                    self@.domain,
                ),
                req@.path_and_query,
                http1_request(req@, body@),
                h3_missing_text(),
            ),
    {
        let http1: Vec<u8> = h3_to_http1(req, body);
        let id = tunnel_id_from_h3(req, http1.as_slice(), self.domain.as_str());
        self.route(
            id,
            opt_clone(&req.path_and_query),
            http1.as_slice(),
            "vyse: missing tunnel id on HTTP/3 request\n",
        )
    }
}

/// UDP reaches only ports that the tunnel's CLI advertised, and only where the
/// request names a loopback host.
pub proof fn law_udp_reaches_advertised_ports_only(
    tunnels: Map<Seq<char>, crate::registry::TunnelView>,
    id: Option<Seq<char>>,
    path: Seq<char>,
)
    requires
        udp_routed(tunnels, id, path) is Open,
    ensures
        udp_routed(tunnels, id, path) matches UdpRoute::Open { conn, port } && id matches Some(name)
            && {
            &&& tunnels.contains_key(name)
            &&& conn == tunnels[name].conn
            &&& tunnels[name].udp_ports.contains(port)
            &&& crate::udp::masque_target(path) matches Ok((host, p)) && p == port
                && crate::udp::allowed_host(host)
        },
{
}

/// The URL that a CLI prints for an advertised UDP port opens a session to it.
pub proof fn law_printed_masque_path_opens(
    tunnels: Map<Seq<char>, crate::registry::TunnelView>,
    name: Seq<char>,
    port: u16,
)
    requires
        tunnels.contains_key(name),
        tunnels[name].udp_ports.contains(port),
    ensures
        udp_routed(tunnels, Some(name), crate::udp::masque_path(port)) == (UdpRoute::Open {
            conn: tunnels[name].conn,
            port,
        }),
{
    crate::udp::law_masque_url_names_its_port(port);
}

/// The text of a value whose bytes are visible ASCII, spaces and tabs is those
/// characters, one by one; any other value has no text.
pub proof fn law_visible_values_have_text(value: Seq<u8>)
    ensures
        (forall|i: int| 0 <= i < value.len() ==> 32 <= (#[trigger] value[i]) <= 126 || value[i] == 9)
            ==> value_text(value) == Some(Seq::new(value.len(), |i: int| value[i] as char)),
        (exists|i: int|
            0 <= i < value.len() && !(32 <= (#[trigger] value[i]) <= 126 || value[i] == 9))
            ==> value_text(value) is None,
{
    if forall|i: int| 0 <= i < value.len() ==> 32 <= (#[trigger] value[i]) <= 126 || value[i] == 9 {
        assert forall|i: int| 0 <= i < value.len() implies is_visible(#[trigger] value[i]) by {}
        assert(value.map_values(|b: u8| b as char) =~= Seq::new(
            value.len(),
            |i: int| value[i] as char,
        ));
    } else {
        let i = choose|i: int|
            0 <= i < value.len() && !(32 <= (#[trigger] value[i]) <= 126 || value[i] == 9);
        assert(!is_visible(value[i]));
    }
}

/// Every header of an HTTP/3 request but the four that HTTP/1.1 says anew stands
/// in the HTTP/1.1 head, in order, on a line of its own; one whose value cannot
/// be shown stands there without it.
pub proof fn law_other_headers_carry_over(
    headers: crate::http::HeaderViews,
    name: Seq<char>,
    value: Seq<u8>,
)
    requires
        name != "host"@,
        name != "connection"@,
        name != "transfer-encoding"@,
        name != "content-length"@,
    ensures
        header_lines(headers.push((name, value))) == header_lines(headers) + name + ": "@ + (
        match value_text(value) {
            Some(text) => text,
            None => Seq::empty(),
        }) + "\r\n"@,
{
    assert(headers.push((name, value)).drop_last() =~= headers);
    assert(header_lines(headers.push((name, value))) =~= header_lines(headers) + name + ": "@ + (
    match value_text(value) {
        Some(text) => text,
        None => Seq::empty(),
    }) + "\r\n"@);
}

/// The four headers that HTTP/1.1 says anew do not carry over.
pub proof fn law_four_headers_are_said_anew(
    headers: crate::http::HeaderViews,
    name: Seq<char>,
    value: Seq<u8>,
)
    requires
        name == "host"@ || name == "connection"@ || name == "transfer-encoding"@ || name
            == "content-length"@,
    ensures
        header_lines(headers.push((name, value))) == header_lines(headers),
        header_lines(Seq::empty()).len() == 0,
{
    assert(headers.push((name, value)).drop_last() =~= headers);
}

/// The HTTP/1.1 form of an HTTP/3 request: its method and target, the host that
/// it is for, the headers that carry over, the length of the body, and the body.
pub proof fn law_http1_form(req: H3RequestView, body: Seq<u8>)
    ensures
        http1_request(req, body) == vstd::utf8::encode_utf8(
            req.method + seq![' '] + (match req.path_and_query {
                Some(target) => target,
                None => seq!['/'],
            }) + " HTTP/1.1\r\n"@ + (match (req.authority, host_text(req.headers)) {
                (Some(host), _) => "Host: "@ + host + "\r\n"@,
                (None, Some(host)) => "Host: "@ + host + "\r\n"@,
                (None, None) => Seq::empty(),
            }) + header_lines(req.headers) + "Content-Length: "@ + crate::number::decimal(
                body.len(),
            ) + "\r\nConnection: close\r\n\r\n"@,
        ) + body,
{
    reveal_strlit(" ");
    assert(" "@ =~= seq![' ']);
}

/// The `host` header that counts is the first of that name, if its value can be
/// shown.
pub proof fn law_first_host_counts(
    before: crate::http::HeaderViews,
    value: Seq<u8>,
    after: crate::http::HeaderViews,
)
    requires
        forall|i: int| 0 <= i < before.len() ==> (#[trigger] before[i]).0 != "host"@,
    ensures
        host_text(before + seq![("host"@, value)] + after) == value_text(value),
        host_text(before) is None,
    decreases before.len(),
{
    let all = before + seq![("host"@, value)] + after;
    if before.len() == 0 {
        assert(all[0] == ("host"@, value));
    } else {
        let fewer = before.drop_first();
        assert forall|i: int| 0 <= i < fewer.len() implies (#[trigger] fewer[i]).0 != "host"@ by {
            assert(fewer[i] == before[i + 1]);
        }
        assert(all[0] == before[0]);
        assert(all.drop_first() =~= fewer + seq![("host"@, value)] + after);
        law_first_host_counts(fewer, value, after);
    }
}

/// A header of a response carries over to HTTP/3, name and value as they are and
/// in order, unless it speaks of the HTTP/1.1 connection, in any letter case.
pub proof fn law_response_headers_carry_over(
    headers: Seq<(Seq<char>, Seq<char>)>,
    name: Seq<char>,
    value: Seq<char>,
)
    ensures
        carried(Seq::empty()).len() == 0,
        crate::text::lower(name) == "connection"@ || crate::text::lower(name)
            == "transfer-encoding"@ || crate::text::lower(name) == "content-length"@
            ==> carried(headers.push((name, value))) == carried(headers),
        crate::text::lower(name) != "connection"@ && crate::text::lower(name)
            != "transfer-encoding"@ && crate::text::lower(name) != "content-length"@
            ==> carried(headers.push((name, value))) == carried(headers).push((name, value)),
{
    assert(headers.push((name, value)).drop_last() =~= headers);
    reveal_strlit("connection");
    reveal_strlit("transfer-encoding");
    reveal_strlit("content-length");
    assert(crate::text::lower("connection"@) =~= "connection"@);
    assert(crate::text::lower("transfer-encoding"@) =~= "transfer-encoding"@);
    assert(crate::text::lower("content-length"@) =~= "content-length"@);
}

/// The tunnel of an HTTP/3 request: what its HTTP/1.1 form says, else the label in
/// front of the domain in its authority, and only without one that in its `host`
/// header.
pub proof fn law_h3_tunnel(
    req: H3RequestView,
    from_head: Option<Seq<char>>,
    domain: Seq<char>,
)
    ensures
        from_head is Some ==> tunnel_of(req, from_head, domain) == from_head,
        from_head is None ==> tunnel_of(req, from_head, domain) == (match req.authority {
            Some(host) => crate::http::tunnel_id_of_host(host, Some(domain)),
            None => match host_text(req.headers) {
                Some(host) => crate::http::tunnel_id_of_host(host, Some(domain)),
                None => None,
            },
        }),
{
}

/// What a CONNECT-UDP request is answered: 400 without a tunnel id or a target,
/// 403 for a host that is not this machine, 404 for a name without a tunnel, 403
/// for a port that was not advertised. Every other one is opened.
pub proof fn law_connect_udp_answers(
    tunnels: Map<Seq<char>, crate::registry::TunnelView>,
    name: Seq<char>,
    path: Seq<char>,
    host: Seq<char>,
    port: u16,
)
    ensures
        udp_routed(tunnels, None, path) == UdpRoute::Status(400),
        crate::udp::masque_target(path) is Err ==> udp_routed(tunnels, Some(name), path)
            == UdpRoute::Status(400),
        crate::udp::masque_target(path) == Ok::<(Seq<char>, u16), crate::udp::MasqueError>(
            (host, port),
        ) ==> udp_routed(tunnels, Some(name), path) == (if host != "127.0.0.1"@ && host
            != "localhost"@ && host != "::1"@ && host != "[::1]"@ {
            UdpRoute::Status(403)
        } else if !tunnels.contains_key(name) {
            UdpRoute::Status(404)
        } else if exists|i: int|
            0 <= i < tunnels[name].udp_ports.len() && tunnels[name].udp_ports[i] == port {
            UdpRoute::Open { conn: tunnels[name].conn, port }
        } else {
            UdpRoute::Status(403)
        }),
{
}

/// A response keeps its status and its body; one that cannot be taken apart is
/// answered 502 with the reason as text.
pub proof fn law_responses_over_h3(
    parsed: Result<ParsedResponse, HttpError>,
    res: H3Response,
    raw: &[u8],
    other: H3Response,
)
    requires
        call_ensures(h3_response, (parsed,), res),
        call_ensures(http1_to_h3, (raw,), other),
    ensures
        parsed matches Ok(p) ==> res.status == p.status && res.body@ == p.body@,
        parsed is Err ==> res.status == 502 && res.body@ == vstd::utf8::encode_utf8(
            "vyse: origin returned a malformed response\n"@,
        ) && res.headers@.len() == 1 && res.headers@[0].0@ == "Content-Type"@
            && res.headers@[0].1@ == "text/plain; charset=utf-8"@,
        match (crate::http::head_len(raw@), crate::http::status_of(raw@)) {
            (Some(end), Some(code)) => other.status == code && other.body@ == raw@.skip(end),
            _ => other.status == 502 && other.body@ == vstd::utf8::encode_utf8(
                "vyse: origin returned a malformed response\n"@,
            ),
        },
{
    if parsed is Err {
        let views = crate::http::pair_views(res.headers@);
        assert(views.len() == 1);
        assert(views[0] == (res.headers@[0].0@, res.headers@[0].1@));
    }
}

/// An HTTP/3 request goes where its HTTP/1.1 form goes: to the tunnel that this
/// names, or else its host, with its path; one without a tunnel is told so.
pub proof fn law_h3_requests_go_on(hub: &Hub, req: &H3Request, body: &[u8], res: HttpRoute)
    requires
        call_ensures(Hub::route_h3, (hub, req, body), res),
    ensures
        ({
            let form = vstd::utf8::encode_utf8(http1_head(req@, body@.len())) + body@;
            let id = match crate::http::tunnel_of_head(form, Some(hub@.domain)) {
                Some(id) => Some(id),
                None => match (req@.authority, host_text(req@.headers)) {
                    (Some(host), _) => crate::http::tunnel_id_of_host(host, Some(hub@.domain)),
                    (None, Some(host)) => crate::http::tunnel_id_of_host(
                        host,
                        Some(hub@.domain),
                    ),
                    (None, None) => None,
                },
            };
            let path = match req@.path_and_query {
                Some(path) => path,
                None => seq!['/'],
            };
            match id {
                None => res@ == crate::gateway::HttpRouteView::Answer(
                    vstd::utf8::encode_utf8(
                        crate::http::error_response(
                            400,
                            "Bad Request"@,
                            "vyse: missing tunnel id on HTTP/3 request\n"@,
                        ),
                    ),
                ),
                Some(name) => hub@.tunnels.contains_key(name) ==> (crate::routes::routed_port(
                    hub@.tunnels[name].routes,
                    path,
                ) matches Some(port) ==> res@ == (crate::gateway::HttpRouteView::Forward {
                    conn: hub@.tunnels[name].conn,
                    message: seq![(port / 256) as u8, (port % 256) as u8] + form,
                })),
            }
        }),
{
    let form = http1_request(req@, body@);
    let id = tunnel_of(
        req@,
        crate::http::tunnel_of_head(form, Some(hub@.domain)),
        hub@.domain,
    );
    if let Some(name) = id {
        crate::gateway::law_where_requests_go(
            hub@.tunnels,
            name,
            match req@.path_and_query {
                Some(path) => path,
                None => seq!['/'],
            },
            form,
            h3_missing_text(),
        );
    }
}

/// The HTTP/1.1 form of a request is its head and its body; the tunnel is what that
/// names, or else what the host does.
pub proof fn law_forms_of_requests(
    req: &H3Request,
    body: &[u8],
    form: Vec<u8>,
    from_head: Option<String>,
    domain: &str,
    id: Option<String>,
)
    requires
        call_ensures(h3_to_http1, (req, body), form),
        call_ensures(tunnel_id_or_host, (req, from_head, domain), id),
    ensures
        form@ == vstd::utf8::encode_utf8(http1_head(req@, body@.len())) + body@,
        from_head matches Some(name) ==> crate::text::opt_text(id) == Some(name@),
        from_head is None ==> match (req@.authority, host_text(req@.headers)) {
            (Some(host), _) => crate::text::opt_text(id) == crate::http::tunnel_id_of_host(
                host,
                Some(domain@),
            ),
            (None, Some(host)) => crate::text::opt_text(id) == crate::http::tunnel_id_of_host(
                host,
                Some(domain@),
            ),
            (None, None) => id is None,
        },
{
}

/// A CONNECT-UDP request opens a session over the connection of the tunnel that its
/// host names, to the port in its path, where that is a loopback target that the
/// tunnel advertised; else it is answered 400, 403 or 404.
pub proof fn law_connect_udp_requests(hub: &Hub, req: &H3Request, res: UdpRoute)
    requires
        call_ensures(Hub::route_connect_udp, (hub, req), res),
    ensures
        ({
            let host = match req@.authority {
                Some(host) => Some(host),
                None => host_text(req@.headers),
            };
            let id = match host {
                Some(host) => crate::http::tunnel_id_of_host(host, Some(hub@.domain)),
                None => None,
            };
            match (id, crate::udp::masque_target(req@.path)) {
                (Some(name), Ok((target, port))) => {
                    let loopback = target == "127.0.0.1"@ || target == "localhost"@ || target
                        == "::1"@ || target == "[::1]"@;
                    let live = hub@.tunnels.contains_key(name);
                    &&& !loopback ==> res == UdpRoute::Status(403)
                    &&& loopback && !live ==> res == UdpRoute::Status(404)
                    &&& loopback && live && !hub@.tunnels[name].udp_ports.contains(port) ==> res
                        == UdpRoute::Status(403)
                    &&& loopback && live && hub@.tunnels[name].udp_ports.contains(port) ==> res == (
                    UdpRoute::Open { conn: hub@.tunnels[name].conn, port })
                },
                _ => res == UdpRoute::Status(400),
            }
        }),
{
}

} // verus!
