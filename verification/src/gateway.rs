//! Public HTTP requests: which tunnel they go to, and what they are answered
//! where there is none.
use vstd::prelude::*;

use crate::http::{
    header_value, http_error_response, request_path, tunnel_id_from_http_head_in,
};
use crate::render::debug_routes;
use crate::routes::match_route;
use crate::session::Hub;
use crate::stream::write_port_header;
use crate::text::same_str_ignoring_case;

verus! {

/// What to do with a request.
#[allow(inconsistent_fields)]
pub enum HttpRoute {
    /// Send this and close.
    Answer(Vec<u8>),
    /// Send the message on a new stream of the connection, and give back what
    /// comes.
    Forward { conn: u64, message: Vec<u8> },
}

#[verifier::ext_equal]
#[allow(inconsistent_fields)]
pub ghost enum HttpRouteView {
    Answer(Seq<u8>),
    Forward { conn: u64, message: Seq<u8> },
}

impl View for HttpRoute {
    type V = HttpRouteView;

    open spec fn view(&self) -> HttpRouteView {
        match self {
            HttpRoute::Answer(bytes) => HttpRouteView::Answer(bytes@),
            HttpRoute::Forward { conn, message } => HttpRouteView::Forward {
                conn: *conn,
                message: message@,
            },
        }
    }
}

/// An error response on the wire.
pub open spec fn answer(status: u16, reason: Seq<char>, body: Seq<char>) -> Seq<u8> {
    vstd::utf8::encode_utf8(crate::http::error_response(status, reason, body))
}

/// What a request without a tunnel id is told over HTTP/1.1.
pub open spec fn missing_text(domain: Seq<char>) -> Seq<char> {
    "vyse: missing tunnel id. Use Host: <subdomain>."@ + domain + " or X-Vyse-Tunnel.\n"@
}

/// What a request for a name without a tunnel is told.
pub open spec fn no_tunnel_text(id: Seq<char>) -> Seq<char> {
    "vyse: no active tunnel for `"@ + id + "`\n"@
}

/// Why a request does not reach a local port.
pub open spec fn no_port_text(
    path: Seq<char>,
    routes: Seq<crate::protocol::RouteView>,
) -> Seq<char> {
    "no local port mapped for path `"@ + path + "` (routes: "@ + crate::render::routes_text(routes)
        + ")"@
}

/// What a request that could not be forwarded is told.
pub open spec fn gateway_answer(error: Seq<char>) -> Seq<u8> {
    answer(502, "Bad Gateway"@, "vyse: "@ + error + "\n"@)
}

/// A request to a tunnel: the local port that its path leads to, then itself.
pub open spec fn forwarded(
    tunnel: crate::registry::TunnelView,
    path: Seq<char>,
    request: Seq<u8>,
) -> HttpRouteView {
    match crate::routes::routed_port(tunnel.routes, path) {
        Some(port) => HttpRouteView::Forward {
            conn: tunnel.conn,
            message: crate::stream::port_header(port) + request,
        },
        None => HttpRouteView::Answer(gateway_answer(no_port_text(path, tunnel.routes))),
    }
}

/// What becomes of a request whose head carries the tunnel id `id` and the
/// path `path`; one without an id is told `missing`.
pub open spec fn routed(
    tunnels: Map<Seq<char>, crate::registry::TunnelView>,
    id: Option<Seq<char>>,
    path: Option<Seq<char>>,
    request: Seq<u8>,
    missing: Seq<char>,
) -> HttpRouteView {
    match id {
        None => HttpRouteView::Answer(answer(400, "Bad Request"@, missing)),
        Some(name) => if !tunnels.contains_key(name) {
            HttpRouteView::Answer(answer(404, "Not Found"@, no_tunnel_text(name)))
        } else {
            forwarded(
                tunnels[name],
                match path {
                    Some(p) => p,
                    None => seq!['/'],
                },
                request,
            )
        },
    }
}

/// The client asks to close the connection behind the request.
pub open spec fn asks_to_close(connection: Option<Seq<char>>) -> bool {
    match connection {
        Some(v) => crate::text::same_ignoring_case(v, "close"@),
        None => false,
    }
}

/// What a request that could not be forwarded is told.
pub fn bad_gateway(error: &str) -> (out: Vec<u8>)
    ensures
        out@ == gateway_answer(error@),
{
    let mut body: String = String::new();
    body.append("vyse: ");
    body.append(error);
    body.append("\n");
    assert(body@ =~= "vyse: "@ + error@ + "\n"@);
    http_error_response(502, "Bad Gateway", body.as_str())
}

/// The Connection header asks to close.
pub fn close_asked(connection: &Option<String>) -> (res: bool)
    ensures
        res == asks_to_close(crate::text::opt_text(*connection)),
{
    match connection {
        Some(v) => same_str_ignoring_case(v.as_str(), "close"),
        None => false,
    }
}

/// What the client is sent once a request was forwarded, or why that failed,
/// and whether the connection is closed behind it.
pub fn finish_http1(request: &[u8], result: Result<Vec<u8>, String>) -> (res: (Vec<u8>, bool))
    ensures
        match result {
            Ok(response) => res.0@ == response@ && res.1 == asks_to_close(
                crate::http::header_of(request@, "connection"@),
            ),
            Err(error) => res.0@ == gateway_answer(error@) && res.1,
        },
{
    match result {
        Ok(response) => (response, close_asked(&header_value(request, "connection"))),
        Err(error) => (bad_gateway(error.as_str()), true),
    }
}

impl Hub {
    /// What becomes of a request whose head carries that tunnel id and path.
    pub fn route(
        &self,
        id: Option<String>,
        path: Option<String>,
        request: &[u8],
        missing: &str,
    ) -> (res: HttpRoute)
        ensures
            res@ == routed(
                self@.tunnels,
                crate::text::opt_text(id),
                crate::text::opt_text(path),
                request@,
                missing@,
            ),
    {
        let name: String = match id {
            Some(name) => name,
            None => {
                return HttpRoute::Answer(http_error_response(400, "Bad Request", missing));
            },
        };
        let tunnel = match self.registry.get(name.as_str()) {
            Some(tunnel) => tunnel,
            None => {
                let mut body: String = String::new();
                body.append("vyse: no active tunnel for `");
                body.append(name.as_str());
                body.append("`\n");
                assert(body@ =~= no_tunnel_text(name@));
                return HttpRoute::Answer(http_error_response(404, "Not Found", body.as_str()));
            },
        };
        let path: String = match path {
            Some(p) => p,
            None => {
                let mut root: String = String::new();
                root.push('/');
                assert(root@ =~= seq!['/']);
                root
            },
        };
        match match_route(tunnel.routes.as_slice(), path.as_str()) {
            Some(port) => {
                let mut message: Vec<u8> = write_port_header(port);
                message.extend_from_slice(request);
                assert(message@ =~= crate::stream::port_header(port) + request@);
                HttpRoute::Forward { conn: tunnel.conn, message }
            },
            None => {
                let mut error: String = String::new();
                error.append("no local port mapped for path `");
                error.append(path.as_str());
                error.append("` (routes: ");
                error.append(debug_routes(tunnel.routes.as_slice()).as_str());
                error.append(")");
                assert(error@ =~= no_port_text(path@, tunnel@.routes));
                HttpRoute::Answer(bad_gateway(error.as_str()))
            },
        }
    }

    /// What becomes of a complete HTTP/1.1 request.
    pub fn route_http1(&self, request: &[u8]) -> (res: HttpRoute)
        ensures
            res@ == routed(
                self@.tunnels,
                crate::http::tunnel_of_head(request@, Some(self@.domain)),
                crate::http::path_of(request@),
                request@,
                missing_text(self@.domain),
            ),
    {
        let id = tunnel_id_from_http_head_in(request, Some(self.domain.as_str()));
        let mut missing: String = String::new();
        missing.append("vyse: missing tunnel id. Use Host: <subdomain>.");
        missing.append(self.domain.as_str());
        missing.append(" or X-Vyse-Tunnel.\n");
        assert(missing@ =~= missing_text(self@.domain));
        self.route(id, request_path(request), request, missing.as_str())
    }
}

/// As soon as a tunnel is accepted, requests for its name go to its connection,
/// on the port that their path leads to.
pub proof fn law_accepted_tunnel_is_reached(
    hub: crate::session::HubView,
    conn: u64,
    state: crate::session::StateView,
    event: crate::session::EventView,
    path: Seq<char>,
    request: Seq<u8>,
    missing: Seq<char>,
)
    requires
        crate::session::stepped(hub, conn, state, event).action is Accept,
    ensures
        crate::session::stepped(hub, conn, state, event).state matches crate::session::StateView::Live(
            name,
        ) && {
            let tunnels = crate::session::stepped(hub, conn, state, event).hub.tunnels;
            match crate::routes::routed_port(tunnels[name].routes, path) {
                Some(port) => routed(tunnels, Some(name), Some(path), request, missing)
                    == (HttpRouteView::Forward {
                    conn,
                    message: crate::stream::port_header(port) + request,
                }),
                None => routed(tunnels, Some(name), Some(path), request, missing)
                    == HttpRouteView::Answer(
                    gateway_answer(no_port_text(path, tunnels[name].routes)),
                ),
            }
        },
{
    crate::session::law_step_and_tunnels(hub, conn, state, event);
}

/// Once a live session is lost, requests for its name are answered 404.
pub proof fn law_lost_tunnel_is_gone(
    hub: crate::session::HubView,
    conn: u64,
    name: Seq<char>,
    path: Option<Seq<char>>,
    request: Seq<u8>,
    missing: Seq<char>,
)
    ensures
        routed(
            crate::session::stepped(
                hub,
                conn,
                crate::session::StateView::Live(name),
                crate::session::EventView::Lost,
            ).hub.tunnels,
            Some(name),
            path,
            request,
            missing,
        ) == HttpRouteView::Answer(answer(404, "Not Found"@, no_tunnel_text(name))),
{
}

/// A session's step does not change where requests for other names go.
pub proof fn law_other_names_are_left_alone(
    hub: crate::session::HubView,
    conn: u64,
    state: crate::session::StateView,
    event: crate::session::EventView,
    other: Seq<char>,
    path: Option<Seq<char>>,
    request: Seq<u8>,
    missing: Seq<char>,
)
    requires
        state != crate::session::StateView::Live(other),
        crate::session::stepped(hub, conn, state, event).state != crate::session::StateView::Live(
            other,
        ),
    ensures
        routed(
            crate::session::stepped(hub, conn, state, event).hub.tunnels,
            Some(other),
            path,
            request,
            missing,
        ) == routed(hub.tunnels, Some(other), path, request, missing),
{
    crate::session::law_step_and_tunnels(hub, conn, state, event);
}

/// A request goes to the tunnel that its id names: over the tunnel's connection,
/// with the port that its path leads to in front, high byte first. One without an
/// id, with an unknown id, or with a path that leads nowhere is answered with the
/// reason. Without a path it goes where `/` leads.
pub proof fn law_where_requests_go(
    tunnels: Map<Seq<char>, crate::registry::TunnelView>,
    name: Seq<char>,
    path: Seq<char>,
    request: Seq<u8>,
    missing: Seq<char>,
)
    ensures
        routed(tunnels, None, Some(path), request, missing) == HttpRouteView::Answer(
            vstd::utf8::encode_utf8(
                crate::http::error_response(400, "Bad Request"@, missing),
            ),
        ),
        !tunnels.contains_key(name) ==> routed(tunnels, Some(name), Some(path), request, missing)
            == HttpRouteView::Answer(
            vstd::utf8::encode_utf8(
                crate::http::error_response(
                    404,
                    "Not Found"@,
                    "vyse: no active tunnel for `"@ + name + "`\n"@,
                ),
            ),
        ),
        tunnels.contains_key(name) ==> match crate::routes::routed_port(
            tunnels[name].routes,
            path,
        ) {
            Some(port) => routed(tunnels, Some(name), Some(path), request, missing)
                == HttpRouteView::Forward {
                conn: tunnels[name].conn,
                message: seq![(port / 256) as u8, (port % 256) as u8] + request,
            },
            None => routed(tunnels, Some(name), Some(path), request, missing)
                == HttpRouteView::Answer(
                vstd::utf8::encode_utf8(
                    crate::http::error_response(
                        502,
                        "Bad Gateway"@,
                        "vyse: no local port mapped for path `"@ + path + "` (routes: "@
                            + crate::render::routes_text(tunnels[name].routes) + ")\n"@,
                    ),
                ),
            ),
        },
        routed(tunnels, Some(name), None, request, missing) == routed(
            tunnels,
            Some(name),
            Some(seq!['/']),
            request,
            missing,
        ),
        routed(tunnels, None, None, request, missing) == routed(
            tunnels,
            None,
            Some(path),
            request,
            missing,
        ),
{
    reveal_strlit("vyse: ");
    reveal_strlit("\n");
    reveal_strlit(")");
    reveal_strlit(")\n");
    reveal_strlit("no local port mapped for path `");
    reveal_strlit("vyse: no local port mapped for path `");
    if tunnels.contains_key(name) {
        let routes = tunnels[name].routes;
        match crate::routes::routed_port(routes, path) {
            Some(port) => {
                crate::stream::law_port_bytes(
                    (port / 256) as u8,
                    (port % 256) as u8,
                    Seq::empty(),
                );
                assert(crate::stream::port_header(port) =~= seq![
                    (port / 256) as u8,
                    (port % 256) as u8,
                ]);
            },
            None => {
                assert("vyse: "@ + no_port_text(path, routes) + "\n"@
                    =~= "vyse: no local port mapped for path `"@ + path + "` (routes: "@
                    + crate::render::routes_text(routes) + ")\n"@);
            },
        }
    }
}

/// A connection is closed behind a request whose Connection header is `close` in
/// any letter case, and behind no other; what is said of a failed request.
pub proof fn law_when_connections_close(connection: Seq<char>, error: Seq<char>, domain: Seq<char>)
    ensures
        asks_to_close(Some(connection)) <==> crate::text::lower(connection) == "close"@,
        !asks_to_close(None),
        gateway_answer(error) == vstd::utf8::encode_utf8(
            crate::http::error_response(502, "Bad Gateway"@, "vyse: "@ + error + "\n"@),
        ),
        missing_text(domain) == "vyse: missing tunnel id. Use Host: <subdomain>."@ + domain
            + " or X-Vyse-Tunnel.\n"@,
{
    reveal_strlit("close");
    assert(crate::text::lower("close"@) =~= "close"@);
}

/// What the client is sent is what came back, and the connection stays open unless
/// the request asked to close it; where forwarding failed, it is sent the reason and
/// the connection is closed.
pub proof fn law_what_clients_are_sent(
    request: &[u8],
    result: Result<Vec<u8>, String>,
    res: (Vec<u8>, bool),
)
    requires
        call_ensures(finish_http1, (request, result), res),
    ensures
        result matches Ok(response) ==> res.0@ == response@ && (res.1 <==> (
        crate::http::header_of(request@, "connection"@) matches Some(v) && crate::text::lower(v)
            == "close"@)),
        result matches Err(error) ==> res.1 && res.0@ == vstd::utf8::encode_utf8(
            crate::http::error_response(502, "Bad Gateway"@, "vyse: "@ + error@ + "\n"@),
        ),
{
    reveal_strlit("close");
    assert(crate::text::lower("close"@) =~= "close"@);
}

/// A request that is written with the tunnel's host name, whatever its letter case,
/// is sent on over the tunnel's connection with the port that its target leads to in
/// front. So is one that names the tunnel in its X-Vyse-Tunnel header.
pub proof fn law_a_request_reaches_its_port(
    hub: &Hub,
    request: &[u8],
    res: HttpRoute,
    method: Seq<char>,
    target: Seq<char>,
    label: Seq<char>,
    body: Seq<u8>,
    port: u16,
)
    requires
        call_ensures(Hub::route_http1, (hub, request), res),
        crate::http::is_name(method),
        target.len() > 0,
        forall|i: int| 0 <= i < target.len() ==> '!' <= #[trigger] target[i] <= '~',
        label.len() > 0,
        forall|i: int|
            0 <= i < label.len() ==> '!' <= #[trigger] label[i] <= '~' && label[i] != '.'
                && label[i] != ':',
        hub@.domain.len() > 0,
        hub@.domain[0] != '.',
        forall|i: int|
            0 <= i < hub@.domain.len() ==> '!' <= #[trigger] hub@.domain[i] <= '~'
                && hub@.domain[i] != ':',
        crate::text::lower(hub@.domain) == hub@.domain,
        request@ == crate::http::request_head(
            method,
            target,
            "Host"@ + seq![':', ' '] + (label + seq!['.'] + hub@.domain),
        ) + body || request@ == crate::http::request_head(
            method,
            target,
            "X-Vyse-Tunnel"@ + seq![':', ' '] + label,
        ) + body,
        hub@.tunnels.contains_key(crate::text::lower(label)),
        crate::routes::routed_port(hub@.tunnels[crate::text::lower(label)].routes, target) == Some(
            port,
        ),
    ensures
        res@ == (HttpRouteView::Forward {
            conn: hub@.tunnels[crate::text::lower(label)].conn,
            message: seq![(port / 256) as u8, (port % 256) as u8] + request@,
        }),
{
    let host = label + seq!['.'] + hub@.domain;
    let apex = Some(hub@.domain);
    let id = crate::text::lower(label);
    lemma_two_headers();
    assert forall|i: int| 0 <= i < host.len() implies '!' <= #[trigger] host[i] <= '~' by {
        if i < label.len() {
            assert(host[i] == label[i]);
        } else if i > label.len() {
            assert(host[i] == hub@.domain[i - label.len() - 1]);
        }
    }
    assert forall|i: int| 0 <= i < label.len() implies !crate::text::is_space(#[trigger] label[i]) by {
        assert('!' <= label[i] <= '~');
    }
    assert forall|i: int| 0 <= i < hub@.domain.len() implies !crate::text::is_space(
        #[trigger] hub@.domain[i],
    ) by {
        assert('!' <= hub@.domain[i] <= '~');
    }
    crate::http::law_requests_with_one_header(method, target, "Host"@, host, body, apex);
    crate::http::law_requests_with_one_header(method, target, "X-Vyse-Tunnel"@, label, body, apex);
    crate::http::law_subdomain_host_names_its_tunnel(label, hub@.domain, Seq::empty());
    vstd::utf8::encode_utf8_valid_utf8(host);
    vstd::utf8::encode_utf8_decode_utf8(host);
    vstd::utf8::encode_utf8_valid_utf8(label);
    vstd::utf8::encode_utf8_decode_utf8(label);
    crate::text::lemma_trim_none(label);
    let by_host = seq![("Host"@, vstd::utf8::encode_utf8(host))];
    let by_name = seq![("X-Vyse-Tunnel"@, vstd::utf8::encode_utf8(label))];
    crate::http::law_first_host_header_decides(by_host, 0, apex);
    crate::http::law_override_header_wins(by_name, 0, apex);
    assert(crate::http::tunnel_of_head(request@, apex) == Some(id));
    assert(crate::http::path_of(request@) == Some(target));
    law_where_requests_go(hub@.tunnels, id, target, request@, missing_text(hub@.domain));
}

proof fn lemma_two_headers()
    ensures
        crate::http::is_name("Host"@),
        crate::http::is_name("X-Vyse-Tunnel"@),
        crate::text::same_ignoring_case("Host"@, "host"@),
        crate::text::same_ignoring_case("X-Vyse-Tunnel"@, "x-vyse-tunnel"@),
        !crate::text::same_ignoring_case("Host"@, "x-vyse-tunnel"@),
{
    reveal_strlit("Host");
    reveal_strlit("host");
    reveal_strlit("X-Vyse-Tunnel");
    reveal_strlit("x-vyse-tunnel");
    assert(crate::text::lower("Host"@) =~= crate::text::lower("host"@));
    assert(crate::text::lower("X-Vyse-Tunnel"@) =~= crate::text::lower("x-vyse-tunnel"@));
    assert(crate::text::lower("Host"@).len() == 4);
    assert(crate::text::lower("x-vyse-tunnel"@).len() == 13);
}

/// What a request without a tunnel, or for one that is not there, is answered.
pub proof fn law_requests_without_a_tunnel(hub: &Hub, request: &[u8], res: HttpRoute)
    requires
        call_ensures(Hub::route_http1, (hub, request), res),
    ensures
        match crate::http::tunnel_of_head(request@, Some(hub@.domain)) {
            None => res@ == HttpRouteView::Answer(
                vstd::utf8::encode_utf8(
                    crate::http::error_response(
                        400,
                        "Bad Request"@,
                        "vyse: missing tunnel id. Use Host: <subdomain>."@ + hub@.domain
                            + " or X-Vyse-Tunnel.\n"@,
                    ),
                ),
            ),
            Some(id) => !hub@.tunnels.contains_key(id) ==> res@ == HttpRouteView::Answer(
                vstd::utf8::encode_utf8(
                    crate::http::error_response(
                        404,
                        "Not Found"@,
                        "vyse: no active tunnel for `"@ + id + "`\n"@,
                    ),
                ),
            ),
        },
{
}

} // verus!
