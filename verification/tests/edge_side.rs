use vyse::claims::{ClaimStore, Claimed};
use vyse::edge::{public_url, EdgeConfig};
use vyse::forwarding::{classify_stream, tunneled_request, StreamKind};
use vyse::gateway::{bad_gateway, close_asked, finish_http1, HttpRoute};
use vyse::h3::{
    h3_response, h3_to_http1, http1_to_h3, tunnel_id_from_h3, tunnel_id_or_host, H3Request,
    UdpRoute,
};
use vyse::http::{
    extract_tunnel_id_for_domain, http_error_response, parse_http1_response, HttpError,
};
use vyse::protocol::{name_from_draws, random_subdomain, validate_subdomain, ControlMessage, Route};
use vyse::reader::{HttpReader, ReadStep};
use vyse::registry::{Registry, Tunnel};
use vyse::render::{debug_message, debug_routes};
use vyse::routes::match_route;
use vyse::session::{Hub, SessionAction, SessionEvent, SessionState};
use vyse::store::capture;
use vyse::tunnel::{registration, TunnelOptions};

fn hub(claims: ClaimStore) -> Hub {
    Hub::new(claims, "vyse.dev".to_string(), "http://localhost:0".to_string())
}

fn register(subdomain: Option<&str>, machine_id: Option<&str>, routes: Vec<Route>) -> SessionEvent {
    SessionEvent::Received(ControlMessage::Register {
        subdomain: subdomain.map(str::to_string),
        routes,
        machine_id: machine_id.map(str::to_string),
        udp_ports: vec![5353],
    })
}

fn go_live(hub: &mut Hub, conn: u64, opts: &TunnelOptions) -> String {
    let routes = opts.resolved_routes().unwrap();
    let message = opts.register_message(&routes);
    match hub.step(conn, SessionState::Waiting, SessionEvent::Received(message)) {
        (SessionState::Live(name), SessionAction::Accept { reply, replaced }) => {
            assert_eq!(replaced, None);
            let granted = registration(reply).ok().unwrap();
            assert_eq!(granted.subdomain, name);
            assert!(!granted.ephemeral);
            name
        }
        _ => panic!("the tunnel is not accepted"),
    }
}

fn read_request(bytes: &[u8]) -> Vec<u8> {
    match HttpReader::request().feed(bytes) {
        ReadStep::Done(request) => request,
        _ => panic!("the request is not complete"),
    }
}

fn delivered(hub: &Hub, bytes: &[u8]) -> (u64, u16, Vec<u8>) {
    let request = read_request(bytes);
    match hub.route_http1(&request) {
        HttpRoute::Forward { conn, message } => match classify_stream(&message[..4]).unwrap() {
            StreamKind::Http { port, start } => {
                (conn, port, tunneled_request(start, &message[4..]))
            }
            StreamKind::Udp => panic!("not a UDP session"),
        },
        HttpRoute::Answer(answer) => panic!("answered {}", String::from_utf8_lossy(&answer)),
    }
}

fn answered(hub: &Hub, bytes: &[u8]) -> String {
    match hub.route_http1(&read_request(bytes)) {
        HttpRoute::Answer(answer) => String::from_utf8(answer).unwrap(),
        HttpRoute::Forward { .. } => panic!("the request is forwarded"),
    }
}

#[test]
fn random_subdomain_is_valid() {
    let sub = random_subdomain();
    assert!(validate_subdomain(&sub).is_ok());
    assert_eq!(sub.len(), 8);
}

#[test]
fn draws_spell_names() {
    assert_eq!(name_from_draws(&[0, 25, 26, 35]), "az09");
    assert_eq!(name_from_draws(&[21, 24, 18, 4, 27]), "vyse1");
    assert_eq!(name_from_draws(&[]), "");
}

#[test]
fn random_subdomains_differ() {
    let names: Vec<String> = (0..8).map(|_| random_subdomain()).collect();
    assert!(names.iter().any(|n| n != &names[0]));
}

#[test]
fn rejects_bad_subdomains() {
    assert!(validate_subdomain("").is_err());
    assert!(validate_subdomain("-abc").is_err());
    assert!(validate_subdomain("abc-").is_err());
    assert!(validate_subdomain("has_underscore").is_err());
    assert!(validate_subdomain("ok-name").is_ok());
}

#[test]
fn complaints_about_subdomains() {
    let size = "subdomain must be 1-63 characters";
    let letters = "subdomain may only contain letters, digits, and hyphens";
    let hyphen = "subdomain cannot start or end with a hyphen";
    assert_eq!(validate_subdomain("").unwrap_err(), size);
    assert_eq!(validate_subdomain(&"a".repeat(64)).unwrap_err(), size);
    assert!(validate_subdomain(&"a".repeat(63)).is_ok());
    assert_eq!(validate_subdomain(&"\u{e9}".repeat(32)).unwrap_err(), size);
    assert_eq!(validate_subdomain("a.b").unwrap_err(), letters);
    assert_eq!(validate_subdomain("-").unwrap_err(), hyphen);
    assert!(validate_subdomain("UPPER-1").is_ok());
}

#[test]
fn parse_route_spec() {
    let route = Route::parse("/api=8000").unwrap();
    assert_eq!(route.path_prefix, "/api");
    assert_eq!(route.port, 8000);
}

#[test]
fn complaints_about_routes() {
    assert_eq!(
        Route::parse("/api").unwrap_err(),
        "invalid route `/api`, expected PATH=PORT"
    );
    assert_eq!(Route::parse("/api=x").unwrap_err(), "invalid port in route `/api=x`");
    assert_eq!(Route::parse("/api=65536").unwrap_err(), "invalid port in route `/api=65536`");
    assert_eq!(Route::parse("api=80").unwrap_err(), "route path must start with /: `api=80`");
    assert_eq!(Route::parse("=80").unwrap(), Route::catch_all(80));
    assert_eq!(Route::parse("/a=b=80").unwrap().path_prefix, "/a=b");
}

fn routes() -> Vec<Route> {
    vec![Route::parse("/api=8000").unwrap(), Route::catch_all(3000)]
}

#[test]
fn longest_prefix_wins() {
    assert_eq!(match_route(&routes(), "/api/users"), Some(8000));
    assert_eq!(match_route(&routes(), "/api"), Some(8000));
    assert_eq!(match_route(&routes(), "/"), Some(3000));
    assert_eq!(match_route(&routes(), "/dashboard"), Some(3000));
}

#[test]
fn routes_by_whole_segments() {
    assert_eq!(match_route(&routes(), "/apis"), Some(3000));
    assert_eq!(match_route(&routes(), "/api?x=1"), Some(8000));
    let some = vec![Route::parse("/a/=1").unwrap(), Route::parse("/a=2").unwrap()];
    assert_eq!(match_route(&some, "/a/b"), Some(1));
    assert_eq!(match_route(&some, "/b"), None);
    let twice = vec![Route::parse("/a=1").unwrap(), Route::parse("/a=2").unwrap()];
    assert_eq!(match_route(&twice, "/a"), Some(2));
    assert_eq!(match_route(&[], "/"), None);
}

#[test]
fn local_public_url_uses_localhost_subdomain() {
    let url = public_url("http://localhost:8080", "demo", "vyse.dev");
    assert_eq!(url, "http://demo.localhost:8080");
}

#[test]
fn production_public_url_rewrites_host() {
    let url = public_url("https://vyse.dev", "demo", "vyse.dev");
    assert_eq!(url, "https://demo.vyse.dev");
}

#[test]
fn production_custom_domain_url() {
    let url = public_url("https://vyse.chipling.xyz", "demo", "vyse.chipling.xyz");
    assert_eq!(url, "https://demo.vyse.chipling.xyz");
}

#[test]
fn public_urls_of_other_bases() {
    assert_eq!(public_url("https://127.0.0.1:8443///", "a", "d"), "https://a.localhost:8443");
    assert_eq!(public_url("http://localhost", "a", "d"), "http://a.localhost");
    assert_eq!(public_url("vyse.dev", "a", "d"), "https://a.d");
    assert_eq!(public_url("http://x.y:1", "a", "d"), "http://a.x.y:1");
}

#[test]
fn default_edge_settings() {
    let config = EdgeConfig::default();
    assert_eq!(config.quic, "0.0.0.0:4433");
    assert_eq!(config.http, "0.0.0.0:8080");
    assert_eq!(config.http3, "0.0.0.0:8443");
    assert_eq!(config.domain, "vyse.dev");
    assert_eq!(config.public_base, "http://localhost:8080");
    assert_eq!(config.claims_path, None);
}

#[test]
fn first_claim_wins_in_memory() {
    let mut claims = ClaimStore::in_memory();
    claims.claim_reserved("demo", "hw-a").unwrap();
    assert_eq!(claims.owner("demo"), Some("hw-a".into()));
    assert_eq!(claims.reserved_of("hw-a"), Some("demo".into()));
}

#[test]
fn same_id_reconnects_in_memory() {
    let mut claims = ClaimStore::in_memory();
    assert_eq!(claims.claim_reserved("demo", "hw-a").unwrap(), Claimed::New);
    assert_eq!(claims.claim_reserved("demo", "hw-a").unwrap(), Claimed::Already);
}

#[test]
fn other_id_rejected_in_memory() {
    let mut claims = ClaimStore::in_memory();
    claims.claim_reserved("demo", "hw-a").unwrap();
    let err = claims.claim_reserved("demo", "hw-b").unwrap_err();
    assert_eq!(err, "subdomain `demo` is bound to another machine");
}

#[test]
fn empty_machine_id_rejected() {
    let mut claims = ClaimStore::in_memory();
    let err = claims.claim_reserved("demo", "").unwrap_err();
    assert_eq!(err, "this Vyse edge requires a machine id");
}

#[test]
fn one_reserved_per_machine() {
    let mut claims = ClaimStore::in_memory();
    claims.claim_reserved("foo", "hw-a").unwrap();
    let err = claims.claim_reserved("bar", "hw-a").unwrap_err();
    assert_eq!(err, "machine already reserved `foo`");
    assert_eq!(claims.reserved_of("hw-a"), Some("foo".into()));
}

#[test]
fn kept_claims_are_loaded() {
    let rows = vec![("demo".to_string(), "hw-a".to_string())];
    let mut claims = ClaimStore::open(Some(rows));
    assert!(claims.requires_machine_id());
    assert_eq!(claims.owner("demo"), Some("hw-a".into()));
    assert_eq!(claims.reserved_of("hw-a"), Some("demo".into()));
    assert!(claims.is_claimed("demo"));
    assert!(!claims.is_claimed("other"));
    assert!(claims.is_available_for("demo", "hw-a"));
    assert!(!claims.is_available_for("demo", "hw-b"));
    assert!(claims.is_available_for("other", "hw-b"));
    assert!(claims.claim_reserved("demo", "hw-b").is_err());
    assert!(!ClaimStore::open(None).requires_machine_id());
    assert_eq!(claims.owner("nobody"), None);
    assert_eq!(claims.reserved_of("hw-b"), None);
}

#[test]
fn registry_keeps_one_tunnel_per_name() {
    let tunnel = |conn| Tunnel { conn, routes: routes(), udp_ports: vec![53] };
    let mut registry = Registry::default();
    assert!(registry.insert("demo".to_string(), tunnel(1)).is_ok());
    assert_eq!(
        registry.insert("demo".to_string(), tunnel(2)).unwrap_err(),
        "subdomain `demo` is already in use"
    );
    let found = registry.get("demo").unwrap();
    assert_eq!(found.conn, 1);
    assert_eq!(found.routes, routes());
    assert_eq!(found.udp_ports, vec![53]);
    assert!(registry.contains("demo"));
    registry.remove("demo");
    assert!(registry.get("demo").is_none());
    assert!(!registry.contains("demo"));
}

#[test]
fn rendered_as_debug_output() {
    let routes = vec![Route::parse("/\"a\n=1").unwrap(), Route::catch_all(3000)];
    assert_eq!(debug_routes(&routes), format!("{routes:?}"));
    assert_eq!(debug_routes(&[]), "[]");
    let messages = vec![
        ControlMessage::Register {
            subdomain: Some("de\\mo".to_string()),
            routes,
            machine_id: None,
            udp_ports: vec![1, 65535],
        },
        ControlMessage::Registered {
            subdomain: "a".to_string(),
            public_url: "https://a".to_string(),
            ephemeral: true,
        },
        ControlMessage::Registered {
            subdomain: "\u{301}".to_string(),
            public_url: String::new(),
            ephemeral: false,
        },
        ControlMessage::Error { message: "it's".to_string() },
        ControlMessage::Ping,
        ControlMessage::Pong,
    ];
    for message in &messages {
        assert_eq!(debug_message(message), format!("{message:?}"));
    }
}

#[test]
fn registration_is_refused_with_a_reason() {
    let refusals = vec![
        (SessionEvent::Received(ControlMessage::Ping), "expected register, got Ping", "first control message was not register"),
        (register(Some("demo"), None, Vec::new()), "register must include at least one route", "register with no routes"),
        (register(Some("-x"), None, routes()), "subdomain cannot start or end with a hyphen", "subdomain cannot start or end with a hyphen"),
    ];
    for (event, told, failed) in refusals {
        let mut hub = hub(ClaimStore::in_memory());
        match hub.step(1, SessionState::Waiting, event) {
            (SessionState::Over, SessionAction::Refuse { reply, error }) => {
                assert_eq!(reply, ControlMessage::Error { message: told.to_string() });
                assert_eq!(error, failed);
            }
            _ => panic!("the registration is not refused"),
        }
    }
}

#[test]
fn claims_bind_names_to_machines() {
    let mut hub = hub(ClaimStore::open(Some(Vec::new())));
    match hub.step(1, SessionState::Waiting, register(Some("Demo"), None, routes())) {
        (_, SessionAction::Refuse { error, .. }) => {
            assert_eq!(error, "this Vyse edge requires a machine id")
        }
        _ => panic!("a machine id is required"),
    }
    let (state, action) =
        hub.step(1, SessionState::Waiting, register(Some("Demo"), Some("hw-a"), routes()));
    match action {
        SessionAction::Persist { subdomain, machine_id } => {
            assert_eq!((subdomain.as_str(), machine_id.as_str()), ("demo", "hw-a"))
        }
        _ => panic!("the claim is new"),
    }
    let (state, action) = hub.step(1, state, SessionEvent::Persisted(Ok(())));
    assert!(matches!(state, SessionState::Live(name) if name == "demo"));
    assert!(matches!(action, SessionAction::Accept { replaced: None, .. }));

    assert_eq!(lent(&mut hub, 2, "demo", Some("hw-b"), "spare123"), "spare123");
    assert_eq!(hub.registry.get("demo").unwrap().conn, 1);
    assert_eq!(hub.claims.owner("demo").unwrap(), "hw-a");
    assert!(hub.claims.owner("spare123").is_none());
    match hub.step(3, SessionState::Waiting, register(Some("demo"), Some("hw-a"), routes())) {
        (SessionState::Live(name), SessionAction::Accept { replaced, .. }) => {
            assert_eq!(name, "demo");
            assert_eq!(replaced, Some(1));
        }
        _ => panic!("the owner reconnects"),
    }
    assert_eq!(hub.registry.get("demo").unwrap().conn, 3);
}

#[test]
fn claims_that_cannot_be_kept_are_refused() {
    let mut hub = hub(ClaimStore::open(Some(Vec::new())));
    let (state, _) =
        hub.step(1, SessionState::Waiting, register(Some("demo"), Some("hw-a"), routes()));
    match hub.step(1, state, SessionEvent::Persisted(Err("disk full".to_string()))) {
        (SessionState::Over, SessionAction::Refuse { reply, error }) => {
            assert_eq!(reply, ControlMessage::Error { message: "disk full".to_string() });
            assert_eq!(error, "disk full");
        }
        _ => panic!("the claim was not kept"),
    }
    assert!(!hub.registry.contains("demo"));
}

#[test]
fn names_are_drawn_until_one_is_free() {
    let rows = vec![("taken".to_string(), "hw-b".to_string())];
    let mut hub = hub(ClaimStore::open(Some(rows)));
    let (state, action) = hub.step(1, SessionState::Waiting, register(None, Some("hw-a"), routes()));
    assert!(matches!(action, SessionAction::Draw));
    let (state, action) = hub.step(1, state, SessionEvent::Drew("taken".to_string()));
    assert!(matches!(action, SessionAction::Draw));
    let (state, action) = hub.step(1, state, SessionEvent::Drew("fresh123".to_string()));
    assert!(matches!(action, SessionAction::Persist { .. }));
    let (state, _) = hub.step(1, state, SessionEvent::Persisted(Ok(())));
    assert!(matches!(state, SessionState::Live(name) if name == "fresh123"));
}

/// Register under a name that cannot be had, and go live under a drawn one.
fn lent(hub: &mut Hub, conn: u64, name: &str, machine: Option<&str>, drawn: &str) -> String {
    let (state, action) =
        hub.step(conn, SessionState::Waiting, register(Some(name), machine, routes()));
    assert!(matches!(state, SessionState::Fallback(_)));
    assert!(matches!(action, SessionAction::Draw));
    match hub.step(conn, state, SessionEvent::Drew(drawn.to_string())) {
        (SessionState::Live(live), SessionAction::Accept { reply, replaced }) => {
            assert_eq!(replaced, None);
            assert_eq!(
                reply,
                ControlMessage::Registered {
                    subdomain: drawn.to_string(),
                    public_url: format!("http://{drawn}.localhost:0"),
                    ephemeral: true,
                }
            );
            live
        }
        _ => panic!("the drawn name is free"),
    }
}

#[test]
fn taken_names_give_way_to_random_ones() {
    let mut hub = hub(ClaimStore::in_memory());
    let (_, _) = hub.step(1, SessionState::Waiting, register(Some("demo"), None, routes()));
    assert_eq!(lent(&mut hub, 2, "DEMO", None, "k3n9x2ab"), "k3n9x2ab");
    assert_eq!(hub.registry.get("demo").unwrap().conn, 1);
    assert_eq!(hub.registry.get("k3n9x2ab").unwrap().conn, 2);
}

#[test]
fn a_machine_with_a_name_gets_others_for_a_session_only() {
    let rows = vec![("mine".to_string(), "hw-a".to_string())];
    let mut hub = hub(ClaimStore::open(Some(rows)));
    assert_eq!(lent(&mut hub, 1, "other", Some("hw-a"), "k3n9x2ab"), "k3n9x2ab");
    assert_eq!(hub.claims.owner("mine").unwrap(), "hw-a");
    assert!(hub.claims.owner("other").is_none());
    assert!(hub.claims.owner("k3n9x2ab").is_none());
    assert!(!hub.registry.contains("other"));
    assert_eq!(lent(&mut hub, 2, "k3n9x2ab", Some("hw-b"), "q0q0q0q0"), "q0q0q0q0");
    assert_eq!(hub.registry.get("k3n9x2ab").unwrap().conn, 1);
}

#[test]
fn lent_names_are_drawn_until_nobody_has_one() {
    let rows = vec![("owned".to_string(), "hw-b".to_string())];
    let mut hub = hub(ClaimStore::open(Some(rows)));
    assert_eq!(lent(&mut hub, 1, "owned", Some("hw-c"), "live1234"), "live1234");
    let (state, _) =
        hub.step(2, SessionState::Waiting, register(Some("owned"), Some("hw-a"), routes()));
    let (state, action) = hub.step(2, state, SessionEvent::Drew("owned".to_string()));
    assert!(matches!(action, SessionAction::Draw));
    let (state, action) = hub.step(2, state, SessionEvent::Drew("live1234".to_string()));
    assert!(matches!(action, SessionAction::Draw));
    assert_eq!(hub.registry.get("live1234").unwrap().conn, 1);
    let (state, action) = hub.step(2, state, SessionEvent::Drew("fresh123".to_string()));
    assert!(matches!(state, SessionState::Live(name) if name == "fresh123"));
    assert!(matches!(action, SessionAction::Accept { replaced: None, .. }));
}

#[test]
fn a_lost_session_leaves_no_tunnel_under_its_name() {
    let rows = vec![("demo".to_string(), "hw-a".to_string())];
    let mut hub = hub(ClaimStore::open(Some(rows)));
    let (first, _) =
        hub.step(1, SessionState::Waiting, register(Some("demo"), Some("hw-a"), routes()));
    let (_, action) =
        hub.step(2, SessionState::Waiting, register(Some("demo"), Some("hw-a"), routes()));
    assert!(matches!(action, SessionAction::Accept { replaced: Some(1), .. }));
    assert_eq!(hub.registry.get("demo").unwrap().conn, 2);
    let (state, action) = hub.step(1, first, SessionEvent::Lost);
    assert!(matches!((state, action), (SessionState::Over, SessionAction::End)));
    assert!(!hub.registry.contains("demo"));
}

#[test]
fn live_sessions_answer_pings_and_end() {
    let mut hub = hub(ClaimStore::in_memory());
    let (state, action) = hub.step(1, SessionState::Waiting, register(Some("demo"), None, routes()));
    match action {
        SessionAction::Accept { reply, .. } => assert_eq!(
            reply,
            ControlMessage::Registered {
                subdomain: "demo".to_string(),
                public_url: "http://demo.localhost:0".to_string(),
                ephemeral: false,
            }
        ),
        _ => panic!("the tunnel is accepted"),
    }
    let (state, action) = hub.step(1, state, SessionEvent::Received(ControlMessage::Ping));
    assert!(matches!(action, SessionAction::Reply(ControlMessage::Pong)));
    let complaint = ControlMessage::Error { message: "x".to_string() };
    let (state, action) = hub.step(1, state, SessionEvent::Received(complaint));
    assert!(matches!(action, SessionAction::Listen));
    let (state, action) = hub.step(1, state, SessionEvent::Lost);
    assert!(matches!(action, SessionAction::End));
    assert!(matches!(state, SessionState::Over));
    assert!(!hub.registry.contains("demo"));
    let (_, action) = hub.step(2, SessionState::Waiting, SessionEvent::Lost);
    assert!(matches!(action, SessionAction::End));
}

#[test]
fn http_request_is_tunneled_to_localhost() {
    let mut hub = hub(ClaimStore::in_memory());
    let opts = TunnelOptions {
        port: Some(3001),
        subdomain: Some("demo".into()),
        ..TunnelOptions::default()
    };
    assert_eq!(go_live(&mut hub, 7, &opts), "demo");
    let sent = b"GET / HTTP/1.1\r\nHost: demo.vyse.dev\r\nConnection: close\r\n\r\n";
    let (conn, port, request) = delivered(&hub, sent);
    assert_eq!((conn, port), (7, 3001));
    assert_eq!(request, sent);
    let (text, close) = finish_http1(&request, Ok(b"HTTP/1.1 200 OK\r\n\r\nhellook".to_vec()));
    assert!(String::from_utf8_lossy(&text).contains("hellook"));
    assert!(close);
}

#[test]
fn multi_port_routes_by_path() {
    let mut hub = hub(ClaimStore::in_memory());
    let (front, api) = (3001, 8001);
    let opts = TunnelOptions {
        port: None,
        routes: vec![
            Route { path_prefix: "/api".into(), port: api },
            Route::catch_all(front),
        ],
        subdomain: Some("app".into()),
        ..TunnelOptions::default()
    };
    go_live(&mut hub, 1, &opts);
    let (_, port, _) = delivered(
        &hub,
        b"GET /api/users HTTP/1.1\r\nHost: app.vyse.dev\r\nConnection: close\r\n\r\n",
    );
    assert_eq!(port, api);
    let (_, port, _) =
        delivered(&hub, b"GET / HTTP/1.1\r\nHost: app.vyse.dev\r\nConnection: close\r\n\r\n");
    assert_eq!(port, front);
}

#[test]
fn unknown_subdomain_returns_404() {
    let hub = hub(ClaimStore::in_memory());
    let text = answered(
        &hub,
        b"GET / HTTP/1.1\r\nHost: missing.vyse.dev\r\nConnection: close\r\n\r\n",
    );
    assert!(text.contains("404"), "unexpected response: {text}");
    assert!(text.contains("no active tunnel"));
    assert!(text.ends_with("vyse: no active tunnel for `missing`\n"));
}

#[test]
fn requests_that_go_nowhere() {
    let mut hub = hub(ClaimStore::in_memory());
    let text = answered(&hub, b"GET / HTTP/1.1\r\nHost: example.com\r\n\r\n");
    assert!(text.starts_with("HTTP/1.1 400 Bad Request\r\n"));
    assert!(text.ends_with(
        "vyse: missing tunnel id. Use Host: <subdomain>.vyse.dev or X-Vyse-Tunnel.\n"
    ));
    let opts = TunnelOptions {
        routes: vec![Route::parse("/api=8000").unwrap()],
        subdomain: Some("app".into()),
        ..TunnelOptions::default()
    };
    go_live(&mut hub, 1, &opts);
    let text = answered(&hub, b"GET /x HTTP/1.1\r\nHost: app.vyse.dev\r\n\r\n");
    assert!(text.starts_with("HTTP/1.1 502 Bad Gateway\r\n"));
    assert!(text.ends_with(
        "vyse: no local port mapped for path `/x` (routes: [Route { path_prefix: \"/api\", port: 8000 }])\n"
    ));
    match hub.route(Some("app".to_string()), None, b"", "-") {
        HttpRoute::Answer(text) => {
            assert!(String::from_utf8_lossy(&text).contains("path `/`"))
        }
        HttpRoute::Forward { .. } => panic!("no route leads there"),
    }
}

#[test]
fn connections_stay_open_unless_asked() {
    let request = b"GET / HTTP/1.1\r\nHost: a.vyse.dev\r\n\r\n";
    assert!(!finish_http1(request, Ok(Vec::new())).1);
    let (text, close) = finish_http1(request, Err("open tunnel stream".to_string()));
    assert!(close);
    assert_eq!(text, bad_gateway("open tunnel stream"));
    assert_eq!(
        text,
        http_error_response(502, "Bad Gateway", "vyse: open tunnel stream\n")
    );
    assert!(close_asked(&Some("CLOSE".to_string())));
    assert!(!close_asked(&Some("keep-alive".to_string())));
    assert!(!close_asked(&None));
}

fn h3_request(authority: Option<&str>, headers: &[(&str, &[u8])]) -> H3Request {
    H3Request {
        method: "GET".to_string(),
        path: "/".to_string(),
        path_and_query: Some("/?q=1".to_string()),
        authority: authority.map(str::to_string),
        headers: headers.iter().map(|(n, v)| (n.to_string(), v.to_vec())).collect(),
    }
}

#[test]
fn http3_request_is_tunneled() {
    let mut hub = hub(ClaimStore::in_memory());
    let opts = TunnelOptions {
        port: Some(3001),
        subdomain: Some("h3demo".into()),
        ..TunnelOptions::default()
    };
    go_live(&mut hub, 5, &opts);
    let req = h3_request(Some("h3demo.vyse.dev"), &[("host", b"h3demo.vyse.dev")]);
    match hub.route_h3(&req, b"") {
        HttpRoute::Forward { conn, message } => {
            assert_eq!(conn, 5);
            assert_eq!(&message[..2], &3001u16.to_be_bytes());
            assert_eq!(
                &message[2..],
                b"GET /?q=1 HTTP/1.1\r\nHost: h3demo.vyse.dev\r\nContent-Length: 0\r\nConnection: close\r\n\r\n"
            );
        }
        HttpRoute::Answer(_) => panic!("the request is forwarded"),
    }
    let resp = http1_to_h3(b"HTTP/1.1 200 OK\r\nContent-Length: 4\r\nConnection: close\r\n\r\nh3ok");
    assert_eq!(resp.status, 200);
    assert_eq!(resp.body, b"h3ok");
    assert!(resp.headers.is_empty());
}

#[test]
fn http3_heads_as_http1() {
    let req = H3Request {
        method: "POST".to_string(),
        path: "/x".to_string(),
        path_and_query: None,
        authority: None,
        headers: vec![
            ("accept".to_string(), b"a\tb".to_vec()),
            ("host".to_string(), b"one.vyse.dev".to_vec()),
            ("content-length".to_string(), b"9".to_vec()),
            ("connection".to_string(), b"x".to_vec()),
            ("transfer-encoding".to_string(), b"x".to_vec()),
            ("x-raw".to_string(), b"\xff".to_vec()),
            ("host".to_string(), b"two.vyse.dev".to_vec()),
        ],
    };
    assert_eq!(
        h3_to_http1(&req, b"ab"),
        b"POST / HTTP/1.1\r\nHost: one.vyse.dev\r\naccept: a\tb\r\nx-raw: \r\nContent-Length: 2\r\nConnection: close\r\n\r\nab"
    );
    assert_eq!(tunnel_id_or_host(&req, None, "vyse.dev").as_deref(), Some("one"));
    assert_eq!(tunnel_id_or_host(&req, Some("z".to_string()), "vyse.dev").as_deref(), Some("z"));
    let overridden = h3_request(Some("a.vyse.dev"), &[("x-vyse-tunnel", b"b")]);
    let http1 = h3_to_http1(&overridden, b"");
    assert_eq!(tunnel_id_from_h3(&overridden, &http1, "vyse.dev").as_deref(), Some("b"));
    assert_eq!(tunnel_id_from_h3(&overridden, b"", "vyse.dev").as_deref(), Some("a"));
}

#[test]
fn shown_header_values_are_those_of_the_http_crate() {
    for b in 0u8..=255 {
        if let Ok(value) = http::HeaderValue::from_bytes(&[b]) {
            let req = h3_request(None, &[("host", &[b])]);
            let shown = h3_to_http1(&req, b"");
            let host_line = String::from_utf8_lossy(&shown).contains("\r\nHost: ");
            assert_eq!(host_line, value.to_str().is_ok(), "{b}");
        }
    }
}

#[test]
fn http3_answers() {
    let hub = hub(ClaimStore::in_memory());
    match hub.route_h3(&h3_request(None, &[]), b"") {
        HttpRoute::Answer(text) => assert_eq!(
            text,
            http_error_response(400, "Bad Request", "vyse: missing tunnel id on HTTP/3 request\n")
        ),
        HttpRoute::Forward { .. } => panic!("there is no tunnel"),
    }
    match hub.route_h3(&h3_request(Some("x.vyse.dev"), &[]), b"") {
        HttpRoute::Answer(text) => assert_eq!(
            text,
            http_error_response(404, "Not Found", "vyse: no active tunnel for `x`\n")
        ),
        HttpRoute::Forward { .. } => panic!("there is no tunnel"),
    }
    let malformed = http1_to_h3(b"nonsense");
    let standard = h3_response(parse_http1_response(&http_error_response(
        502,
        "Bad Gateway",
        "vyse: origin returned a malformed response\n",
    )));
    assert_eq!(malformed.status, 502);
    assert_eq!(malformed.status, standard.status);
    assert_eq!(malformed.headers, standard.headers);
    assert_eq!(malformed.body, standard.body);
    let refused = h3_response(Err(HttpError::StatusMissing));
    assert_eq!(refused.body, b"vyse: origin returned a malformed response\n");
    let kept = http1_to_h3(b"HTTP/1.1 201 C\r\nX-A: 1\r\nTRANSFER-encoding: x\r\nX-B: 2\r\n\r\n");
    assert_eq!(
        kept.headers,
        vec![("X-A".to_string(), "1".to_string()), ("X-B".to_string(), "2".to_string())]
    );
}

#[test]
fn connect_udp_decisions() {
    let mut hub = hub(ClaimStore::in_memory());
    let opts = TunnelOptions {
        port: Some(3001),
        subdomain: Some("app".into()),
        udp_ports: vec![5353],
        ..TunnelOptions::default()
    };
    go_live(&mut hub, 9, &opts);
    let at = |authority: &str, path: &str| H3Request {
        method: "CONNECT".to_string(),
        path: path.to_string(),
        path_and_query: Some(path.to_string()),
        authority: Some(authority.to_string()),
        headers: Vec::new(),
    };
    let path = "/.well-known/masque/udp/127.0.0.1/5353/";
    let route = |authority, path| hub.route_connect_udp(&at(authority, path));
    assert_eq!(route("app.vyse.dev", path), UdpRoute::Open { conn: 9, port: 5353 });
    assert_eq!(route("nobody", path), UdpRoute::Status(400));
    assert_eq!(route("app.vyse.dev", "/x"), UdpRoute::Status(400));
    assert_eq!(
        route("app.vyse.dev", "/.well-known/masque/udp/8.8.8.8/5353/"),
        UdpRoute::Status(403)
    );
    assert_eq!(route("other.vyse.dev", path), UdpRoute::Status(404));
    assert_eq!(
        route("app.vyse.dev", "/.well-known/masque/udp/127.0.0.1/53/"),
        UdpRoute::Status(403)
    );
    assert_eq!(hub.route_udp(None, path), UdpRoute::Status(400));
}

#[test]
fn webhook_log_captures_request() {
    let mut hub = hub(ClaimStore::in_memory());
    let opts = TunnelOptions {
        port: Some(3001),
        subdomain: Some("log".into()),
        ..TunnelOptions::default()
    };
    go_live(&mut hub, 1, &opts);
    let (_, port, request) = delivered(
        &hub,
        b"POST /hook HTTP/1.1\r\nHost: log.vyse.dev\r\nContent-Length: 4\r\nConnection: close\r\n\r\nping",
    );
    let row = capture(1_700_000_000_000, port, &request, Some(200));
    assert_eq!(row.method, "POST");
    assert_eq!(row.path, "/hook");
    assert_eq!(row.body, b"ping");
    assert_eq!(row.port, 3001);
    assert_eq!(row.status, Some(200));
}

#[test]
fn public_hosts_lead_back_to_their_tunnels() {
    let cases = [
        ("https://vyse.dev", "vyse.dev"),
        ("http://vyse.chipling.xyz", "vyse.chipling.xyz"),
        ("http://localhost:8080", "vyse.dev"),
        ("http://localhost:8080", "localhost"),
    ];
    for (base, domain) in cases {
        let url = public_url(base, "my-app", domain);
        let (_, host) = url.split_once("://").unwrap();
        assert_eq!(extract_tunnel_id_for_domain(host, Some(domain)).as_deref(), Some("my-app"));
    }
}

#[test]
fn other_tunnels_are_left_alone() {
    let mut hub = hub(ClaimStore::in_memory());
    for (conn, name) in [(1, "one"), (2, "two")] {
        let opts = TunnelOptions {
            port: Some(3000),
            subdomain: Some(name.into()),
            ..TunnelOptions::default()
        };
        go_live(&mut hub, conn, &opts);
    }
    hub.step(1, SessionState::Live("one".to_string()), SessionEvent::Lost);
    let (conn, _, _) = delivered(&hub, b"GET / HTTP/1.1\r\nHost: two.vyse.dev\r\n\r\n");
    assert_eq!(conn, 2);
    assert!(answered(&hub, b"GET / HTTP/1.1\r\nHost: one.vyse.dev\r\n\r\n").contains("404"));
}
