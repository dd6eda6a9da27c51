//! Values as the texts that `{:?}` makes of them.
use vstd::prelude::*;

use crate::number::push_decimal;
use crate::protocol::{ControlMessage, Route};

verus! {

/// What `{:?}` makes of a string: quotes around it, and escapes in it.
pub uninterp spec fn quoted(s: Seq<char>) -> Seq<char>;

/// `{:?}` of a `str` is a function of the text.
#[verifier::external_body]
fn debug_text(s: &str) -> (res: String)
    ensures
        res@ == quoted(s@),
{
    format!("{:?}", s)
}

/// What `{:?}` makes of a route.
pub open spec fn route_text(route: crate::protocol::RouteView) -> Seq<char> {
    "Route { path_prefix: "@ + quoted(route.path_prefix) + ", port: "@ + crate::number::decimal(
        route.port as nat,
    ) + " }"@
}

/// The texts of routes, with commas between them.
pub open spec fn route_list(routes: Seq<crate::protocol::RouteView>) -> Seq<char>
    decreases routes.len(),
{
    if routes.len() == 0 {
        Seq::empty()
    } else if routes.len() == 1 {
        route_text(routes[0])
    } else {
        route_list(routes.drop_last()) + ", "@ + route_text(routes.last())
    }
}

/// What `{:?}` makes of a list of routes.
pub open spec fn routes_text(routes: Seq<crate::protocol::RouteView>) -> Seq<char> {
    "["@ + route_list(routes) + "]"@
}

/// What `{:?}` makes of an optional string.
pub open spec fn option_text(s: Option<Seq<char>>) -> Seq<char> {
    match s {
        Some(text) => "Some("@ + quoted(text) + ")"@,
        None => "None"@,
    }
}

/// Ports, with commas between them.
pub open spec fn port_list(ports: Seq<u16>) -> Seq<char>
    decreases ports.len(),
{
    if ports.len() == 0 {
        Seq::empty()
    } else if ports.len() == 1 {
        crate::number::decimal(ports[0] as nat)
    } else {
        port_list(ports.drop_last()) + ", "@ + crate::number::decimal(ports.last() as nat)
    }
}

/// What `{:?}` makes of a list of ports.
pub open spec fn ports_text(ports: Seq<u16>) -> Seq<char> {
    "["@ + port_list(ports) + "]"@
}

/// What `{:?}` makes of a message.
pub open spec fn message_text(message: crate::protocol::MessageView) -> Seq<char> {
    match message {
        crate::protocol::MessageView::Register { subdomain, routes, machine_id, udp_ports } => {
            "Register { subdomain: "@ + option_text(subdomain) + ", routes: "@ + routes_text(routes)
                + ", machine_id: "@ + option_text(machine_id) + ", udp_ports: "@ + ports_text(
                udp_ports,
            ) + " }"@
        },
        crate::protocol::MessageView::Registered { subdomain, public_url, ephemeral } => {
            "Registered { subdomain: "@ + quoted(subdomain) + ", public_url: "@ + quoted(public_url)
                + ", ephemeral: "@ + (if ephemeral {
                "true"@
            } else {
                "false"@
            }) + " }"@
        },
        crate::protocol::MessageView::Error { message } => "Error { message: "@ + quoted(message)
            + " }"@,
        crate::protocol::MessageView::Ping => "Ping"@,
        crate::protocol::MessageView::Pong => "Pong"@,
    }
}

fn push_route(out: &mut String, route: &Route)
    ensures
        final(out)@ == old(out)@ + route_text(route@),
{
    out.append("Route { path_prefix: ");
    out.append(debug_text(route.path_prefix.as_str()).as_str());
    out.append(", port: ");
    push_decimal(out, route.port as u64);
    out.append(" }");
    assert(out@ =~= old(out)@ + route_text(route@));
}

/// The text of a list of routes.
pub fn debug_routes(routes: &[Route]) -> (res: String)
    ensures
        res@ == routes_text(crate::protocol::route_views(routes@)),
{
    let ghost views = crate::protocol::route_views(routes@);
    let mut out: String = String::new();
    out.append("[");
    let mut i: usize = 0;
    assert(out@ =~= "["@ + route_list(views.take(0)));
    while i < routes.len()
        invariant
            i <= routes@.len(),
            views == crate::protocol::route_views(routes@),
            out@ == "["@ + route_list(views.take(i as int)),
        decreases routes@.len() - i,
    {
        let ghost next = views.take(i + 1);
        assert(next.drop_last() =~= views.take(i as int));
        assert(next.last() == routes@[i as int]@);
        if i > 0 {
            out.append(", ");
        }
        push_route(&mut out, &routes[i]);
        assert(out@ =~= "["@ + route_list(next));
        i = i + 1;
    }
    assert(views.take(i as int) =~= views);
    out.append("]");
    out
}

fn debug_option(s: &Option<String>) -> (res: String)
    ensures
        res@ == option_text(crate::text::opt_text(*s)),
{
    let mut out: String = String::new();
    match s {
        Some(text) => {
            out.append("Some(");
            out.append(debug_text(text.as_str()).as_str());
            out.append(")");
        },
        None => {
            out.append("None");
        },
    }
    assert(out@ =~= option_text(crate::text::opt_text(*s)));
    out
}

fn debug_ports(ports: &Vec<u16>) -> (res: String)
    ensures
        res@ == ports_text(ports@),
{
    let mut out: String = String::new();
    out.append("[");
    let mut i: usize = 0;
    assert(out@ =~= "["@ + port_list(ports@.take(0)));
    while i < ports.len()
        invariant
            i <= ports@.len(),
            out@ == "["@ + port_list(ports@.take(i as int)),
        decreases ports@.len() - i,
    {
        let ghost next = ports@.take(i + 1);
        assert(next.drop_last() =~= ports@.take(i as int));
        if i > 0 {
            out.append(", ");
        }
        push_decimal(&mut out, ports[i] as u64);
        assert(out@ =~= "["@ + port_list(next));
        i = i + 1;
    }
    assert(ports@.take(i as int) =~= ports@);
    out.append("]");
    out
}

/// The text of a message.
pub fn debug_message(message: &ControlMessage) -> (res: String)
    ensures
        res@ == message_text(message@),
{
    let mut out: String = String::new();
    match message {
        ControlMessage::Register { subdomain, routes, machine_id, udp_ports } => {
            out.append("Register { subdomain: ");
            out.append(debug_option(subdomain).as_str());
            out.append(", routes: ");
            out.append(debug_routes(routes.as_slice()).as_str());
            out.append(", machine_id: ");
            out.append(debug_option(machine_id).as_str());
            out.append(", udp_ports: ");
            out.append(debug_ports(udp_ports).as_str());
            out.append(" }");
        },
        ControlMessage::Registered { subdomain, public_url, ephemeral } => {
            out.append("Registered { subdomain: ");
            out.append(debug_text(subdomain.as_str()).as_str());
            out.append(", public_url: ");
            out.append(debug_text(public_url.as_str()).as_str());
            out.append(", ephemeral: ");
            if *ephemeral {
                out.append("true");
            } else {
                out.append("false");
            }
            out.append(" }");
        },
        ControlMessage::Error { message } => {
            out.append("Error { message: ");
            out.append(debug_text(message.as_str()).as_str());
            out.append(" }");
        },
        ControlMessage::Ping => {
            out.append("Ping");
        },
        ControlMessage::Pong => {
            out.append("Pong");
        },
    }
    assert(out@ =~= message_text(message@));
    out
}

/// How lists of routes and of ports are shown, item by item.
pub proof fn law_shown_lists(
    routes: Seq<crate::protocol::RouteView>,
    route: crate::protocol::RouteView,
    ports: Seq<u16>,
    port: u16,
)
    ensures
        routes_text(Seq::empty()) == "[]"@,
        ports_text(Seq::empty()) == "[]"@,
        ({
            let shown = "Route { path_prefix: "@ + quoted(route.path_prefix) + ", port: "@
                + crate::number::decimal(route.port as nat) + " }"@;
            &&& routes_text(seq![route]) == "["@ + shown + "]"@
            &&& routes.len() > 0 ==> routes_text(routes.push(route)) == routes_text(
                routes,
            ).drop_last() + ", "@ + shown + "]"@
        }),
        ports_text(seq![port]) == "["@ + crate::number::decimal(port as nat) + "]"@,
        ports.len() > 0 ==> ports_text(ports.push(port)) == ports_text(ports).drop_last() + ", "@
            + crate::number::decimal(port as nat) + "]"@,
{
    reveal_strlit("[");
    reveal_strlit("]");
    reveal_strlit("[]");
    assert(routes_text(Seq::empty()) =~= "[]"@);
    assert(ports_text(Seq::empty()) =~= "[]"@);
    assert(routes.push(route).drop_last() =~= routes);
    assert(ports.push(port).drop_last() =~= ports);
    assert(routes_text(routes).drop_last() =~= "["@ + route_list(routes));
    assert(ports_text(ports).drop_last() =~= "["@ + port_list(ports));
    if routes.len() > 0 {
        assert(routes_text(routes.push(route)) =~= routes_text(routes).drop_last() + ", "@
            + route_text(route) + "]"@);
    }
    if ports.len() > 0 {
        assert(ports_text(ports.push(port)) =~= ports_text(ports).drop_last() + ", "@
            + crate::number::decimal(port as nat) + "]"@);
    }
}

/// How messages are shown.
pub proof fn law_shown_messages(
    subdomain: Seq<char>,
    routes: Seq<crate::protocol::RouteView>,
    machine_id: Seq<char>,
    udp_ports: Seq<u16>,
    public_url: Seq<char>,
    message: Seq<char>,
)
    ensures
        message_text(crate::protocol::MessageView::Ping) == "Ping"@,
        message_text(crate::protocol::MessageView::Pong) == "Pong"@,
        message_text(crate::protocol::MessageView::Error { message }) == "Error { message: "@
            + quoted(message) + " }"@,
        message_text(
            crate::protocol::MessageView::Registered { subdomain, public_url, ephemeral: true },
        ) == "Registered { subdomain: "@ + quoted(subdomain) + ", public_url: "@ + quoted(
            public_url,
        ) + ", ephemeral: true }"@,
        message_text(
            crate::protocol::MessageView::Registered { subdomain, public_url, ephemeral: false },
        ) == "Registered { subdomain: "@ + quoted(subdomain) + ", public_url: "@ + quoted(
            public_url,
        ) + ", ephemeral: false }"@,
        message_text(
            crate::protocol::MessageView::Register {
                subdomain: Some(subdomain),
                routes,
                machine_id: Some(machine_id),
                udp_ports,
            },
        ) == "Register { subdomain: Some("@ + quoted(subdomain) + "), routes: "@ + routes_text(
            routes,
        ) + ", machine_id: Some("@ + quoted(machine_id) + "), udp_ports: "@ + ports_text(udp_ports)
            + " }"@,
        message_text(
            crate::protocol::MessageView::Register {
                subdomain: None,
                routes,
                machine_id: None,
                udp_ports,
            },
        ) == "Register { subdomain: None, routes: "@ + routes_text(routes)
            + ", machine_id: None, udp_ports: "@ + ports_text(udp_ports) + " }"@,
{
    lemma_shown_registered(subdomain, public_url);
    lemma_shown_register(subdomain, routes, machine_id, udp_ports);
}

proof fn lemma_shown_registered(subdomain: Seq<char>, public_url: Seq<char>)
    ensures
        message_text(
            crate::protocol::MessageView::Registered { subdomain, public_url, ephemeral: true },
        ) == "Registered { subdomain: "@ + quoted(subdomain) + ", public_url: "@ + quoted(
            public_url,
        ) + ", ephemeral: true }"@,
        message_text(
            crate::protocol::MessageView::Registered { subdomain, public_url, ephemeral: false },
        ) == "Registered { subdomain: "@ + quoted(subdomain) + ", public_url: "@ + quoted(
            public_url,
        ) + ", ephemeral: false }"@,
{
    reveal_strlit(", ephemeral: ");
    reveal_strlit("true");
    reveal_strlit("false");
    reveal_strlit(" }");
    reveal_strlit(", ephemeral: true }");
    reveal_strlit(", ephemeral: false }");
    let front = "Registered { subdomain: "@ + quoted(subdomain) + ", public_url: "@ + quoted(
        public_url,
    );
    assert(front + ", ephemeral: "@ + "true"@ + " }"@ =~= front + ", ephemeral: true }"@);
    assert(front + ", ephemeral: "@ + "false"@ + " }"@ =~= front + ", ephemeral: false }"@);
}

proof fn lemma_shown_register(
    subdomain: Seq<char>,
    routes: Seq<crate::protocol::RouteView>,
    machine_id: Seq<char>,
    udp_ports: Seq<u16>,
)
    ensures
        message_text(
            crate::protocol::MessageView::Register {
                subdomain: Some(subdomain),
                routes,
                machine_id: Some(machine_id),
                udp_ports,
            },
        ) == "Register { subdomain: Some("@ + quoted(subdomain) + "), routes: "@ + routes_text(
            routes,
        ) + ", machine_id: Some("@ + quoted(machine_id) + "), udp_ports: "@ + ports_text(udp_ports)
            + " }"@,
        message_text(
            crate::protocol::MessageView::Register {
                subdomain: None,
                routes,
                machine_id: None,
                udp_ports,
            },
        ) == "Register { subdomain: None, routes: "@ + routes_text(routes)
            + ", machine_id: None, udp_ports: "@ + ports_text(udp_ports) + " }"@,
{
    let (a, b, c, d) = (
        quoted(subdomain),
        routes_text(routes),
        quoted(machine_id),
        ports_text(udp_ports),
    );
    reveal_strlit("Register { subdomain: ");
    reveal_strlit("Some(");
    reveal_strlit(")");
    reveal_strlit("None");
    reveal_strlit(", routes: ");
    reveal_strlit(", machine_id: ");
    reveal_strlit(", udp_ports: ");
    reveal_strlit("Register { subdomain: Some(");
    reveal_strlit("), routes: ");
    reveal_strlit(", machine_id: Some(");
    reveal_strlit("), udp_ports: ");
    reveal_strlit("Register { subdomain: None, routes: ");
    reveal_strlit(", machine_id: None, udp_ports: ");
    assert("Register { subdomain: "@ + ("Some("@ + a + ")"@) + ", routes: "@
        =~= "Register { subdomain: Some("@ + a + "), routes: "@);
    assert(", machine_id: "@ + ("Some("@ + c + ")"@) + ", udp_ports: "@
        =~= ", machine_id: Some("@ + c + "), udp_ports: "@);
    assert("Register { subdomain: "@ + "None"@ + ", routes: "@
        =~= "Register { subdomain: None, routes: "@);
    assert(", machine_id: "@ + "None"@ + ", udp_ports: "@ =~= ", machine_id: None, udp_ports: "@);
    let front = "Register { subdomain: "@ + ("Some("@ + a + ")"@) + ", routes: "@;
    let middle = ", machine_id: "@ + ("Some("@ + c + ")"@) + ", udp_ports: "@;
    assert(front + b + ", machine_id: "@ + ("Some("@ + c + ")"@) + ", udp_ports: "@ + d + " }"@
        =~= front + b + middle + d + " }"@);
    assert("Register { subdomain: Some("@ + a + "), routes: "@ + b + ", machine_id: Some("@ + c
        + "), udp_ports: "@ + d + " }"@ =~= ("Register { subdomain: Some("@ + a + "), routes: "@) + b
        + (", machine_id: Some("@ + c + "), udp_ports: "@) + d + " }"@);
    let bare = ", machine_id: "@ + "None"@ + ", udp_ports: "@;
    assert("Register { subdomain: "@ + "None"@ + ", routes: "@ + b + ", machine_id: "@ + "None"@
        + ", udp_ports: "@ + d + " }"@ =~= ("Register { subdomain: "@ + "None"@ + ", routes: "@) + b
        + bare + d + " }"@);
}

} // verus!
