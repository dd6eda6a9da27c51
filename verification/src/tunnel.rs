//! The CLI's side of a tunnel: its options, its registration and what it
//! prints.
use vstd::prelude::*;
use vstd::slice::slice_subrange;

use crate::number::push_decimal;
use crate::protocol::{clone_routes, ControlMessage, Route};
use crate::render::debug_message;
use crate::text::{
    char_is_digit, chars_of, find_char, opt_clone, rsplit_once_char, same_str, string_of,
};
use crate::udp::masque_udp_url;

verus! {

/// What a tunnel is to be.
pub struct TunnelOptions {
    pub port: Option<u16>,
    pub routes: Vec<Route>,
    pub subdomain: Option<String>,
    /// Host:port of the edge's QUIC listener. Host names are resolved by DNS.
    pub edge: String,
    pub server_name: String,
    pub local_host: String,
    /// File for the webhook log; `None` is the user's data directory.
    pub db_path: Option<String>,
    pub tui: bool,
    pub machine_id: Option<String>,
    /// Local UDP ports advertised for MASQUE CONNECT-UDP.
    pub udp_ports: Vec<u16>,
}

impl Default for TunnelOptions {
    fn default() -> (opts: Self)
        ensures
            opts.port == Some(3000u16),
            opts.routes@.len() == 0,
            opts.subdomain is None,
            opts.edge@ == "127.0.0.1:4433"@,
            opts.server_name@ == "localhost"@,
            opts.local_host@ == "127.0.0.1"@,
            opts.db_path is None,
            !opts.tui,
            opts.machine_id is None,
            opts.udp_ports@.len() == 0,
    {
        TunnelOptions {
            port: Some(3000),
            routes: Vec::new(),
            subdomain: None,
            edge: "127.0.0.1:4433".to_owned(),
            server_name: "localhost".to_owned(),
            local_host: "127.0.0.1".to_owned(),
            db_path: None,
            tui: false,
            machine_id: None,
            udp_ports: Vec::new(),
        }
    }
}

/// The routes of a tunnel: those that were given, or else one from everywhere
/// to the port.
pub open spec fn resolved(
    routes: Seq<crate::protocol::RouteView>,
    port: Option<u16>,
) -> Result<Seq<crate::protocol::RouteView>, Seq<char>> {
    if routes.len() > 0 {
        Ok(routes)
    } else {
        match port {
            Some(p) => Ok(seq![crate::protocol::RouteView { path_prefix: seq!['/'], port: p }]),
            None => Err("pass --port or at least one --route PATH=PORT"@),
        }
    }
}

impl TunnelOptions {
    pub fn resolved_routes(&self) -> (res: Result<Vec<Route>, String>)
        ensures
            match res {
                Ok(routes) => resolved(
                    crate::protocol::route_views(self.routes@),
                    self.port,
                ) == Ok::<Seq<crate::protocol::RouteView>, Seq<char>>(
                    crate::protocol::route_views(routes@),
                ),
                Err(message) => resolved(
                    crate::protocol::route_views(self.routes@),
                    self.port,
                ) == Err::<Seq<crate::protocol::RouteView>, Seq<char>>(message@),
            },
    {
        if self.routes.len() > 0 {
            return Ok(clone_routes(&self.routes));
        }
        match self.port {
            Some(port) => {
                let mut routes: Vec<Route> = Vec::new();
                routes.push(Route::catch_all(port));
                assert(crate::protocol::route_views(routes@) =~= seq![
                    crate::protocol::RouteView { path_prefix: seq!['/'], port },
                ]);
                Ok(routes)
            },
            None => Err("pass --port or at least one --route PATH=PORT".to_owned()),
        }
    }

    /// The message that asks the edge for this tunnel.
    pub fn register_message(&self, routes: &Vec<Route>) -> (message: ControlMessage)
        ensures
            message@ == (crate::protocol::MessageView::Register {
                subdomain: crate::text::opt_text(self.subdomain),
                routes: crate::protocol::route_views(routes@),
                machine_id: crate::text::opt_text(self.machine_id),
                udp_ports: self.udp_ports@,
            }),
    {
        let mut udp_ports: Vec<u16> = Vec::new();
        udp_ports.extend_from_slice(self.udp_ports.as_slice());
        assert(udp_ports@ =~= self.udp_ports@);
        ControlMessage::Register {
            subdomain: opt_clone(&self.subdomain),
            routes: clone_routes(routes),
            machine_id: opt_clone(&self.machine_id),
            udp_ports,
        }
    }
}

/// The first route that cannot be read, or all of them.
pub open spec fn routes_of(specs: Seq<Seq<char>>) -> Result<
    Seq<crate::protocol::RouteView>,
    Seq<char>,
>
    decreases specs.len(),
{
    if specs.len() == 0 {
        Ok(Seq::empty())
    } else {
        match routes_of(specs.drop_last()) {
            Err(e) => Err(e),
            Ok(routes) => match crate::protocol::route_of(specs.last()) {
                Err(e) => Err(e),
                Ok(route) => Ok(routes.push(route)),
            },
        }
    }
}

proof fn lemma_routes_prefix_fails(specs: Seq<Seq<char>>, k: int)
    requires
        0 <= k <= specs.len(),
        routes_of(specs.take(k)) is Err,
    ensures
        routes_of(specs) == routes_of(specs.take(k)),
    decreases specs.len(),
{
    if k == specs.len() {
        assert(specs.take(k) =~= specs);
    } else {
        assert(specs.drop_last().take(k) =~= specs.take(k));
        lemma_routes_prefix_fails(specs.drop_last(), k);
    }
}

/// The routes that `PATH=PORT` arguments name, or the complaint about the
/// first bad one.
pub fn parse_routes(specs: &Vec<String>) -> (res: Result<Vec<Route>, String>)
    ensures
        match res {
            Ok(routes) => routes_of(crate::text::strings(specs@)) == Ok::<
                Seq<crate::protocol::RouteView>,
                Seq<char>,
            >(crate::protocol::route_views(routes@)),
            Err(message) => routes_of(crate::text::strings(specs@)) == Err::<
                Seq<crate::protocol::RouteView>,
                Seq<char>,
            >(message@),
        },
{
    let ghost texts = crate::text::strings(specs@);
    let mut routes: Vec<Route> = Vec::new();
    let mut i: usize = 0;
    assert(crate::protocol::route_views(routes@) =~= Seq::empty());
    while i < specs.len()
        invariant
            i <= specs@.len(),
            texts == crate::text::strings(specs@),
            routes_of(texts.take(i as int)) == Ok::<Seq<crate::protocol::RouteView>, Seq<char>>(
                crate::protocol::route_views(routes@),
            ),
        decreases specs@.len() - i,
    {
        let ghost next = texts.take(i + 1);
        assert(next.drop_last() =~= texts.take(i as int));
        assert(next.last() == specs@[i as int]@);
        match Route::parse(specs[i].as_str()) {
            Err(message) => {
                proof {
                    lemma_routes_prefix_fails(texts, i + 1);
                }
                return Err(message);
            },
            Ok(route) => {
                let ghost before = routes@;
                let ghost view = route@;
                routes.push(route);
                assert(crate::protocol::route_views(routes@) =~= crate::protocol::route_views(
                    before,
                ).push(view));
            },
        }
        i = i + 1;
    }
    assert(texts.take(i as int) =~= texts);
    Ok(routes)
}

/// The host of `host:port` or `[host]:port`; text without a port is all host.
pub open spec fn edge_host(edge: Seq<char>) -> Seq<char> {
    if edge.len() > 0 && edge[0] == '[' && crate::search::find(edge.skip(1), seq![']']) is Some {
        edge.skip(1).take(crate::search::find(edge.skip(1), seq![']'])->Some_0)
    } else {
        match crate::text::rsplit_once(edge, ':') {
            Some((host, port)) => if all_digits(port) {
                host
            } else {
                edge
            },
            None => edge,
        }
    }
}

pub open spec fn all_digits(s: Seq<char>) -> bool {
    forall|i: int| 0 <= i < s.len() ==> crate::text::is_digit(#[trigger] s[i])
}

fn is_all_digits(s: &[char]) -> (res: bool)
    ensures
        res == all_digits(s@),
{
    let mut i: usize = 0;
    while i < s.len()
        invariant
            i <= s@.len(),
            forall|j: int| 0 <= j < i ==> crate::text::is_digit(#[trigger] s@[j]),
        decreases s@.len() - i,
    {
        if !char_is_digit(s[i]) {
            return false;
        }
        i = i + 1;
    }
    true
}

/// The host name of an edge address.
pub fn edge_hostname(edge: &str) -> (res: String)
    ensures
        res@ == edge_host(edge@),
{
    let chars: Vec<char> = chars_of(edge);
    let n: usize = chars.len();
    if n > 0 && chars[0] == '[' {
        let rest = slice_subrange(chars.as_slice(), 1, n);
        assert(rest@ =~= edge@.skip(1));
        proof {
            crate::text::lemma_find_char(rest@, ']');
        }
        if let Some(end) = find_char(rest, ']') {
            let host = slice_subrange(rest, 0, end);
            assert(host@ =~= rest@.take(end as int));
            return string_of(host);
        }
    }
    if let Some((host, port)) = rsplit_once_char(chars.as_slice(), ':') {
        if is_all_digits(port) {
            return string_of(host);
        }
    }
    edge.to_owned()
}

/// The TLS server name for an edge: the default one gives way to the edge's own
/// host name, where that is a name and not an address.
pub fn tls_server_name(server_name: &str, edge_host: &str, host_is_address: bool) -> (res: String)
    ensures
        res@ == (if server_name@ == "localhost"@ && !host_is_address {
            edge_host@
        } else {
            server_name@
        }),
{
    if same_str(server_name, "localhost") && !host_is_address {
        edge_host.to_owned()
    } else {
        server_name.to_owned()
    }
}

/// Which of some addresses to dial: the first IPv4 one, or else the first.
pub fn preferred_address(is_ipv4: &[bool]) -> (res: Option<usize>)
    ensures
        match res {
            None => is_ipv4@.len() == 0,
            Some(k) => {
                &&& k < is_ipv4@.len()
                &&& is_ipv4@[k as int] ==> forall|j: int| 0 <= j < k ==> !is_ipv4@[j]
                &&& !is_ipv4@[k as int] ==> k == 0 && forall|j: int|
                    0 <= j < is_ipv4@.len() ==> !is_ipv4@[j]
            },
        },
{
    let mut i: usize = 0;
    while i < is_ipv4.len()
        invariant
            i <= is_ipv4@.len(),
            forall|j: int| 0 <= j < i ==> !is_ipv4@[j],
        decreases is_ipv4@.len() - i,
    {
        if is_ipv4[i] {
            return Some(i);
        }
        i = i + 1;
    }
    if is_ipv4.len() > 0 {
        Some(0)
    } else {
        None
    }
}

/// What the edge granted.
pub struct Registration {
    pub subdomain: String,
    pub public_url: String,
    pub ephemeral: bool,
}

/// What the edge's answer to a registration grants, or why it grants nothing.
pub fn registration(reply: ControlMessage) -> (res: Result<Registration, String>)
    ensures
        match reply@ {
            crate::protocol::MessageView::Registered { subdomain, public_url, ephemeral } => {
                res matches Ok(r) && r.subdomain@ == subdomain && r.public_url@ == public_url
                    && r.ephemeral == ephemeral
            },
            crate::protocol::MessageView::Error { message } => res matches Err(e) && e@
                == "edge rejected tunnel: "@ + message,
            other => res matches Err(e) && e@ == "unexpected control message: "@
                + crate::render::message_text(other),
        },
{
    match reply {
        ControlMessage::Registered { subdomain, public_url, ephemeral } => Ok(
            Registration { subdomain, public_url, ephemeral },
        ),
        ControlMessage::Error { message } => {
            let mut text: String = String::new();
            text.append("edge rejected tunnel: ");
            text.append(message.as_str());
            assert(text@ =~= "edge rejected tunnel: "@ + message@);
            Err(text)
        },
        other => {
            let mut text: String = String::new();
            text.append("unexpected control message: ");
            text.append(debug_message(&other).as_str());
            assert(text@ =~= "unexpected control message: "@ + crate::render::message_text(
                other@,
            ));
            Err(text)
        },
    }
}

/// The seconds between two pings.
pub const PING_EVERY: u64 = 20;

/// The seconds that the answer to a ping may take.
pub const PONG_WITHIN: u64 = 10;

/// What happened on the control stream of a live tunnel.
pub enum KeepAliveEvent {
    /// The tunnel went live.
    Started,
    /// The pause is over.
    Slept,
    /// The ping was sent.
    Pinged,
    /// The edge answered.
    Answered(ControlMessage),
    /// The stream broke, or the answer took too long.
    Failed,
}

/// How the control stream of a live tunnel is kept alive.
#[derive(Clone, Copy, Debug, PartialEq, Eq, Structural)]
pub enum KeepAliveAction {
    /// Pause for so many seconds.
    Sleep(u64),
    Ping,
    /// Wait so many seconds for an answer.
    Await(u64),
    Stop,
}

/// What follows on the control stream: a pause, a ping and a pong, over and
/// over. Anything else ends it.
pub fn keep_alive(event: KeepAliveEvent) -> (action: KeepAliveAction)
    ensures
        action == (match event {
            KeepAliveEvent::Started => KeepAliveAction::Sleep(20),
            KeepAliveEvent::Slept => KeepAliveAction::Ping,
            KeepAliveEvent::Pinged => KeepAliveAction::Await(10),
            KeepAliveEvent::Answered(message) => if message@ is Pong {
                KeepAliveAction::Sleep(20)
            } else {
                KeepAliveAction::Stop
            },
            KeepAliveEvent::Failed => KeepAliveAction::Stop,
        }),
{
    match event {
        KeepAliveEvent::Started => KeepAliveAction::Sleep(PING_EVERY),
        KeepAliveEvent::Slept => KeepAliveAction::Ping,
        KeepAliveEvent::Pinged => KeepAliveAction::Await(PONG_WITHIN),
        KeepAliveEvent::Answered(message) => match message {
            ControlMessage::Pong => KeepAliveAction::Sleep(PING_EVERY),
            _ => KeepAliveAction::Stop,
        },
        KeepAliveEvent::Failed => KeepAliveAction::Stop,
    }
}

/// How often the notice of a new release is looked for.
pub const NOTICE_LOOKS: u32 = 20;

/// The milliseconds between two looks.
pub const NOTICE_PAUSE: u64 = 500;

/// What follows a look for the notice of a new release.
pub enum NoticeStep {
    Print(String),
    /// Look again after so many milliseconds.
    Pause(u64),
    Stop,
}

/// What follows the look after `looks` others: the notice is printed as soon as
/// it is there, and given up after the last look.
pub fn notice_step(looks: u32, notice: Option<String>) -> (step: NoticeStep)
    ensures
        if looks >= 20 {
            step is Stop
        } else {
            match notice {
                Some(text) => step matches NoticeStep::Print(printed) && printed@ == "\n"@ + text@
                    + "\n"@,
                None => step == NoticeStep::Pause(500),
            }
        },
{
    if looks >= NOTICE_LOOKS {
        return NoticeStep::Stop;
    }
    match notice {
        Some(text) => {
            let mut out: String = String::new();
            out.append("\n");
            out.append(text.as_str());
            out.append("\n");
            assert(out@ =~= "\n"@ + text@ + "\n"@);
            NoticeStep::Print(out)
        },
        None => NoticeStep::Pause(NOTICE_PAUSE),
    }
}

/// The public URL, marked where the name is a random one.
pub open spec fn shown_url(public_url: Seq<char>, ephemeral: bool) -> Seq<char> {
    if ephemeral {
        public_url + " (random)"@
    } else {
        public_url
    }
}

pub fn format_public_url(public_url: &str, ephemeral: bool) -> (out: String)
    ensures
        out@ == shown_url(public_url@, ephemeral),
{
    let mut out: String = String::new();
    out.append(public_url);
    if ephemeral {
        out.append(" (random)");
    }
    assert(out@ =~= shown_url(public_url@, ephemeral));
    out
}

/// The line that shows a route.
pub open spec fn route_line(route: crate::protocol::RouteView, local_host: Seq<char>) -> Seq<char> {
    "  Route      -> "@ + route.path_prefix + " -> "@ + local_host + ":"@ + crate::number::decimal(
        route.port as nat,
    ) + "\n"@
}

/// The lines that show routes.
pub open spec fn route_lines(
    routes: Seq<crate::protocol::RouteView>,
    local_host: Seq<char>,
) -> Seq<char>
    decreases routes.len(),
{
    if routes.len() == 0 {
        Seq::empty()
    } else {
        route_lines(routes.drop_last(), local_host) + route_line(routes.last(), local_host)
    }
}

/// The lines that show a UDP port.
pub open spec fn udp_line(port: u16, public_url: Seq<char>, local_host: Seq<char>) -> Seq<char> {
    "  MASQUE     -> "@ + crate::text::trim_end_char(public_url, '/') + crate::udp::masque_path(port)
        + "\n  UDP        -> "@ + local_host + ":"@ + crate::number::decimal(port as nat)
        + " (CONNECT-UDP only)\n"@
}

/// The lines that show UDP ports.
pub open spec fn udp_lines(ports: Seq<u16>, public_url: Seq<char>, local_host: Seq<char>) -> Seq<
    char,
>
    decreases ports.len(),
{
    if ports.len() == 0 {
        Seq::empty()
    } else {
        udp_lines(ports.drop_last(), public_url, local_host) + udp_line(
            ports.last(),
            public_url,
            local_host,
        )
    }
}

/// What is printed when a tunnel goes live.
pub open spec fn banner_text(
    public_url: Seq<char>,
    ephemeral: bool,
    routes: Seq<crate::protocol::RouteView>,
    udp_ports: Seq<u16>,
    local_host: Seq<char>,
) -> Seq<char> {
    "\n  Vyse tunnel is live\n  Public     -> "@ + shown_url(public_url, ephemeral) + "\n"@
        + route_lines(routes, local_host) + udp_lines(udp_ports, public_url, local_host) + "\n"@
}

fn push_route_lines(out: &mut String, routes: &Vec<Route>, local_host: &str)
    ensures
        final(out)@ == old(out)@ + route_lines(
            crate::protocol::route_views(routes@),
            local_host@,
        ),
{
    let ghost views = crate::protocol::route_views(routes@);
    let ghost start = out@;
    let mut i: usize = 0;
    assert(out@ =~= start + route_lines(views.take(0), local_host@));
    while i < routes.len()
        invariant
            i <= routes@.len(),
            views == crate::protocol::route_views(routes@),
            out@ == start + route_lines(views.take(i as int), local_host@),
        decreases routes@.len() - i,
    {
        let ghost next = views.take(i + 1);
        assert(next.drop_last() =~= views.take(i as int));
        assert(next.last() == routes@[i as int]@);
        out.append("  Route      -> ");
        out.append(routes[i].path_prefix.as_str());
        out.append(" -> ");
        out.append(local_host);
        out.append(":");
        push_decimal(out, routes[i].port as u64);
        out.append("\n");
        assert(out@ =~= start + route_lines(next, local_host@));
        i = i + 1;
    }
    assert(views.take(i as int) =~= views);
}

fn push_udp_lines(out: &mut String, ports: &Vec<u16>, public_url: &str, local_host: &str)
    ensures
        final(out)@ == old(out)@ + udp_lines(ports@, public_url@, local_host@),
{
    let ghost start = out@;
    let mut i: usize = 0;
    assert(out@ =~= start + udp_lines(ports@.take(0), public_url@, local_host@));
    while i < ports.len()
        invariant
            i <= ports@.len(),
            out@ == start + udp_lines(ports@.take(i as int), public_url@, local_host@),
        decreases ports@.len() - i,
    {
        let ghost next = ports@.take(i + 1);
        assert(next.drop_last() =~= ports@.take(i as int));
        out.append("  MASQUE     -> ");
        out.append(masque_udp_url(public_url, ports[i]).as_str());
        out.append("\n  UDP        -> ");
        out.append(local_host);
        out.append(":");
        push_decimal(out, ports[i] as u64);
        out.append(" (CONNECT-UDP only)\n");
        assert(out@ =~= start + udp_lines(next, public_url@, local_host@));
        i = i + 1;
    }
    assert(ports@.take(i as int) =~= ports@);
}

/// What is printed when a tunnel goes live.
pub fn banner(granted: &Registration, routes: &Vec<Route>, udp_ports: &Vec<u16>, local_host: &str)
    -> (out: String)
    ensures
        out@ == banner_text(
            granted.public_url@,
            granted.ephemeral,
            crate::protocol::route_views(routes@),
            udp_ports@,
            local_host@,
        ),
{
    let mut out: String = String::new();
    out.append("\n  Vyse tunnel is live\n  Public     -> ");
    out.append(format_public_url(granted.public_url.as_str(), granted.ephemeral).as_str());
    out.append("\n");
    push_route_lines(&mut out, routes, local_host);
    push_udp_lines(&mut out, udp_ports, granted.public_url.as_str(), local_host);
    out.append("\n");
    assert(out@ =~= banner_text(
        granted.public_url@,
        granted.ephemeral,
        crate::protocol::route_views(routes@),
        udp_ports@,
        local_host@,
    ));
    out
}

/// A tunnel with a port or a route always has routes to register.
pub proof fn law_a_port_is_enough(routes: Seq<crate::protocol::RouteView>, port: u16)
    ensures
        resolved(routes, Some(port)) matches Ok(all) && all.len() > 0,
        routes.len() > 0 ==> resolved(routes, None) == Ok::<
            Seq<crate::protocol::RouteView>,
            Seq<char>,
        >(routes),
{
}

/// The host of an edge address stands in front of the last colon, where digits
/// follow that, or between brackets; an address without a port is all host.
pub proof fn law_edge_hosts(host: Seq<char>, port: Seq<char>, rest: Seq<char>)
    ensures
        (host.len() == 0 || host[0] != '[') && (forall|i: int|
            0 <= i < port.len() ==> '0' <= #[trigger] port[i] <= '9') ==> edge_host(
            host + seq![':'] + port,
        ) == host,
        (host.len() == 0 || host[0] != '[') && (forall|i: int|
            0 <= i < port.len() ==> #[trigger] port[i] != ':') && (exists|i: int|
            0 <= i < port.len() && !('0' <= #[trigger] port[i] <= '9')) ==> edge_host(
            host + seq![':'] + port,
        ) == host + seq![':'] + port,
        (forall|i: int| 0 <= i < host.len() ==> #[trigger] host[i] != ':') && (host.len() == 0
            || host[0] != '[') ==> edge_host(host) == host,
        (forall|i: int| 0 <= i < host.len() ==> #[trigger] host[i] != ']') ==> edge_host(
            seq!['['] + host + seq![']'] + rest,
        ) == host,
{
    let all = host + seq![':'] + port;
    if host.len() > 0 {
        assert(all[0] == host[0]);
    } else {
        assert(all[0] == ':');
    }
    if forall|i: int| 0 <= i < port.len() ==> '0' <= #[trigger] port[i] <= '9' {
        assert forall|i: int| 0 <= i < port.len() implies port[i] != ':' by {
            assert('0' <= port[i] <= '9');
        }
        crate::text::law_splitting(host, ':', port);
        assert(all_digits(port));
    }
    if (forall|i: int| 0 <= i < port.len() ==> #[trigger] port[i] != ':') && (exists|i: int|
        0 <= i < port.len() && !('0' <= #[trigger] port[i] <= '9')) {
        crate::text::law_splitting(host, ':', port);
        let i = choose|i: int| 0 <= i < port.len() && !('0' <= #[trigger] port[i] <= '9');
        assert(!crate::text::is_digit(port[i]));
    }
    if forall|i: int| 0 <= i < host.len() ==> #[trigger] host[i] != ':' {
        crate::text::law_splitting(host, ':', port);
    }
    if forall|i: int| 0 <= i < host.len() ==> #[trigger] host[i] != ']' {
        let whole = seq!['['] + host + seq![']'] + rest;
        let inner = host + seq![']'] + rest;
        assert(whole.skip(1) =~= inner);
        assert forall|i: int| 0 <= i < host.len() implies inner[i] != ']' by {
            assert(inner[i] == host[i]);
        }
        crate::text::lemma_find_char_is(inner, ']', host.len() as int);
        assert(inner.take(host.len() as int) =~= host);
    }
}

/// Arguments name routes one by one, in their order; the first that names none
/// decides what is said.
pub proof fn law_arguments_name_routes(specs: Seq<Seq<char>>, spec_text: Seq<char>)
    ensures
        routes_of(Seq::empty()) == Ok::<Seq<crate::protocol::RouteView>, Seq<char>>(Seq::empty()),
        match (routes_of(specs), crate::protocol::route_of(spec_text)) {
            (Err(fault), _) => routes_of(specs.push(spec_text)) == Err::<
                Seq<crate::protocol::RouteView>,
                Seq<char>,
            >(fault),
            (Ok(routes), Err(fault)) => routes_of(specs.push(spec_text)) == Err::<
                Seq<crate::protocol::RouteView>,
                Seq<char>,
            >(fault),
            (Ok(routes), Ok(route)) => routes_of(specs.push(spec_text)) == Ok::<
                Seq<crate::protocol::RouteView>,
                Seq<char>,
            >(routes.push(route)),
        },
{
    assert(specs.push(spec_text).drop_last() =~= specs);
}

/// The routes that were given are the tunnel's; without any, everything goes to
/// its port, and without that either there is no tunnel.
pub proof fn law_routes_of_a_tunnel(
    routes: Seq<crate::protocol::RouteView>,
    port: Option<u16>,
    number: u16,
)
    ensures
        routes.len() > 0 ==> resolved(routes, port) == Ok::<
            Seq<crate::protocol::RouteView>,
            Seq<char>,
        >(routes),
        resolved(Seq::empty(), Some(number)) == Ok::<
            Seq<crate::protocol::RouteView>,
            Seq<char>,
        >(seq![crate::protocol::RouteView { path_prefix: seq!['/'], port: number }]),
        resolved(Seq::empty(), None) == Err::<Seq<crate::protocol::RouteView>, Seq<char>>(
            "pass --port or at least one --route PATH=PORT"@,
        ),
{
}

/// The banner shows the URL, marked where its name is a random one, and a line for
/// each route and two for each UDP port, in their order.
pub proof fn law_the_banner(
    public_url: Seq<char>,
    routes: Seq<crate::protocol::RouteView>,
    route: crate::protocol::RouteView,
    udp_ports: Seq<u16>,
    port: u16,
    local_host: Seq<char>,
)
    requires
        public_url.len() > 0,
        public_url.last() != '/',
    ensures
        banner_text(public_url, false, routes, udp_ports, local_host)
            == "\n  Vyse tunnel is live\n  Public     -> "@ + public_url + "\n"@ + route_lines(
            routes,
            local_host,
        ) + udp_lines(udp_ports, public_url, local_host) + "\n"@,
        banner_text(public_url, true, routes, udp_ports, local_host)
            == "\n  Vyse tunnel is live\n  Public     -> "@ + public_url + " (random)\n"@
            + route_lines(routes, local_host) + udp_lines(udp_ports, public_url, local_host)
            + "\n"@,
        route_lines(Seq::empty(), local_host).len() == 0,
        route_lines(routes.push(route), local_host) == route_lines(routes, local_host)
            + "  Route      -> "@ + route.path_prefix + " -> "@ + local_host + ":"@
            + crate::number::decimal(route.port as nat) + "\n"@,
        udp_lines(Seq::empty(), public_url, local_host).len() == 0,
        udp_lines(udp_ports.push(port), public_url, local_host) == udp_lines(
            udp_ports,
            public_url,
            local_host,
        ) + "  MASQUE     -> "@ + public_url + crate::udp::masque_path(port)
            + "\n  UDP        -> "@ + local_host + ":"@ + crate::number::decimal(port as nat)
            + " (CONNECT-UDP only)\n"@,
        shown_url(public_url, true) == public_url + " (random)"@,
        shown_url(public_url, false) == public_url,
{
    reveal_strlit(" (random)");
    reveal_strlit(" (random)\n");
    reveal_strlit("\n");
    assert(routes.push(route).drop_last() =~= routes);
    assert(udp_ports.push(port).drop_last() =~= udp_ports);
    assert(crate::text::trim_end_char(public_url, '/') == public_url);
    assert(route_lines(routes.push(route), local_host) =~= route_lines(routes, local_host)
        + "  Route      -> "@ + route.path_prefix + " -> "@ + local_host + ":"@
        + crate::number::decimal(route.port as nat) + "\n"@);
    assert(udp_lines(udp_ports.push(port), public_url, local_host) =~= udp_lines(
        udp_ports,
        public_url,
        local_host,
    ) + "  MASQUE     -> "@ + public_url + crate::udp::masque_path(port) + "\n  UDP        -> "@
        + local_host + ":"@ + crate::number::decimal(port as nat) + " (CONNECT-UDP only)\n"@);
    assert(banner_text(public_url, true, routes, udp_ports, local_host)
        =~= "\n  Vyse tunnel is live\n  Public     -> "@ + public_url + " (random)\n"@
        + route_lines(routes, local_host) + udp_lines(udp_ports, public_url, local_host) + "\n"@);
}

/// A live tunnel pauses for 20 seconds, pings and waits 10 seconds for the pong,
/// over and over; any other answer and every failure ends it.
pub proof fn law_pings_go_on(event: KeepAliveEvent, action: KeepAliveAction)
    requires
        call_ensures(keep_alive, (event,), action),
    ensures
        action == KeepAliveAction::Sleep(20) <==> event is Started || (
        event matches KeepAliveEvent::Answered(m) && m@ == crate::protocol::MessageView::Pong),
        action == KeepAliveAction::Ping <==> event is Slept,
        action == KeepAliveAction::Await(10) <==> event is Pinged,
        action == KeepAliveAction::Stop <==> event is Failed || (
        event matches KeepAliveEvent::Answered(m) && m@ != crate::protocol::MessageView::Pong),
{
}

/// The notice of a new release is looked for 20 times, half a second apart, and
/// printed between line breaks when it is there.
pub proof fn law_notices(looks: u32, notice: Option<String>, step: NoticeStep)
    requires
        call_ensures(notice_step, (looks, notice), step),
    ensures
        step is Stop <==> looks >= 20,
        looks < 20 && notice is None ==> step == NoticeStep::Pause(500),
        looks < 20 ==> (notice matches Some(text) ==> step matches NoticeStep::Print(printed)
            && printed@.len() == text@.len() + 2 && printed@[0] == '\n' && printed@.last() == '\n'
            && printed@.subrange(1, printed@.len() - 1) == text@),
{
    reveal_strlit("\n");
    if looks < 20 {
        if let Some(text) = notice {
            let printed = "\n"@ + text@ + "\n"@;
            assert(printed.subrange(1, printed.len() - 1) =~= text@);
        }
    }
}

/// A server name other than `localhost` stays as it is; `localhost` gives way to
/// the edge's own host, unless that is an address.
pub proof fn law_server_names(
    server_name: &str,
    edge_host: &str,
    host_is_address: bool,
    res: String,
)
    requires
        call_ensures(tls_server_name, (server_name, edge_host, host_is_address), res),
    ensures
        server_name@ != "localhost"@ ==> res@ == server_name@,
        server_name@ == "localhost"@ && host_is_address ==> res@ == "localhost"@,
        server_name@ == "localhost"@ && !host_is_address ==> res@ == edge_host@,
{
}

/// The first IPv4 address is dialled, and the first address where there is none.
pub proof fn law_dialled_address(is_ipv4: &[bool], res: Option<usize>, k: int)
    requires
        call_ensures(preferred_address, (is_ipv4,), res),
    ensures
        res is None <==> is_ipv4@.len() == 0,
        0 <= k < is_ipv4@.len() && is_ipv4@[k] && (forall|j: int| 0 <= j < k ==> !is_ipv4@[j])
            ==> res == Some(k as usize),
        is_ipv4@.len() > 0 && (forall|j: int| 0 <= j < is_ipv4@.len() ==> !is_ipv4@[j]) ==> res
            == Some(0usize),
{
    if let Some(n) = res {
        if 0 <= k < is_ipv4@.len() && is_ipv4@[k] && (forall|j: int| 0 <= j < k ==> !is_ipv4@[j]) {
            assert(is_ipv4@[n as int]);
            assert(n == k);
        }
    }
}

/// The edge's answer grants a tunnel only where it says so, and then what it says.
pub proof fn law_answers_to_a_registration(
    reply: ControlMessage,
    res: Result<Registration, String>,
)
    requires
        call_ensures(registration, (reply,), res),
    ensures
        res is Ok <==> reply@ is Registered,
        res matches Ok(r) ==> reply@ == (crate::protocol::MessageView::Registered {
            subdomain: r.subdomain@,
            public_url: r.public_url@,
            ephemeral: r.ephemeral,
        }),
        reply@ matches crate::protocol::MessageView::Error { message } ==> res matches Err(e) && e@
            == "edge rejected tunnel: "@ + message,
        reply@ is Ping || reply@ is Pong || reply@ is Register ==> (res matches Err(e) && e@
            == "unexpected control message: "@ + crate::render::message_text(reply@)),
{
}

/// A slash behind the public URL makes no difference to what is shown of UDP ports.
pub proof fn law_slashes_behind_a_url(
    ports: Seq<u16>,
    public_url: Seq<char>,
    local_host: Seq<char>,
)
    ensures
        udp_lines(ports, public_url + seq!['/'], local_host) == udp_lines(
            ports,
            public_url,
            local_host,
        ),
    decreases ports.len(),
{
    assert((public_url + seq!['/']).drop_last() =~= public_url);
    if ports.len() > 0 {
        law_slashes_behind_a_url(ports.drop_last(), public_url, local_host);
    }
}

/// The edge is asked for exactly what the options say, with the routes that are
/// given.
pub proof fn law_what_is_asked_for(
    options: &TunnelOptions,
    routes: &Vec<Route>,
    message: ControlMessage,
    resolved: Result<Vec<Route>, String>,
)
    requires
        call_ensures(TunnelOptions::register_message, (options, routes), message),
        call_ensures(TunnelOptions::resolved_routes, (options,), resolved),
    ensures
        message@ matches crate::protocol::MessageView::Register {
            subdomain,
            routes: asked,
            machine_id,
            udp_ports,
        } && {
            &&& subdomain == crate::text::opt_text(options.subdomain)
            &&& machine_id == crate::text::opt_text(options.machine_id)
            &&& udp_ports == options.udp_ports@
            &&& asked.len() == routes@.len()
            &&& forall|i: int| 0 <= i < asked.len() ==> #[trigger] asked[i] == routes@[i]@
        },
        resolved is Err <==> options.routes@.len() == 0 && options.port is None,
        options.routes@.len() > 0 ==> (resolved matches Ok(all) && crate::protocol::route_views(
            all@,
        ) == crate::protocol::route_views(options.routes@)),
        options.routes@.len() == 0 ==> (options.port matches Some(p) ==> (resolved matches Ok(all)
            && all@.len() == 1 && all@[0].path_prefix@ == seq!['/'] && all@[0].port == p)),
{
    if options.routes@.len() == 0 {
        if let (Some(p), Ok(all)) = (options.port, resolved) {
            let views = crate::protocol::route_views(all@);
            assert(views.len() == all@.len());
            assert(views[0] == all@[0]@);
        }
    }
}

} // verus!
