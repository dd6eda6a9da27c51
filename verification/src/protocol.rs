//! Control messages between the CLI and the edge, local routes and subdomains.
use rand::Rng;
use vstd::prelude::*;

use crate::number::parse_unsigned;
use crate::text::{
    char_is_alphanumeric, chars_of, rsplit_once_char, string_of, to_lower,
};

verus! {

/// ALPN identifier for the tunnel between the CLI and the edge.
pub const ALPN_VYSE: &'static str = "vyse";

/// ALPN identifier for public HTTP/3.
pub const ALPN_H3: &'static str = "h3";

/// Path prefix and the local TCP port it leads to. The longest prefix wins;
/// `/` is the catch-all.
#[derive(Debug, PartialEq, Eq)]
pub struct Route {
    pub path_prefix: String,
    pub port: u16,
}

/// A route as a value: its prefix as text.
pub struct RouteView {
    pub path_prefix: Seq<char>,
    pub port: u16,
}

impl View for Route {
    type V = RouteView;

    open spec fn view(&self) -> RouteView {
        RouteView { path_prefix: self.path_prefix@, port: self.port }
    }
}

impl Clone for Route {
    fn clone(&self) -> (res: Self)
        ensures
            res@ == self@,
    {
        Route { path_prefix: self.path_prefix.clone(), port: self.port }
    }
}

/// Views of a list of routes.
pub open spec fn route_views(routes: Seq<Route>) -> Seq<RouteView> {
    routes.map_values(|r: Route| r@)
}

/// A copy of a list of routes.
pub fn clone_routes(routes: &Vec<Route>) -> (out: Vec<Route>)
    ensures
        route_views(out@) == route_views(routes@),
{
    let mut out: Vec<Route> = Vec::new();
    let mut i: usize = 0;
    while i < routes.len()
        invariant
            i <= routes@.len(),
            route_views(out@) == route_views(routes@.take(i as int)),
        decreases routes@.len() - i,
    {
        let r: Route = routes[i].clone();
        let ghost v = r@;
        let ghost before = out@;
        out.push(r);
        i = i + 1;
        assert(route_views(out@) =~= route_views(before).push(v));
        assert(route_views(routes@.take(i as int)) =~= route_views(routes@.take(i - 1)).push(
            routes@[i - 1]@,
        ));
    }
    assert(routes@.take(i as int) =~= routes@);
    out
}

/// What `PATH=PORT` names, or the complaint about it.
pub open spec fn route_of(spec_text: Seq<char>) -> Result<RouteView, Seq<char>> {
    match crate::text::rsplit_once(spec_text, '=') {
        None => Err("invalid route `"@ + spec_text + "`, expected PATH=PORT"@),
        Some((path, port)) => match crate::number::unsigned(port, 10, 65535) {
            None => Err("invalid port in route `"@ + spec_text + "`"@),
            Some(p) => {
                if path.len() == 0 {
                    Ok(RouteView { path_prefix: seq!['/'], port: p as u16 })
                } else if path[0] == '/' {
                    Ok(RouteView { path_prefix: path, port: p as u16 })
                } else {
                    Err("route path must start with /: `"@ + spec_text + "`"@)
                }
            },
        },
    }
}

impl Route {
    /// The route that takes every path to `port`.
    pub fn catch_all(port: u16) -> (res: Self)
        ensures
            res@ == (RouteView { path_prefix: seq!['/'], port }),
    {
        let mut path_prefix: String = String::new();
        path_prefix.push('/');
        assert(path_prefix@ =~= seq!['/']);
        Route { path_prefix, port }
    }

    /// Parse `PATH=PORT`, such as `/api=8000`.
    pub fn parse(spec_text: &str) -> (res: Result<Self, String>)
        ensures
            match res {
                Ok(route) => route_of(spec_text@) == Ok::<RouteView, Seq<char>>(route@),
                Err(message) => route_of(spec_text@) == Err::<RouteView, Seq<char>>(message@),
            },
    {
        let chars: Vec<char> = chars_of(spec_text);
        match rsplit_once_char(chars.as_slice(), '=') {
            None => {
                let mut message: String = String::new();
                message.append("invalid route `");
                message.append(spec_text);
                message.append("`, expected PATH=PORT");
                assert(message@ =~= "invalid route `"@ + spec_text@ + "`, expected PATH=PORT"@);
                Err(message)
            },
            Some((path, port)) => match parse_unsigned(port, 10, 65535) {
                None => {
                    let mut message: String = String::new();
                    message.append("invalid port in route `");
                    message.append(spec_text);
                    message.append("`");
                    assert(message@ =~= "invalid port in route `"@ + spec_text@ + "`"@);
                    Err(message)
                },
                Some(p) => {
                    if path.len() == 0 {
                        Ok(Route::catch_all(p as u16))
                    } else if path[0] == '/' {
                        Ok(Route { path_prefix: string_of(path), port: p as u16 })
                    } else {
                        let mut message: String = String::new();
                        message.append("route path must start with /: `");
                        message.append(spec_text);
                        message.append("`");
                        assert(message@ =~= "route path must start with /: `"@ + spec_text@ + "`"@);
                        Err(message)
                    }
                },
            },
        }
    }
}

/// A path and a port written as `PATH=PORT` are read back as they were, also
/// where the path itself holds `=`.
pub proof fn law_route_roundtrip(route: RouteView)
    requires
        route.path_prefix.len() > 0,
        route.path_prefix[0] == '/',
    ensures
        route_of(route.path_prefix + seq!['='] + crate::number::decimal(route.port as nat)) == Ok::<
            RouteView,
            Seq<char>,
        >(route),
{
    let port = crate::number::decimal(route.port as nat);
    let s = route.path_prefix + seq!['='] + port;
    let i = route.path_prefix.len() as int;
    crate::number::lemma_decimal_digits(route.port as nat);
    assert forall|j: int| i < j < s.len() implies s[j] != '=' by {
        assert(s[j] == port[j - i - 1]);
        assert(crate::text::is_digit(port[j - i - 1]));
    }
    assert(s[i] == '=');
    crate::text::lemma_rfind_is(s, '=', i);
    assert(s.take(i) =~= route.path_prefix);
    assert(s.skip(i + 1) =~= port);
    crate::number::law_numeral_roundtrip(route.port as nat, 10, 65535);
}

/// Length-prefixed JSON messages on the CLI control stream.
#[derive(Debug, PartialEq, Eq)]
#[allow(inconsistent_fields)]
pub enum ControlMessage {
    Register {
        /// Requested subdomain. The edge assigns a random one when omitted.
        subdomain: Option<String>,
        /// Local HTTP routes advertised to the edge.
        routes: Vec<Route>,
        /// Stable hardware id used to bind a subdomain to one machine.
        machine_id: Option<String>,
        /// Local UDP ports advertised for MASQUE CONNECT-UDP.
        udp_ports: Vec<u16>,
    },
    Registered {
        subdomain: String,
        public_url: String,
        /// True when this session used a random name because the reserved
        /// subdomain was already in use (or the machine already has one).
        ephemeral: bool,
    },
    Error { message: String },
    Ping,
    Pong,
}

/// A control message as a value.
#[allow(inconsistent_fields)]
pub enum MessageView {
    Register {
        subdomain: Option<Seq<char>>,
        routes: Seq<RouteView>,
        machine_id: Option<Seq<char>>,
        udp_ports: Seq<u16>,
    },
    Registered { subdomain: Seq<char>, public_url: Seq<char>, ephemeral: bool },
    Error { message: Seq<char> },
    Ping,
    Pong,
}

impl View for ControlMessage {
    type V = MessageView;

    open spec fn view(&self) -> MessageView {
        match *self {
            ControlMessage::Register { subdomain, routes, machine_id, udp_ports } => {
                MessageView::Register {
                    subdomain: crate::text::opt_text(subdomain),
                    routes: route_views(routes@),
                    machine_id: crate::text::opt_text(machine_id),
                    udp_ports: udp_ports@,
                }
            },
            ControlMessage::Registered { subdomain, public_url, ephemeral } => {
                MessageView::Registered {
                    subdomain: subdomain@,
                    public_url: public_url@,
                    ephemeral,
                }
            },
            ControlMessage::Error { message } => MessageView::Error { message: message@ },
            ControlMessage::Ping => MessageView::Ping,
            ControlMessage::Pong => MessageView::Pong,
        }
    }
}

/// A small ASCII letter or a digit.
pub open spec fn is_label_char(c: char) -> bool {
    'a' <= c <= 'z' || '0' <= c <= '9'
}

/// `rand`'s `gen_range` over `0..n`: some number below `n`, which one is chance.
/// It panics on an empty range.
#[verifier::external_body]
fn random_below(n: usize) -> (r: usize)
    requires
        n > 0,
    ensures
        r < n,
{
    rand::thread_rng().gen_range(0..n)
}

/// The characters of a random name.
pub open spec fn alphabet() -> Seq<char> {
    "abcdefghijklmnopqrstuvwxyz0123456789"@
}

/// The text that draws from the alphabet spell.
pub open spec fn spelled(draws: Seq<usize>) -> Seq<char> {
    Seq::new(draws.len(), |i: int| alphabet()[draws[i] as int])
}

proof fn lemma_alphabet()
    ensures
        alphabet().len() == 36,
        forall|k: int|
            0 <= k < 36 ==> #[trigger] alphabet()[k] == (if k < 26 {
                (0x61 + k) as char
            } else {
                (0x30 + k - 26) as char
            }),
        forall|k: int| 0 <= k < 36 ==> is_label_char(#[trigger] alphabet()[k]),
{
    reveal_strlit("abcdefghijklmnopqrstuvwxyz0123456789");
}

/// The name that draws from the alphabet spell.
pub fn name_from_draws(draws: &[usize]) -> (res: String)
    requires
        forall|i: int| 0 <= i < draws@.len() ==> #[trigger] draws@[i] < 36,
    ensures
        res@ == spelled(draws@),
{
    let mut out: String = String::new();
    let mut i: usize = 0;
    proof {
        lemma_alphabet();
    }
    while i < draws.len()
        invariant
            i <= draws@.len(),
            forall|i: int| 0 <= i < draws@.len() ==> #[trigger] draws@[i] < 36,
            forall|k: int|
                0 <= k < 36 ==> #[trigger] alphabet()[k] == (if k < 26 {
                    (0x61 + k) as char
                } else {
                    (0x30 + k - 26) as char
                }),
            out@ =~= spelled(draws@).take(i as int),
        decreases draws@.len() - i,
    {
        let k: usize = draws[i];
        let c: char = if k < 26 {
            (0x61u8 + k as u8) as char
        } else {
            (0x30u8 + (k as u8 - 26)) as char
        };
        assert(c == alphabet()[k as int]);
        out.push(c);
        i = i + 1;
    }
    assert(spelled(draws@).take(i as int) =~= spelled(draws@));
    out
}

/// Generate a subdomain of eight small letters and digits.
pub fn random_subdomain() -> (res: String)
    ensures
        exists|draws: Seq<usize>|
            draws.len() == 8 && (forall|i: int| 0 <= i < 8 ==> #[trigger] draws[i] < 36) && res@
                == #[trigger] spelled(draws),
        res@.len() == 8,
        forall|i: int| 0 <= i < 8 ==> is_label_char(#[trigger] res@[i]),
        subdomain_fault(res@) is None,
        crate::text::lower(res@) == res@,
{
    let mut draws: Vec<usize> = Vec::new();
    let mut i: usize = 0;
    while i < 8
        invariant
            i <= 8,
            draws@.len() == i,
            forall|j: int| 0 <= j < i ==> #[trigger] draws@[j] < 36,
        decreases 8 - i,
    {
        draws.push(random_below(36));
        i = i + 1;
    }
    let out: String = name_from_draws(draws.as_slice());
    proof {
        lemma_alphabet();
        assert(out@ == spelled(draws@));
        lemma_label_text(out@);
    }
    out
}

/// Text of one to 63 small letters and digits is a valid subdomain.
proof fn lemma_label_text(s: Seq<char>)
    requires
        1 <= s.len() <= 63,
        forall|i: int| 0 <= i < s.len() ==> is_label_char(#[trigger] s[i]),
    ensures
        subdomain_fault(s) is None,
        crate::text::lower(s) == s,
{
    assert(crate::text::lower(s) =~= s);
    assert(vstd::utf8::is_ascii_chars(s));
    vstd::utf8::is_ascii_chars_encode_utf8(s);
}

/// Why `s` is no subdomain under the DNS-label rules; letter case is free.
pub open spec fn subdomain_fault(s: Seq<char>) -> Option<Seq<char>> {
    let l = crate::text::lower(s);
    if l.len() == 0 || vstd::utf8::encode_utf8(l).len() > 63 {
        Some("subdomain must be 1-63 characters"@)
    } else if !(forall|i: int|
        0 <= i < l.len() ==> crate::text::is_alphanumeric(#[trigger] l[i]) || l[i] == '-') {
        Some("subdomain may only contain letters, digits, and hyphens"@)
    } else if l[0] == '-' || l.last() == '-' {
        Some("subdomain cannot start or end with a hyphen"@)
    } else {
        None
    }
}

/// DNS-label rules for tunnel subdomains.
pub fn validate_subdomain(subdomain: &str) -> (res: Result<(), String>)
    ensures
        res is Ok <==> subdomain_fault(subdomain@) is None,
        res matches Err(message) ==> subdomain_fault(subdomain@) == Some(message@),
{
    let s: Vec<char> = to_lower(chars_of(subdomain).as_slice());
    let text: String = string_of(s.as_slice());
    if s.len() == 0 || text.as_str().as_bytes().len() > 63 {
        return Err("subdomain must be 1-63 characters".to_owned());
    }
    let mut i: usize = 0;
    while i < s.len()
        invariant
            i <= s@.len(),
            s@ == crate::text::lower(subdomain@),
            s@.len() > 0,
            vstd::utf8::encode_utf8(s@).len() <= 63,
            forall|j: int|
                0 <= j < i ==> crate::text::is_alphanumeric(#[trigger] s@[j]) || s@[j] == '-',
        decreases s@.len() - i,
    {
        if !(char_is_alphanumeric(s[i]) || s[i] == '-') {
            return Err("subdomain may only contain letters, digits, and hyphens".to_owned());
        }
        i = i + 1;
    }
    if s[0] == '-' || s[s.len() - 1] == '-' {
        return Err("subdomain cannot start or end with a hyphen".to_owned());
    }
    Ok(())
}

/// A subdomain is 1 to 63 ASCII letters, digits and hyphens, with no hyphen at
/// either end, and every such text is one.
pub proof fn law_valid_subdomains(s: Seq<char>)
    ensures
        subdomain_fault(s) is None <==> {
            &&& 1 <= s.len() <= 63
            &&& s[0] != '-'
            &&& s.last() != '-'
            &&& forall|i: int|
                0 <= i < s.len() ==> 'a' <= (#[trigger] s[i]) <= 'z' || 'A' <= s[i] <= 'Z' || '0'
                    <= s[i] <= '9' || s[i] == '-'
        },
{
    let l = crate::text::lower(s);
    crate::text::law_lower(s);
    assert(l.len() == s.len());
    lemma_encoded_is_no_shorter(l);
    if s.len() > 0 {
        assert(l[0] as int == (if 'A' <= s[0] <= 'Z' {
            s[0] as int + 32
        } else {
            s[0] as int
        }));
        assert(l.last() == l[l.len() - 1]);
    }
    if subdomain_fault(s) is None {
        assert forall|i: int| 0 <= i < s.len() implies 'a' <= (#[trigger] s[i]) <= 'z' || 'A' <= s[i]
            <= 'Z' || '0' <= s[i] <= '9' || s[i] == '-' by {
            assert(crate::text::is_alphanumeric(l[i]) || l[i] == '-');
        }
    }
    if 1 <= s.len() <= 63 && (forall|i: int|
        0 <= i < s.len() ==> 'a' <= (#[trigger] s[i]) <= 'z' || 'A' <= s[i] <= 'Z' || '0' <= s[i]
            <= '9' || s[i] == '-') {
        assert forall|i: int| 0 <= i < l.len() implies '\0' <= #[trigger] l[i] <= '\u{7f}' && (
        crate::text::is_alphanumeric(l[i]) || l[i] == '-') by {
            assert('a' <= s[i] <= 'z' || 'A' <= s[i] <= 'Z' || '0' <= s[i] <= '9' || s[i] == '-');
        }
        assert(vstd::utf8::is_ascii_chars(l));
        vstd::utf8::is_ascii_chars_encode_utf8(l);
    }
}

proof fn lemma_encoded_is_no_shorter(s: Seq<char>)
    ensures
        vstd::utf8::encode_utf8(s).len() >= s.len(),
    decreases s.len(),
{
    if s.len() > 0 {
        lemma_encoded_is_no_shorter(s.drop_first());
        crate::encoding::lemma_encode_scalar(s[0]);
    }
}

/// What is said of text that is no subdomain.
pub proof fn law_subdomain_faults(s: Seq<char>)
    ensures
        s.len() == 0 || s.len() > 63 ==> subdomain_fault(s) == Some(
            "subdomain must be 1-63 characters"@,
        ),
        1 <= s.len() <= 63 && vstd::utf8::is_ascii_chars(s) && (exists|i: int|
            0 <= i < s.len() && !('a' <= (#[trigger] s[i]) <= 'z' || 'A' <= s[i] <= 'Z' || '0'
                <= s[i] <= '9' || s[i] == '-')) ==> subdomain_fault(s) == Some(
            "subdomain may only contain letters, digits, and hyphens"@,
        ),
        1 <= s.len() <= 63 && (s[0] == '-' || s.last() == '-') && (forall|i: int|
            0 <= i < s.len() ==> 'a' <= (#[trigger] s[i]) <= 'z' || 'A' <= s[i] <= 'Z' || '0'
                <= s[i] <= '9' || s[i] == '-') ==> subdomain_fault(s) == Some(
            "subdomain cannot start or end with a hyphen"@,
        ),
{
    let l = crate::text::lower(s);
    crate::text::law_lower(s);
    lemma_encoded_is_no_shorter(l);
    if 1 <= s.len() <= 63 {
        assert(l[0] as int == (if 'A' <= s[0] <= 'Z' {
            s[0] as int + 32
        } else {
            s[0] as int
        }));
        assert(l.last() == l[l.len() - 1]);
        if vstd::utf8::is_ascii_chars(s) {
            assert forall|i: int| 0 <= i < l.len() implies '\0' <= #[trigger] l[i] <= '\u{7f}' by {
                assert('\0' <= s[i] <= '\u{7f}');
            }
            vstd::utf8::is_ascii_chars_encode_utf8(l);
            if exists|i: int|
                0 <= i < s.len() && !('a' <= (#[trigger] s[i]) <= 'z' || 'A' <= s[i] <= 'Z' || '0'
                    <= s[i] <= '9' || s[i] == '-') {
                let i = choose|i: int|
                    0 <= i < s.len() && !('a' <= (#[trigger] s[i]) <= 'z' || 'A' <= s[i] <= 'Z'
                        || '0' <= s[i] <= '9' || s[i] == '-');
                assert(!(crate::text::is_alphanumeric(l[i]) || l[i] == '-'));
            }
        }
        if forall|i: int|
            0 <= i < s.len() ==> 'a' <= (#[trigger] s[i]) <= 'z' || 'A' <= s[i] <= 'Z' || '0'
                <= s[i] <= '9' || s[i] == '-' {
            assert forall|i: int| 0 <= i < l.len() implies '\0' <= #[trigger] l[i] <= '\u{7f}' && (
            crate::text::is_alphanumeric(l[i]) || l[i] == '-') by {
                assert('a' <= s[i] <= 'z' || 'A' <= s[i] <= 'Z' || '0' <= s[i] <= '9' || s[i]
                    == '-');
            }
            assert(vstd::utf8::is_ascii_chars(l));
            vstd::utf8::is_ascii_chars_encode_utf8(l);
        }
    }
}

/// Draws spell the letters from `a` to `z` and then the digits, one each; other
/// draws spell another name.
pub proof fn law_draws_spell_names(draws: Seq<usize>, others: Seq<usize>)
    requires
        forall|i: int| 0 <= i < draws.len() ==> #[trigger] draws[i] < 36,
        forall|i: int| 0 <= i < others.len() ==> #[trigger] others[i] < 36,
    ensures
        spelled(draws).len() == draws.len(),
        forall|i: int|
            0 <= i < draws.len() ==> (#[trigger] spelled(draws)[i]) as int == (if draws[i] < 26 {
                'a' as int + draws[i]
            } else {
                '0' as int + draws[i] - 26
            }),
        spelled(draws) == spelled(others) ==> draws == others,
{
    lemma_alphabet();
    assert forall|i: int| 0 <= i < draws.len() implies (#[trigger] spelled(draws)[i]) as int == (
    if draws[i] < 26 {
        'a' as int + draws[i]
    } else {
        '0' as int + draws[i] - 26
    }) by {
        assert(alphabet()[draws[i] as int] == spelled(draws)[i]);
    }
    if spelled(draws) == spelled(others) {
        assert(spelled(draws).len() == draws.len() && spelled(others).len() == others.len());
        assert(draws =~= others) by {
            assert forall|i: int| 0 <= i < draws.len() implies draws[i] == others[i] by {
                assert(spelled(draws)[i] == spelled(others)[i]);
                assert(alphabet()[draws[i] as int] == alphabet()[others[i] as int]);
            }
        }
    }
}

/// What is said of a text that names no route, and the route that a port alone
/// names.
pub proof fn law_route_faults(path: Seq<char>, port: Seq<char>)
    requires
        forall|i: int| 0 <= i < port.len() ==> port[i] != '=',
    ensures
        route_of(port) == Err::<RouteView, Seq<char>>(
            "invalid route `"@ + port + "`, expected PATH=PORT"@,
        ),
        crate::number::unsigned(port, 10, 65535) is None ==> route_of(path + seq!['='] + port)
            == Err::<RouteView, Seq<char>>(
            "invalid port in route `"@ + (path + seq!['='] + port) + "`"@,
        ),
        crate::number::unsigned(port, 10, 65535) matches Some(n) ==> {
            &&& path.len() == 0 ==> route_of(path + seq!['='] + port) == Ok::<
                RouteView,
                Seq<char>,
            >(RouteView { path_prefix: seq!['/'], port: n as u16 })
            &&& path.len() > 0 && path[0] == '/' ==> route_of(path + seq!['='] + port) == Ok::<
                RouteView,
                Seq<char>,
            >(RouteView { path_prefix: path, port: n as u16 })
            &&& path.len() > 0 && path[0] != '/' ==> route_of(path + seq!['='] + port) == Err::<
                RouteView,
                Seq<char>,
            >("route path must start with /: `"@ + (path + seq!['='] + port) + "`"@)
        },
{
    crate::text::law_splitting(port, '=', port);
    crate::text::law_splitting(path, '=', port);
}

/// A list of routes is what its routes are, one by one, and so is a copy of it.
pub proof fn law_lists_of_routes(routes: &Vec<Route>, copy: Vec<Route>, res: Route, port: u16)
    requires
        call_ensures(clone_routes, (routes,), copy),
        call_ensures(Route::catch_all, (port,), res),
    ensures
        route_views(routes@).len() == routes@.len(),
        forall|i: int|
            0 <= i < routes@.len() ==> #[trigger] route_views(routes@)[i] == (RouteView {
                path_prefix: routes@[i].path_prefix@,
                port: routes@[i].port,
            }),
        copy@.len() == routes@.len(),
        forall|i: int|
            0 <= i < routes@.len() ==> (#[trigger] copy@[i]).path_prefix@
                == routes@[i].path_prefix@ && copy@[i].port == routes@[i].port,
        res.path_prefix@ == seq!['/'],
        res.port == port,
{
    assert(route_views(copy@).len() == copy@.len());
    assert forall|i: int| 0 <= i < routes@.len() implies (#[trigger] copy@[i]).path_prefix@
        == routes@[i].path_prefix@ && copy@[i].port == routes@[i].port by {
        assert(route_views(copy@)[i] == route_views(routes@)[i]);
        assert(route_views(copy@)[i] == copy@[i]@);
    }
}

/// A name by chance is eight small letters and digits; a name is accepted where it
/// has no fault, and refused with its fault.
pub proof fn law_names_by_chance(drawn: String, name: &str, res: Result<(), String>)
    requires
        call_ensures(random_subdomain, (), drawn),
        call_ensures(validate_subdomain, (name,), res),
    ensures
        drawn@.len() == 8,
        forall|i: int|
            0 <= i < 8 ==> 'a' <= (#[trigger] drawn@[i]) <= 'z' || '0' <= drawn@[i] <= '9',
        res is Ok <==> {
            &&& 1 <= name@.len() <= 63
            &&& name@[0] != '-'
            &&& name@.last() != '-'
            &&& forall|i: int|
                0 <= i < name@.len() ==> 'a' <= (#[trigger] name@[i]) <= 'z' || 'A' <= name@[i]
                    <= 'Z' || '0' <= name@[i] <= '9' || name@[i] == '-'
        },
        res matches Err(message) ==> subdomain_fault(name@) == Some(message@),
{
    law_valid_subdomains(name@);
    assert forall|i: int| 0 <= i < 8 implies 'a' <= (#[trigger] drawn@[i]) <= 'z' || '0' <= drawn@[i]
        <= '9' by {
        assert(is_label_char(drawn@[i]));
    }
}

} // verus!
