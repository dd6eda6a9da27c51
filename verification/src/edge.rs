//! The edge's settings and the URLs under which it publishes tunnels.
use vstd::prelude::*;
use vstd::slice::slice_subrange;

use crate::search::chars_start_with;
use crate::text::{chars_of, push_chars, split_once_char, trimmed_end_char};

verus! {

/// Where an edge listens and what it answers for. Addresses are `host:port`.
#[derive(Debug)]
pub struct EdgeConfig {
    pub quic: String,
    pub http: String,
    pub http3: String,
    pub domain: String,
    pub public_base: String,
    /// File for persistent subdomain ownership. Where there is one, the CLI must
    /// send a machine id.
    pub claims_path: Option<String>,
}

impl Default for EdgeConfig {
    fn default() -> (config: Self)
        ensures
            config.quic@ == "0.0.0.0:"@ + crate::number::decimal(crate::DEFAULT_QUIC_PORT as nat),
            config.http@ == "0.0.0.0:"@ + crate::number::decimal(crate::DEFAULT_HTTP_PORT as nat),
            config.http3@ == "0.0.0.0:"@ + crate::number::decimal(crate::DEFAULT_HTTP3_PORT as nat),
            config.domain@ == crate::DEFAULT_DOMAIN@,
            config.public_base@ == "http://localhost:"@ + crate::number::decimal(
                crate::DEFAULT_HTTP_PORT as nat,
            ),
            config.claims_path is None,
    {
        EdgeConfig {
            quic: with_port("0.0.0.0:", crate::DEFAULT_QUIC_PORT),
            http: with_port("0.0.0.0:", crate::DEFAULT_HTTP_PORT),
            http3: with_port("0.0.0.0:", crate::DEFAULT_HTTP3_PORT),
            domain: crate::DEFAULT_DOMAIN.to_owned(),
            public_base: with_port("http://localhost:", crate::DEFAULT_HTTP_PORT),
            claims_path: None,
        }
    }
}

fn with_port(text: &str, port: u16) -> (out: String)
    ensures
        out@ == text@ + crate::number::decimal(port as nat),
{
    let mut out: String = String::new();
    out.append(text);
    crate::number::push_decimal(&mut out, port as u64);
    assert(out@ =~= text@ + crate::number::decimal(port as nat));
    out
}

/// `:port` of `host:port`; nothing where there is no port.
pub open spec fn port_part(hostport: Seq<char>) -> Seq<char> {
    match crate::text::split_once(hostport, ':') {
        Some((host, port)) => ":"@ + port,
        None => Seq::empty(),
    }
}

/// The base points at this machine.
pub open spec fn is_local(rest: Seq<char>) -> bool {
    "localhost"@.is_prefix_of(rest) || "127.0.0.1"@.is_prefix_of(rest)
}

/// The URL of a tunnel under a base that has the scheme.
pub open spec fn url_under(scheme: Seq<char>, rest: Seq<char>, subdomain: Seq<char>) -> Seq<char> {
    if is_local(rest) {
        scheme + "://"@ + subdomain + ".localhost"@ + port_part(rest)
    } else {
        scheme + "://"@ + subdomain + "."@ + rest
    }
}

/// The URL of a tunnel: the subdomain in front of the base's host, in front of
/// `localhost` where the base is local, and in front of the apex domain where
/// the base has no scheme.
pub open spec fn url_of(
    public_base: Seq<char>,
    subdomain: Seq<char>,
    domain: Seq<char>,
) -> Seq<char> {
    let base = crate::text::trim_end_char(public_base, '/');
    if "https://"@.is_prefix_of(base) {
        url_under("https"@, base.skip("https://"@.len() as int), subdomain)
    } else if "http://"@.is_prefix_of(base) {
        url_under("http"@, base.skip("http://"@.len() as int), subdomain)
    } else {
        "https://"@ + subdomain + "."@ + domain
    }
}

fn port_suffix(hostport: &[char]) -> (out: String)
    ensures
        out@ == port_part(hostport@),
{
    let mut out: String = String::new();
    if let Some((_, port)) = split_once_char(hostport, ':') {
        out.append(":");
        push_chars(&mut out, port);
    }
    assert(out@ =~= port_part(hostport@));
    out
}

fn rest_behind<'a>(base: &'a [char], prefix: &str) -> (res: Option<&'a [char]>)
    ensures
        match res {
            Some(rest) => prefix@.is_prefix_of(base@) && rest@ == base@.skip(
                prefix@.len() as int,
            ),
            None => !prefix@.is_prefix_of(base@),
        },
{
    let p: Vec<char> = chars_of(prefix);
    if !chars_start_with(base, p.as_slice()) {
        return None;
    }
    let rest = slice_subrange(base, p.len(), base.len());
    assert(rest@ =~= base@.skip(prefix@.len() as int));
    Some(rest)
}

fn public_url_under(scheme: &str, rest: &[char], subdomain: &str) -> (out: String)
    ensures
        out@ == url_under(scheme@, rest@, subdomain@),
{
    let mut out: String = String::new();
    out.append(scheme);
    out.append("://");
    out.append(subdomain);
    if rest_behind(rest, "localhost").is_some() || rest_behind(rest, "127.0.0.1").is_some() {
        out.append(".localhost");
        out.append(port_suffix(rest).as_str());
    } else {
        out.append(".");
        push_chars(&mut out, rest);
    }
    assert(out@ =~= url_under(scheme@, rest@, subdomain@));
    out
}

/// The URL under which a tunnel is published.
pub fn public_url(public_base: &str, subdomain: &str, domain: &str) -> (out: String)
    ensures
        out@ == url_of(public_base@, subdomain@, domain@),
{
    let chars: Vec<char> = chars_of(public_base);
    let base = trimmed_end_char(chars.as_slice(), '/');
    if let Some(rest) = rest_behind(base, "https://") {
        return public_url_under("https", rest, subdomain);
    }
    if let Some(rest) = rest_behind(base, "http://") {
        return public_url_under("http", rest, subdomain);
    }
    let mut out: String = String::new();
    out.append("https://");
    out.append(subdomain);
    out.append(".");
    out.append(domain);
    assert(out@ =~= url_of(public_base@, subdomain@, domain@));
    out
}

/// A name that the edge accepts, in small letters.
pub open spec fn is_name(subdomain: Seq<char>) -> bool {
    crate::protocol::subdomain_fault(subdomain) is None && crate::text::lower(subdomain)
        == subdomain
}

proof fn lemma_name_chars(subdomain: Seq<char>)
    requires
        is_name(subdomain),
    ensures
        subdomain.len() > 0,
        forall|i: int|
            0 <= i < subdomain.len() ==> #[trigger] subdomain[i] != '.' && subdomain[i] != ':'
                && !crate::text::is_space(subdomain[i]),
{
    assert forall|i: int| 0 <= i < subdomain.len() implies #[trigger] subdomain[i] != '.'
        && subdomain[i] != ':' && !crate::text::is_space(subdomain[i]) by {
        let l = crate::text::lower(subdomain);
        assert(crate::text::is_alphanumeric(l[i]) || l[i] == '-');
    }
}

proof fn lemma_secure_url(subdomain: Seq<char>, domain: Seq<char>)
    requires
        domain.len() > 0,
        domain.last() != '/',
        !is_local(domain),
    ensures
        url_of("https://"@ + domain, subdomain, domain) == "https://"@ + (subdomain + seq!['.']
            + domain),
{
    reveal_strlit("https://");
    reveal_strlit("https");
    reveal_strlit("://");
    reveal_strlit(".");
    let base = "https://"@ + domain;
    assert(base.last() == domain.last());
    assert(crate::text::trim_end_char(base, '/') == base);
    assert(base.subrange(0, 8) =~= "https://"@);
    assert("https://"@.is_prefix_of(base));
    assert(base.skip(8) =~= domain);
    assert("https"@ + "://"@ + subdomain + "."@ + domain =~= "https://"@ + (subdomain + seq!['.']
        + domain));
}

proof fn lemma_plain_url(subdomain: Seq<char>, domain: Seq<char>)
    requires
        domain.len() > 0,
        domain.last() != '/',
        !is_local(domain),
    ensures
        url_of("http://"@ + domain, subdomain, domain) == "http://"@ + (subdomain + seq!['.']
            + domain),
{
    reveal_strlit("https://");
    reveal_strlit("http://");
    reveal_strlit("http");
    reveal_strlit("://");
    reveal_strlit(".");
    let base = "http://"@ + domain;
    assert(base.last() == domain.last());
    assert(crate::text::trim_end_char(base, '/') == base);
    assert(base.subrange(0, 7) =~= "http://"@);
    assert("http://"@.is_prefix_of(base));
    assert(base.skip(7) =~= domain);
    assert(!"https://"@.is_prefix_of(base)) by {
        if "https://"@.is_prefix_of(base) {
            assert(base.subrange(0, 8)[4] == base[4]);
        }
    }
    assert("http"@ + "://"@ + subdomain + "."@ + domain =~= "http://"@ + (subdomain + seq!['.']
        + domain));
}

/// A tunnel published under the apex domain is found under the host of its URL.
pub proof fn law_public_host_leads_back(subdomain: Seq<char>, domain: Seq<char>)
    requires
        is_name(subdomain),
        domain.len() > 0,
        forall|i: int|
            0 <= i < domain.len() ==> #[trigger] domain[i] != ':' && !crate::text::is_space(
                domain[i],
            ),
        domain[0] != '.',
        domain.last() != '/',
        crate::text::lower(domain) == domain,
        !is_local(domain),
    ensures
        url_of("https://"@ + domain, subdomain, domain) == "https://"@ + (subdomain + seq!['.']
            + domain),
        url_of("http://"@ + domain, subdomain, domain) == "http://"@ + (subdomain + seq!['.']
            + domain),
        crate::http::tunnel_id_of_host(subdomain + seq!['.'] + domain, Some(domain)) == Some(
            subdomain,
        ),
{
    lemma_name_chars(subdomain);
    crate::http::law_subdomain_host_names_its_tunnel(subdomain, domain, Seq::empty());
    lemma_secure_url(subdomain, domain);
    lemma_plain_url(subdomain, domain);
}

/// A tunnel published on this machine is found under the host of its URL, with
/// and without the port, whatever the apex domain and the port are.
pub proof fn law_local_host_leads_back(
    subdomain: Seq<char>,
    domain: Option<Seq<char>>,
    port: Seq<char>,
)
    requires
        is_name(subdomain),
        port.len() > 0,
        port.last() != '/',
    ensures
        url_of("http://localhost:"@ + port, subdomain, match domain {
            Some(d) => d,
            None => Seq::empty(),
        }) == "http://"@ + (subdomain + ".localhost:"@ + port),
        crate::http::tunnel_id_of_host(subdomain + ".localhost:"@ + port, domain) == Some(
            subdomain,
        ),
        crate::http::tunnel_id_of_host(subdomain + ".localhost"@, domain) == Some(subdomain),
{
    reveal_strlit("http://localhost:");
    reveal_strlit("https://");
    reveal_strlit("http://");
    reveal_strlit("http");
    reveal_strlit("://");
    reveal_strlit("localhost");
    reveal_strlit(".localhost");
    reveal_strlit(".localhost:");
    reveal_strlit(":");
    lemma_name_chars(subdomain);
    let base = "http://localhost:"@ + port;
    assert(base.last() == port.last());
    assert(crate::text::trim_end_char(base, '/') == base);
    assert(base.take(7) =~= "http://"@);
    assert("http://"@.is_prefix_of(base));
    assert(!"https://"@.is_prefix_of(base)) by {
        if "https://"@.is_prefix_of(base) {
            assert(base.subrange(0, 8)[4] == base[4]);
        }
    }
    let rest = base.skip(7);
    assert(rest =~= "localhost"@ + seq![':'] + port);
    assert(rest.take(9) =~= "localhost"@);
    assert("localhost"@.is_prefix_of(rest));
    crate::text::lemma_find_char_is(rest, ':', 9);
    assert(rest.skip(10) =~= port);
    assert(url_under("http"@, rest, subdomain) =~= "http://"@ + (subdomain + ".localhost:"@
        + port));

    let name = subdomain + ".localhost"@;
    let host = subdomain + ".localhost:"@ + port;
    let k = subdomain.len() as int;
    assert(host =~= name + seq![':'] + port);
    assert forall|i: int| 0 <= i < name.len() implies host[i] != ':' && host[i] == name[i]
        && !crate::text::is_space(name[i]) by {
        if i < k {
            assert(name[i] == subdomain[i]);
        }
    }
    crate::text::lemma_find_char_is(host, ':', name.len() as int);
    assert(host.take(name.len() as int) =~= name);
    crate::text::lemma_trim_none(name);
    assert(crate::http::hostname(host) == name);
    crate::text::lemma_find_char_none(name, ':');
    assert(crate::http::hostname(name) == name);
    let h = crate::text::lower(name);
    assert(h =~= name) by {
        assert forall|i: int| 0 <= i < h.len() implies h[i] == name[i] by {
            if i < k {
                assert(crate::text::lower(subdomain)[i] == subdomain[i]);
            }
        }
    }
    assert forall|suffix: Seq<char>|
        suffix.len() > 0 && suffix[0] == '.' implies (#[trigger] crate::http::label_before(
        h,
        suffix,
    )) is None || crate::http::label_before(h, suffix) == Some(subdomain) by {
        if crate::http::label_before(h, suffix) is Some {
            let at = h.len() - suffix.len();
            assert(h.subrange(at, h.len() as int)[0] == h[at]);
            let sub = h.take(at);
            crate::text::lemma_find_char(sub, '.');
            if at > k {
                assert(sub[k] == '.');
            } else if at < k {
                assert(h[at] == subdomain[at]);
            }
            assert(sub =~= subdomain);
        }
    }
    assert(crate::http::label_before(h, ".localhost"@) == Some(subdomain)) by {
        assert(h.subrange(k, h.len() as int) =~= ".localhost"@);
        assert(".localhost"@.is_suffix_of(h));
        assert(h.take(k) =~= subdomain);
        crate::text::lemma_find_char_none(subdomain, '.');
    }
    reveal_strlit(".vyse.dev");
    assert(crate::http::label_before(h, ".vyse.dev"@) is None
        || crate::http::label_before(h, ".vyse.dev"@) == Some(subdomain));
}

/// A tunnel's URL has its name in front of the host and the port of the base, with
/// the base's scheme; a base on this machine gives `localhost` with its port, and
/// one without a scheme the apex domain.
pub proof fn law_urls_of_tunnels(
    rest: Seq<char>,
    tail: Seq<char>,
    port: Seq<char>,
    subdomain: Seq<char>,
    domain: Seq<char>,
)
    requires
        rest.len() > 0,
        rest.last() != '/',
        !"localhost"@.is_prefix_of(rest),
        !"127.0.0.1"@.is_prefix_of(rest),
        forall|i: int| 0 <= i < tail.len() ==> tail[i] != ':',
        port.len() > 0,
        port.last() != '/',
        tail.len() > 0 ==> tail.last() != '/',
    ensures
        url_of("https://"@ + rest, subdomain, domain) == "https://"@ + subdomain + "."@ + rest,
        url_of("http://"@ + rest, subdomain, domain) == "http://"@ + subdomain + "."@ + rest,
        url_of("https://localhost"@ + tail, subdomain, domain) == "https://"@ + subdomain
            + ".localhost"@,
        url_of("http://localhost"@ + tail, subdomain, domain) == "http://"@ + subdomain
            + ".localhost"@,
        url_of("https://localhost"@ + tail + ":"@ + port, subdomain, domain) == "https://"@
            + subdomain + ".localhost:"@ + port,
        url_of("http://localhost"@ + tail + ":"@ + port, subdomain, domain) == "http://"@
            + subdomain + ".localhost:"@ + port,
{
    let here = "localhost"@ + tail;
    let there = here + seq![':'] + port;
    lemma_scheme_url(rest, subdomain, domain);
    lemma_scheme_texts(rest, subdomain);
    lemma_local_name(tail, port);
    lemma_scheme_url(here, subdomain, domain);
    lemma_scheme_url(there, subdomain, domain);
    lemma_scheme_texts(here, subdomain);
    lemma_scheme_texts(there, subdomain);
    lemma_local_texts(tail, port);
    lemma_port_texts(subdomain, port);
}

/// What is under a base with a scheme, written out.
proof fn lemma_scheme_texts(rest: Seq<char>, subdomain: Seq<char>)
    ensures
        !is_local(rest) ==> url_under("http"@, rest, subdomain) == "http://"@ + subdomain + "."@
            + rest,
        !is_local(rest) ==> url_under("https"@, rest, subdomain) == "https://"@ + subdomain + "."@
            + rest,
        is_local(rest) ==> url_under("http"@, rest, subdomain) == "http://"@ + subdomain
            + ".localhost"@ + port_part(rest),
        is_local(rest) ==> url_under("https"@, rest, subdomain) == "https://"@ + subdomain
            + ".localhost"@ + port_part(rest),
{
    reveal_strlit("http");
    reveal_strlit("https");
    reveal_strlit("://");
    reveal_strlit("http://");
    reveal_strlit("https://");
    assert("http"@ + "://"@ =~= "http://"@);
    assert("https"@ + "://"@ =~= "https://"@);
}

proof fn lemma_local_name(tail: Seq<char>, port: Seq<char>)
    requires
        forall|i: int| 0 <= i < tail.len() ==> tail[i] != ':',
        port.len() > 0,
        port.last() != '/',
        tail.len() > 0 ==> tail.last() != '/',
    ensures
        ({
            let here = "localhost"@ + tail;
            let there = here + seq![':'] + port;
            &&& is_local(here) && is_local(there)
            &&& port_part(here).len() == 0
            &&& port_part(there) == ":"@ + port
            &&& here.len() > 0 && here.last() != '/'
            &&& there.len() > 0 && there.last() != '/'
        }),
{
    reveal_strlit("localhost");
    let here = "localhost"@ + tail;
    let there = here + seq![':'] + port;
    assert forall|i: int| 0 <= i < here.len() implies here[i] != ':' by {
        if i >= 9 {
            assert(here[i] == tail[i - 9]);
        }
    }
    crate::text::law_splitting(here, ':', port);
    assert(here.subrange(0, 9) =~= "localhost"@);
    assert(there.subrange(0, 9) =~= "localhost"@);
    assert("localhost"@.is_prefix_of(here) && "localhost"@.is_prefix_of(there));
    assert(there.last() == port.last());
    if tail.len() > 0 {
        assert(here.last() == tail.last());
    }
}

proof fn lemma_local_texts(tail: Seq<char>, port: Seq<char>)
    ensures
        ({
            let here = "localhost"@ + tail;
            let there = here + seq![':'] + port;
            &&& "http://localhost"@ + tail == "http://"@ + here
            &&& "https://localhost"@ + tail == "https://"@ + here
            &&& "http://localhost"@ + tail + ":"@ + port == "http://"@ + there
            &&& "https://localhost"@ + tail + ":"@ + port == "https://"@ + there
        }),
{
    reveal_strlit(":");
    reveal_strlit("localhost");
    reveal_strlit("http://");
    reveal_strlit("https://");
    reveal_strlit("http://localhost");
    reveal_strlit("https://localhost");
    let here = "localhost"@ + tail;
    let there = here + seq![':'] + port;
    assert("http://localhost"@ =~= "http://"@ + "localhost"@);
    assert("https://localhost"@ =~= "https://"@ + "localhost"@);
    assert("http://"@ + "localhost"@ + tail =~= "http://"@ + here);
    assert("https://"@ + "localhost"@ + tail =~= "https://"@ + here);
    assert(":"@ =~= seq![':']);
    assert("http://"@ + here + seq![':'] + port =~= "http://"@ + there);
    assert("https://"@ + here + seq![':'] + port =~= "https://"@ + there);
}

proof fn lemma_port_texts(subdomain: Seq<char>, port: Seq<char>)
    ensures
        forall|scheme: Seq<char>|
            #![trigger scheme + subdomain + ".localhost"@]
            scheme + subdomain + ".localhost"@ + (":"@ + port) == scheme + subdomain
                + ".localhost:"@ + port,
        forall|scheme: Seq<char>, none: Seq<char>|
            #![trigger scheme + subdomain + ".localhost"@ + none]
            none.len() == 0 ==> scheme + subdomain + ".localhost"@ + none == scheme + subdomain
                + ".localhost"@,
{
    reveal_strlit(":");
    reveal_strlit(".localhost");
    reveal_strlit(".localhost:");
    assert(".localhost"@ + ":"@ =~= ".localhost:"@);
    assert forall|scheme: Seq<char>|
        #![trigger scheme + subdomain + ".localhost"@]
        scheme + subdomain + ".localhost"@ + (":"@ + port) == scheme + subdomain + ".localhost:"@
            + port by {
        assert(scheme + subdomain + ".localhost"@ + (":"@ + port) =~= scheme + subdomain + (
        ".localhost"@ + ":"@) + port);
    }
    assert forall|scheme: Seq<char>, none: Seq<char>|
        #![trigger scheme + subdomain + ".localhost"@ + none]
        none.len() == 0 implies scheme + subdomain + ".localhost"@ + none == scheme + subdomain
        + ".localhost"@ by {
        assert(scheme + subdomain + ".localhost"@ + none =~= scheme + subdomain + ".localhost"@);
    }
}

proof fn lemma_scheme_url(rest: Seq<char>, subdomain: Seq<char>, domain: Seq<char>)
    requires
        rest.len() > 0,
        rest.last() != '/',
    ensures
        url_of("https://"@ + rest, subdomain, domain) == url_under("https"@, rest, subdomain),
        url_of("http://"@ + rest, subdomain, domain) == url_under("http"@, rest, subdomain),
{
    reveal_strlit("http://");
    reveal_strlit("https://");
    let plain = "http://"@ + rest;
    let secure = "https://"@ + rest;
    assert(plain.last() == rest.last() && secure.last() == rest.last());
    assert(crate::text::trim_end_char(plain, '/') == plain);
    assert(crate::text::trim_end_char(secure, '/') == secure);
    assert(secure.subrange(0, 8) =~= "https://"@);
    assert(plain.subrange(0, 7) =~= "http://"@);
    assert("https://"@.is_prefix_of(secure));
    assert("http://"@.is_prefix_of(plain));
    if "https://"@.is_prefix_of(plain) {
        assert(plain.subrange(0, 8)[4] == plain[4]);
    }
    assert(secure.skip(8) =~= rest);
    assert(plain.skip(7) =~= rest);
}

/// A base on 127.0.0.1 gives `localhost` with its port; slashes behind a base do
/// not count; a base without a scheme gives the apex domain.
pub proof fn law_urls_of_other_bases(
    base: Seq<char>,
    port: Seq<char>,
    subdomain: Seq<char>,
    domain: Seq<char>,
)
    requires
        port.len() > 0,
        port.last() != '/',
    ensures
        url_of("http://127.0.0.1:"@ + port, subdomain, domain) == "http://"@ + subdomain
            + ".localhost:"@ + port,
        url_of("https://127.0.0.1:"@ + port, subdomain, domain) == "https://"@ + subdomain
            + ".localhost:"@ + port,
        url_of(base + seq!['/'], subdomain, domain) == url_of(base, subdomain, domain),
        !"http://"@.is_prefix_of(base) && !"https://"@.is_prefix_of(base) && (base.len() == 0
            || base.last() != '/') ==> url_of(base, subdomain, domain) == "https://"@ + subdomain
            + "."@ + domain,
{
    let here = "127.0.0.1:"@ + port;
    lemma_address_texts(port);
    lemma_scheme_url(here, subdomain, domain);
    lemma_scheme_texts(here, subdomain);
    lemma_port_texts(subdomain, port);
    assert((base + seq!['/']).drop_last() =~= base);
}

proof fn lemma_address_texts(port: Seq<char>)
    requires
        port.len() > 0,
    ensures
        ({
            let here = "127.0.0.1:"@ + port;
            &&& here.last() == port.last()
            &&& is_local(here)
            &&& port_part(here) == ":"@ + port
            &&& "http://127.0.0.1:"@ + port == "http://"@ + here
            &&& "https://127.0.0.1:"@ + port == "https://"@ + here
        }),
{
    let here = "127.0.0.1:"@ + port;
    reveal_strlit("127.0.0.1");
    reveal_strlit("127.0.0.1:");
    reveal_strlit("http://");
    reveal_strlit("https://");
    reveal_strlit("http://127.0.0.1:");
    reveal_strlit("https://127.0.0.1:");
    crate::text::law_splitting("127.0.0.1"@, ':', port);
    assert(here =~= "127.0.0.1"@ + seq![':'] + port);
    assert(here.subrange(0, 9) =~= "127.0.0.1"@);
    assert("127.0.0.1"@.is_prefix_of(here));
    assert("http://127.0.0.1:"@ =~= "http://"@ + "127.0.0.1:"@);
    assert("https://127.0.0.1:"@ =~= "https://"@ + "127.0.0.1:"@);
    assert("http://"@ + "127.0.0.1:"@ + port =~= "http://"@ + here);
    assert("https://"@ + "127.0.0.1:"@ + port =~= "https://"@ + here);
}

} // verus!
