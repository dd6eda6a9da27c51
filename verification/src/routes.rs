//! Which local port a request path leads to.
use vstd::prelude::*;

use crate::protocol::Route;
use crate::search::chars_start_with;
use crate::text::{before_char, chars_of, same_text, to_chars, trimmed_end_char};

verus! {

/// The route prefix covers the path: it is `/`, or the path itself, or a
/// directory above it. Slashes at the end of the prefix do not count.
pub open spec fn prefix_covers(prefix: Seq<char>, path: Seq<char>) -> bool {
    let p = crate::text::trim_end_char(prefix, '/');
    ||| prefix == seq!['/']
    ||| path == p
    ||| p.push('/').is_prefix_of(path)
}

/// The path without its query.
pub open spec fn path_only(path: Seq<char>) -> Seq<char> {
    crate::text::before(path, '?')
}

/// Length of a prefix in bytes.
pub open spec fn prefix_len(route: crate::protocol::RouteView) -> nat {
    vstd::utf8::encode_utf8(route.path_prefix).len()
}

/// Index of the route that takes `path`: of those that cover it the one with
/// the longest prefix, and of equally long ones the last.
pub open spec fn best_route(routes: Seq<crate::protocol::RouteView>, path: Seq<char>) -> Option<int>
    decreases routes.len(),
{
    if routes.len() == 0 {
        None
    } else {
        let others = best_route(routes.drop_last(), path);
        if prefix_covers(routes.last().path_prefix, path_only(path)) && (others is None
            || prefix_len(routes[others->0]) <= prefix_len(routes.last())) {
            Some(routes.len() - 1)
        } else {
            others
        }
    }
}

/// The local port that `path` leads to.
pub open spec fn routed_port(
    routes: Seq<crate::protocol::RouteView>,
    path: Seq<char>,
) -> Option<u16> {
    match best_route(routes, path) {
        Some(i) => Some(routes[i].port),
        None => None,
    }
}

/// Longest prefix wins: the route taken covers the path, none that covers it
/// has a longer prefix, and a later one has a shorter prefix. Where no route is
/// taken, none covers the path.
pub proof fn law_longest_prefix_wins(routes: Seq<crate::protocol::RouteView>, path: Seq<char>)
    ensures
        match best_route(routes, path) {
            Some(i) => {
                &&& 0 <= i < routes.len()
                &&& prefix_covers(routes[i].path_prefix, path_only(path))
                &&& forall|j: int|
                    0 <= j < routes.len() && prefix_covers(
                        (#[trigger] routes[j]).path_prefix,
                        path_only(path),
                    ) ==> prefix_len(routes[j]) <= prefix_len(routes[i]) && (j > i ==> prefix_len(
                        routes[j],
                    ) < prefix_len(routes[i]))
            },
            None => forall|j: int|
                0 <= j < routes.len() ==> !prefix_covers(
                    (#[trigger] routes[j]).path_prefix,
                    path_only(path),
                ),
        },
    decreases routes.len(),
{
    if routes.len() > 0 {
        let init = routes.drop_last();
        law_longest_prefix_wins(init, path);
        assert forall|j: int| 0 <= j < init.len() implies init[j] == routes[j] by {}
        match best_route(routes, path) {
            Some(i) => {
                assert forall|j: int|
                    0 <= j < routes.len() && prefix_covers(
                        (#[trigger] routes[j]).path_prefix,
                        path_only(path),
                    ) implies prefix_len(routes[j]) <= prefix_len(routes[i]) && (j > i
                    ==> prefix_len(routes[j]) < prefix_len(routes[i])) by {
                    if j < init.len() {
                        assert(init[j] == routes[j]);
                    }
                }
            },
            None => {
                assert forall|j: int| 0 <= j < routes.len() implies !prefix_covers(
                    (#[trigger] routes[j]).path_prefix,
                    path_only(path),
                ) by {
                    if j < init.len() {
                        assert(init[j] == routes[j]);
                    }
                }
            },
        }
    }
}

/// A table with a catch-all route leads every path somewhere.
pub proof fn law_catch_all_routes_every_path(
    routes: Seq<crate::protocol::RouteView>,
    path: Seq<char>,
    i: int,
)
    requires
        0 <= i < routes.len(),
        routes[i].path_prefix == seq!['/'],
    ensures
        routed_port(routes, path) is Some,
{
    law_longest_prefix_wins(routes, path);
    assert(prefix_covers(routes[i].path_prefix, path_only(path)));
}

/// The query of a request has no say in where it goes.
pub proof fn law_query_is_ignored(
    routes: Seq<crate::protocol::RouteView>,
    path: Seq<char>,
    query: Seq<char>,
)
    requires
        forall|i: int| 0 <= i < path.len() ==> path[i] != '?',
    ensures
        routed_port(routes, path + seq!['?'] + query) == routed_port(routes, path),
    decreases routes.len(),
{
    let full = path + seq!['?'] + query;
    crate::text::lemma_find_char_none(path, '?');
    assert(full[path.len() as int] == '?');
    assert forall|j: int| 0 <= j < path.len() implies full[j] != '?' by {
        assert(full[j] == path[j]);
    }
    crate::text::lemma_find_char_is(full, '?', path.len() as int);
    assert(full.take(path.len() as int) =~= path);
    lemma_same_path_same_route(routes, full, path);
}

proof fn lemma_same_path_same_route(
    routes: Seq<crate::protocol::RouteView>,
    a: Seq<char>,
    b: Seq<char>,
)
    requires
        path_only(a) == path_only(b),
    ensures
        best_route(routes, a) == best_route(routes, b),
    decreases routes.len(),
{
    if routes.len() > 0 {
        lemma_same_path_same_route(routes.drop_last(), a, b);
    }
}

/// `prefix` covers `path`, which holds no query.
pub fn path_matches(prefix: &str, path: &[char]) -> (res: bool)
    ensures
        res == prefix_covers(prefix@, path@),
{
    let chars: Vec<char> = chars_of(prefix);
    if chars.len() == 1 && chars[0] == '/' {
        assert(prefix@ =~= seq!['/']);
        return true;
    }
    assert(prefix@ != seq!['/']) by {
        if prefix@ == seq!['/'] {
            assert(prefix@.len() == 1 && prefix@[0] == '/');
        }
    }
    let p = trimmed_end_char(chars.as_slice(), '/');
    if same_text(path, p) {
        return true;
    }
    let mut dir: Vec<char> = to_chars(p);
    dir.push('/');
    chars_start_with(path, dir.as_slice())
}

/// Longest-prefix match. `/` matches every path.
pub fn match_route(routes: &[Route], path: &str) -> (res: Option<u16>)
    ensures
        res == routed_port(crate::protocol::route_views(routes@), path@),
{
    let chars: Vec<char> = chars_of(path);
    let path_chars = before_char(chars.as_slice(), '?');
    let ghost views = crate::protocol::route_views(routes@);
    let mut best: Option<usize> = None;
    let mut i: usize = 0;
    while i < routes.len()
        invariant
            i <= routes@.len(),
            views == crate::protocol::route_views(routes@),
            path_chars@ == path_only(path@),
            best is Some <==> best_route(views.take(i as int), path@) is Some,
            best matches Some(b) ==> b < i && best_route(views.take(i as int), path@) == Some(
                b as int,
            ),
        decreases routes@.len() - i,
    {
        proof {
            assert(views.take(i + 1).drop_last() =~= views.take(i as int));
            assert(views.take(i + 1).last() == routes@[i as int]@);
            law_longest_prefix_wins(views.take(i as int), path@);
        }
        if path_matches(routes[i].path_prefix.as_str(), path_chars) {
            let longer: bool = match best {
                None => true,
                Some(b) => routes[b].path_prefix.as_str().as_bytes().len()
                    <= routes[i].path_prefix.as_str().as_bytes().len(),
            };
            proof {
                if best is Some {
                    assert(views.take(i + 1)[best->0 as int] == routes@[best->0 as int]@);
                }
            }
            if longer {
                best = Some(i);
            }
        }
        i = i + 1;
    }
    assert(views.take(i as int) =~= views);
    match best {
        Some(b) => Some(routes[b].port),
        None => None,
    }
}

/// A route with the prefix `p` leads the path `p`, and every path that goes on
/// below it after a slash, to its port, however deep; it leads nowhere else.
/// What matters of a path is what stands before its query.
pub proof fn law_a_route_leads_what_is_below_it(p: Seq<char>, port: u16, t: Seq<char>)
    requires
        forall|i: int| 0 <= i < p.len() ==> p[i] != '?',
        forall|i: int| 0 <= i < t.len() ==> t[i] != '?',
        p.len() > 0 ==> p.last() != '/',
    ensures
        ({
            let only = seq![crate::protocol::RouteView { path_prefix: p, port }];
            &&& routed_port(only, p) == Some(port)
            &&& routed_port(only, p + seq!['/'] + t) == Some(port)
            &&& t != p && !(p + seq!['/']).is_prefix_of(t) ==> routed_port(only, t) is None
        }),
{
    let only = seq![crate::protocol::RouteView { path_prefix: p, port }];
    let below = p + seq!['/'] + t;
    law_longest_prefix_wins(only, p);
    law_longest_prefix_wins(only, below);
    law_longest_prefix_wins(only, t);
    crate::text::lemma_find_char_none(p, '?');
    crate::text::lemma_find_char_none(t, '?');
    assert forall|i: int| 0 <= i < below.len() implies below[i] != '?' by {
        if i < p.len() {
            assert(below[i] == p[i]);
        } else if i > p.len() {
            assert(below[i] == t[i - p.len() - 1]);
        }
    }
    crate::text::lemma_find_char_none(below, '?');
    assert(p.push('/') =~= p + seq!['/']);
    assert(below.take(p.len() as int + 1) =~= p.push('/'));
    assert(p.push('/').is_prefix_of(below));
    assert(only[0].path_prefix == p);
    if p == seq!['/'] {
        assert(p.last() == '/');
    }
}

/// Slashes behind a prefix do not count, and `/` alone takes every path.
pub proof fn law_slashes_behind_a_prefix_do_not_count(
    p: Seq<char>,
    slashes: Seq<char>,
    port: u16,
    path: Seq<char>,
)
    requires
        forall|i: int| 0 <= i < slashes.len() ==> slashes[i] == '/',
        p.len() > 0 ==> p.last() != '/',
    ensures
        p.len() > 0 ==> routed_port(
            seq![crate::protocol::RouteView { path_prefix: p + slashes, port }],
            path,
        ) == routed_port(seq![crate::protocol::RouteView { path_prefix: p, port }], path),
        routed_port(seq![crate::protocol::RouteView { path_prefix: seq!['/'], port }], path)
            == Some(port),
{
    let bare = seq![crate::protocol::RouteView { path_prefix: p, port }];
    let long = seq![crate::protocol::RouteView { path_prefix: p + slashes, port }];
    let all = seq![crate::protocol::RouteView { path_prefix: seq!['/'], port }];
    law_longest_prefix_wins(bare, path);
    law_longest_prefix_wins(long, path);
    law_longest_prefix_wins(all, path);
    assert(prefix_covers(all[0].path_prefix, path_only(path)));
    lemma_trimmed_slashes(p, slashes);
    lemma_trimmed_slashes(p, Seq::empty());
    assert(p + Seq::<char>::empty() =~= p);
    if p.len() > 0 {
        assert(p + slashes != seq!['/']) by {
            if p + slashes == seq!['/'] {
                assert((p + slashes)[0] == p[0]);
                assert((p + slashes).len() == 1);
                assert(p.last() == p[0]);
            }
        }
        assert(p != seq!['/']) by {
            if p == seq!['/'] {
                assert(p.last() == '/');
            }
        }
        assert(bare[0].path_prefix == p && long[0].path_prefix == p + slashes);
        assert(prefix_covers(p + slashes, path_only(path)) == prefix_covers(p, path_only(path)));
    }
}

pub proof fn lemma_trimmed_slashes(p: Seq<char>, slashes: Seq<char>)
    requires
        forall|i: int| 0 <= i < slashes.len() ==> slashes[i] == '/',
        p.len() > 0 ==> p.last() != '/',
    ensures
        crate::text::trim_end_char(p + slashes, '/') == p,
    decreases slashes.len(),
{
    let all = p + slashes;
    if slashes.len() == 0 {
        assert(all =~= p);
    } else {
        assert(all.last() == slashes.last());
        assert(all.drop_last() =~= p + slashes.drop_last());
        lemma_trimmed_slashes(p, slashes.drop_last());
    }
}

/// A table leads a path where that one of its routes does which leads it alone
/// and has the longest prefix, in bytes; of equally long ones the last decides.
/// Where no route leads the path alone, the table does not.
pub proof fn law_the_longest_route_decides(
    routes: Seq<crate::protocol::RouteView>,
    path: Seq<char>,
    i: int,
)
    requires
        0 <= i < routes.len(),
        routed_port(seq![routes[i]], path) is Some,
        forall|j: int|
            0 <= j < routes.len() && j != i && routed_port(seq![#[trigger] routes[j]], path) is Some
                ==> vstd::utf8::encode_utf8(routes[j].path_prefix).len() < vstd::utf8::encode_utf8(
                routes[i].path_prefix,
            ).len() || j < i && vstd::utf8::encode_utf8(routes[j].path_prefix).len()
                == vstd::utf8::encode_utf8(routes[i].path_prefix).len(),
    ensures
        routed_port(routes, path) == Some(routes[i].port),
{
    law_longest_prefix_wins(routes, path);
    lemma_alone(routes[i], path);
    let k = best_route(routes, path)->Some_0;
    lemma_alone(routes[k], path);
    if k != i {
        assert(routed_port(seq![routes[k]], path) is Some);
    }
}

/// Where no route leads a path alone, no table of such routes does.
pub proof fn law_no_route_no_port(routes: Seq<crate::protocol::RouteView>, path: Seq<char>)
    requires
        forall|j: int|
            0 <= j < routes.len() ==> routed_port(seq![#[trigger] routes[j]], path) is None,
    ensures
        routed_port(routes, path) is None,
{
    law_longest_prefix_wins(routes, path);
    if best_route(routes, path) is Some {
        let k = best_route(routes, path)->Some_0;
        lemma_alone(routes[k], path);
        assert(routed_port(seq![routes[k]], path) is Some);
    }
}

proof fn lemma_alone(route: crate::protocol::RouteView, path: Seq<char>)
    ensures
        routed_port(seq![route], path) == (if prefix_covers(route.path_prefix, path_only(path)) {
            Some(route.port)
        } else {
            None
        }),
{
    let only = seq![route];
    law_longest_prefix_wins(only, path);
    assert(only[0] == route);
}

/// The slashes at its end aside, the text is where the path begins.
pub open spec fn begins(prefix: Seq<char>, path: Seq<char>) -> bool {
    exists|k: int|
        0 <= k <= prefix.len() && #[trigger] prefix.take(k).is_prefix_of(path) && forall|m: int|
            k <= m < prefix.len() ==> prefix[m] == '/'
}

/// A table that holds a route with the prefix `p` leads `p`, and every path that
/// goes on below it after a slash, to some port; where every other prefix that
/// begins the path is shorter, to the port of that route.
pub proof fn law_a_table_leads_what_is_below_its_prefixes(
    routes: Seq<crate::protocol::RouteView>,
    i: int,
    t: Seq<char>,
    path: Seq<char>,
)
    requires
        0 <= i < routes.len(),
        forall|k: int|
            0 <= k < routes[i].path_prefix.len() ==> #[trigger] routes[i].path_prefix[k] != '?',
        forall|k: int| 0 <= k < t.len() ==> t[k] != '?',
        routes[i].path_prefix.len() > 0 ==> routes[i].path_prefix.last() != '/',
        path == routes[i].path_prefix || path == routes[i].path_prefix + seq!['/'] + t,
    ensures
        routed_port(routes, path) is Some,
        (forall|j: int|
            0 <= j < routes.len() && j != i && begins((#[trigger] routes[j]).path_prefix, path)
                ==> vstd::utf8::encode_utf8(routes[j].path_prefix).len() < vstd::utf8::encode_utf8(
                routes[i].path_prefix,
            ).len()) ==> routed_port(routes, path) == Some(routes[i].port),
{
    let p = routes[i].path_prefix;
    law_a_route_leads_what_is_below_it(p, routes[i].port, t);
    let only = seq![crate::protocol::RouteView { path_prefix: p, port: routes[i].port }];
    assert(seq![routes[i]] =~= only);
    assert(routed_port(seq![routes[i]], path) is Some);
    law_longest_prefix_wins(routes, path);
    lemma_alone(routes[i], path);
    assert(prefix_covers(routes[i].path_prefix, path_only(path)));
    assert forall|k: int| 0 <= k < path.len() implies path[k] != '?' by {
        if path == p {
            assert(path[k] == routes[i].path_prefix[k]);
        } else if k < p.len() {
            assert(path[k] == routes[i].path_prefix[k]);
        } else if k > p.len() {
            assert(path[k] == t[k - p.len() - 1]);
        }
    }
    crate::text::lemma_find_char_none(path, '?');
    assert forall|j: int|
        0 <= j < routes.len() && routed_port(seq![#[trigger] routes[j]], path) is Some implies begins(
        routes[j].path_prefix,
        path,
    ) by {
        let q = routes[j].path_prefix;
        lemma_alone(routes[j], path);
        crate::text::law_trim_char(q, '/');
        let n = crate::text::trim_end_char(q, '/').len() as int;
        let bare = q.take(n);
        if q == seq!['/'] {
            assert(q.take(0).is_prefix_of(path));
            assert forall|m: int| 0 <= m < q.len() implies q[m] == '/' by {}
        } else {
            if path == bare {
                assert(bare.is_prefix_of(path));
            } else {
                let dir = bare.push('/');
                assert(dir.is_prefix_of(path));
                assert(path.take(n) =~= path.take(n + 1).take(n));
                assert(dir.take(n) =~= bare);
                assert(bare.is_prefix_of(path));
            }
            assert(q.take(n).is_prefix_of(path));
            assert forall|m: int| n <= m < q.len() implies q[m] == '/' by {}
        }
    }
    if forall|j: int|
        0 <= j < routes.len() && j != i && begins((#[trigger] routes[j]).path_prefix, path)
            ==> vstd::utf8::encode_utf8(routes[j].path_prefix).len() < vstd::utf8::encode_utf8(
            routes[i].path_prefix,
        ).len() {
        assert forall|j: int|
            0 <= j < routes.len() && j != i && routed_port(seq![#[trigger] routes[j]], path) is Some
            implies vstd::utf8::encode_utf8(routes[j].path_prefix).len() < vstd::utf8::encode_utf8(
            routes[i].path_prefix,
        ).len() by {
            assert(begins(routes[j].path_prefix, path));
        }
        law_the_longest_route_decides(routes, path, i);
    }
}

} // verus!
