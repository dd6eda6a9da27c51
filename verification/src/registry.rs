//! Live tunnels by subdomain.
use vstd::prelude::*;

use crate::protocol::{clone_routes, Route};

verus! {

/// A live tunnel: the connection that it runs over, by number, and what it
/// leads to.
pub struct Tunnel {
    pub conn: u64,
    pub routes: Vec<Route>,
    pub udp_ports: Vec<u16>,
}

/// A tunnel as a value.
#[verifier::ext_equal]
pub ghost struct TunnelView {
    pub conn: u64,
    pub routes: Seq<crate::protocol::RouteView>,
    pub udp_ports: Seq<u16>,
}

impl View for Tunnel {
    type V = TunnelView;

    open spec fn view(&self) -> TunnelView {
        TunnelView {
            conn: self.conn,
            routes: crate::protocol::route_views(self.routes@),
            udp_ports: self.udp_ports@,
        }
    }
}

impl Clone for Tunnel {
    fn clone(&self) -> (res: Self)
        ensures
            res@ == self@,
    {
        let mut udp_ports: Vec<u16> = Vec::new();
        udp_ports.extend_from_slice(self.udp_ports.as_slice());
        assert(udp_ports@ =~= self.udp_ports@);
        Tunnel { conn: self.conn, routes: clone_routes(&self.routes), udp_ports }
    }
}

/// The tunnels that a `dashmap::DashMap` holds under texts.
pub uninterp spec fn tunnels_held(map: dashmap::DashMap<String, Tunnel>) -> Map<
    Seq<char>,
    TunnelView,
>;

/// `DashMap::new` holds nothing.
#[verifier::external_body]
fn no_tunnels() -> (map: dashmap::DashMap<String, Tunnel>)
    ensures
        tunnels_held(map) == (Map::<Seq<char>, TunnelView>::empty()),
{
    dashmap::DashMap::new()
}

/// `DashMap::get` finds the tunnel held under a key, if there is one; what
/// comes out is a clone of it.
#[verifier::external_body]
fn get_tunnel(map: &dashmap::DashMap<String, Tunnel>, key: &str) -> (res: Option<Tunnel>)
    ensures
        match res {
            Some(tunnel) => tunnels_held(*map).contains_key(key@) && tunnel@ == tunnels_held(
                *map,
            )[key@],
            None => !tunnels_held(*map).contains_key(key@),
        },
{
    map.get(key).map(|entry| entry.clone())
}

/// `DashMap::contains_key` says whether a tunnel is held under a key.
#[verifier::external_body]
fn has_tunnel(map: &dashmap::DashMap<String, Tunnel>, key: &str) -> (res: bool)
    ensures
        res == tunnels_held(*map).contains_key(key@),
{
    map.contains_key(key)
}

/// `DashMap::insert` puts a tunnel under a key, in place of any other.
#[verifier::external_body]
fn put_tunnel(map: &mut dashmap::DashMap<String, Tunnel>, key: String, tunnel: Tunnel)
    ensures
        tunnels_held(*final(map)) == tunnels_held(*old(map)).insert(key@, tunnel@),
{
    map.insert(key, tunnel);
}

/// `DashMap::remove` takes out what is held under a key, if there is anything.
#[verifier::external_body]
fn drop_tunnel(map: &mut dashmap::DashMap<String, Tunnel>, key: &str)
    ensures
        tunnels_held(*final(map)) == tunnels_held(*old(map)).remove(key@),
{
    map.remove(key);
}

/// The live tunnels by subdomain.
pub struct Registry {
    inner: dashmap::DashMap<String, Tunnel>,
}

impl View for Registry {
    type V = Map<Seq<char>, TunnelView>;

    closed spec fn view(&self) -> Map<Seq<char>, TunnelView> {
        tunnels_held(self.inner)
    }
}

/// What is said of a name that has a tunnel.
pub open spec fn in_use(subdomain: Seq<char>) -> Seq<char> {
    "subdomain `"@ + subdomain + "` is already in use"@
}

fn in_use_message(subdomain: &str) -> (message: String)
    ensures
        message@ == in_use(subdomain@),
{
    let mut message: String = String::new();
    message.append("subdomain `");
    message.append(subdomain);
    message.append("` is already in use");
    assert(message@ =~= in_use(subdomain@));
    message
}

impl Registry {
    /// No tunnels.
    pub fn new() -> (registry: Registry)
        ensures
            registry@ == Map::<Seq<char>, TunnelView>::empty(),
    {
        Registry { inner: no_tunnels() }
    }

    /// Register a tunnel under a free name.
    pub fn insert(&mut self, subdomain: String, tunnel: Tunnel) -> (res: Result<(), String>)
        ensures
            if old(self)@.contains_key(subdomain@) {
                &&& final(self)@ == old(self)@
                &&& res matches Err(message) && message@ == in_use(subdomain@)
            } else {
                final(self)@ == old(self)@.insert(subdomain@, tunnel@) && res is Ok
            },
    {
        if has_tunnel(&self.inner, subdomain.as_str()) {
            return Err(in_use_message(subdomain.as_str()));
        }
        put_tunnel(&mut self.inner, subdomain, tunnel);
        Ok(())
    }

    /// Register a tunnel in place of any other under the name; the connection of
    /// the other one comes back.
    pub fn replace(&mut self, subdomain: String, tunnel: Tunnel) -> (res: Option<u64>)
        ensures
            final(self)@ == old(self)@.insert(subdomain@, tunnel@),
            res == (if old(self)@.contains_key(subdomain@) {
                Some(old(self)@[subdomain@].conn)
            } else {
                None
            }),
    {
        let replaced: Option<u64> = match get_tunnel(&self.inner, subdomain.as_str()) {
            Some(older) => Some(older.conn),
            None => None,
        };
        put_tunnel(&mut self.inner, subdomain, tunnel);
        replaced
    }

    /// The tunnel under a name.
    pub fn get(&self, subdomain: &str) -> (res: Option<Tunnel>)
        ensures
            match res {
                Some(tunnel) => self@.contains_key(subdomain@) && tunnel@ == self@[subdomain@],
                None => !self@.contains_key(subdomain@),
            },
    {
        get_tunnel(&self.inner, subdomain)
    }

    /// A tunnel is registered under the name.
    pub fn contains(&self, subdomain: &str) -> (res: bool)
        ensures
            res == self@.contains_key(subdomain@),
    {
        has_tunnel(&self.inner, subdomain)
    }

    /// Forget the tunnel under a name.
    pub fn remove(&mut self, subdomain: &str)
        ensures
            final(self)@ == old(self)@.remove(subdomain@),
    {
        drop_tunnel(&mut self.inner, subdomain)
    }
}

impl Default for Registry {
    fn default() -> (registry: Self)
        ensures
            registry@ == Map::<Seq<char>, TunnelView>::empty(),
    {
        Registry::new()
    }
}

/// A tunnel is found under the name that it was registered under, until it is
/// removed or another takes its place; a name that is taken is not registered
/// anew, and no other name changes.
pub proof fn law_registered_tunnels(
    name: String,
    tunnel: Tunnel,
    inserted: Result<(), String>,
    replaced: Option<u64>,
    gone: &str,
    other: Seq<char>,
)
    ensures
        forall|registry: &mut Registry|
            #[trigger] call_ensures(Registry::insert, (registry, name, tunnel), inserted) ==> {
                let (before, after) = (mut_ref_current(registry)@, mut_ref_future(registry)@);
                &&& inserted is Ok <==> !before.contains_key(name@)
                &&& inserted is Ok ==> after.contains_key(name@) && after[name@] == tunnel@
                &&& inserted matches Err(message) ==> after == before && message@ == "subdomain `"@
                    + name@ + "` is already in use"@
                &&& other != name@ ==> (after.contains_key(other) <==> before.contains_key(other))
                    && (before.contains_key(other) ==> after[other] == before[other])
            },
        forall|registry: &mut Registry|
            #[trigger] call_ensures(Registry::replace, (registry, name, tunnel), replaced) ==> {
                let (before, after) = (mut_ref_current(registry)@, mut_ref_future(registry)@);
                &&& after.contains_key(name@) && after[name@] == tunnel@
                &&& replaced is Some <==> before.contains_key(name@)
                &&& replaced matches Some(conn) ==> before[name@].conn == conn
                &&& other != name@ ==> (after.contains_key(other) <==> before.contains_key(other))
                    && (before.contains_key(other) ==> after[other] == before[other])
            },
        forall|registry: &mut Registry|
            #[trigger] call_ensures(Registry::remove, (registry, gone), ()) ==> {
                let (before, after) = (mut_ref_current(registry)@, mut_ref_future(registry)@);
                &&& !after.contains_key(gone@)
                &&& other != gone@ ==> (after.contains_key(other) <==> before.contains_key(other))
                    && (before.contains_key(other) ==> after[other] == before[other])
            },
{
}

/// What a registry says of a name.
pub proof fn law_found_tunnels(
    registry: &Registry,
    name: &str,
    found: Option<Tunnel>,
    there: bool,
)
    requires
        call_ensures(Registry::get, (registry, name), found),
        call_ensures(Registry::contains, (registry, name), there),
    ensures
        there <==> registry@.contains_key(name@),
        found is Some <==> registry@.contains_key(name@),
        found matches Some(tunnel) ==> registry@[name@] == (TunnelView {
            conn: tunnel.conn,
            routes: crate::protocol::route_views(tunnel.routes@),
            udp_ports: tunnel.udp_ports@,
        }),
{
}

} // verus!
