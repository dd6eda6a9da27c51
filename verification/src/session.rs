//! The edge's side of a tunnel's control stream: registration, keep-alive and
//! the end.
//!
//! The edge feeds each event of the stream to the session and performs the
//! action that comes back.
use vstd::prelude::*;

use crate::claims::{Claimed, ClaimStore};
use crate::edge::public_url;
use crate::protocol::{validate_subdomain, ControlMessage, Route};
use crate::registry::{Registry, Tunnel};
use crate::render::debug_message;
use crate::text::{chars_of, opt_clone, same_str, str_is_empty, string_of, to_lower};

verus! {

/// What a CLI asks for when it registers.
pub struct RegisterRequest {
    pub name: Option<String>,
    pub routes: Vec<Route>,
    pub machine_id: Option<String>,
    pub udp_ports: Vec<u16>,
}

#[verifier::ext_equal]
pub ghost struct RequestView {
    pub name: Option<Seq<char>>,
    pub routes: Seq<crate::protocol::RouteView>,
    pub machine_id: Option<Seq<char>>,
    pub udp_ports: Seq<u16>,
}

impl View for RegisterRequest {
    type V = RequestView;

    open spec fn view(&self) -> RequestView {
        RequestView {
            name: crate::text::opt_text(self.name),
            routes: crate::protocol::route_views(self.routes@),
            machine_id: crate::text::opt_text(self.machine_id),
            udp_ports: self.udp_ports@,
        }
    }
}

/// Where a session stands.
pub enum SessionState {
    /// The first message is due.
    Waiting,
    /// A random name is being drawn.
    Drawing(RegisterRequest),
    /// A random name is being drawn in place of one that cannot be had.
    Fallback(RegisterRequest),
    /// The claim of a name is being kept on disk.
    Claiming(RegisterRequest, String),
    /// The tunnel is registered under the name.
    Live(String),
    Over,
}

#[verifier::ext_equal]
pub ghost enum StateView {
    Waiting,
    Drawing(RequestView),
    Fallback(RequestView),
    Claiming(RequestView, Seq<char>),
    Live(Seq<char>),
    Over,
}

impl View for SessionState {
    type V = StateView;

    open spec fn view(&self) -> StateView {
        match self {
            SessionState::Waiting => StateView::Waiting,
            SessionState::Drawing(request) => StateView::Drawing(request@),
            SessionState::Fallback(request) => StateView::Fallback(request@),
            SessionState::Claiming(request, name) => StateView::Claiming(request@, name@),
            SessionState::Live(name) => StateView::Live(name@),
            SessionState::Over => StateView::Over,
        }
    }
}

/// What happens to a session.
pub enum SessionEvent {
    /// A message arrived.
    Received(ControlMessage),
    /// A random name was drawn.
    Drew(String),
    /// The claim was kept on disk, or why not.
    Persisted(Result<(), String>),
    /// The stream can no longer be read or written, or the connection closed.
    Lost,
}

#[verifier::ext_equal]
pub ghost enum EventView {
    Received(crate::protocol::MessageView),
    Drew(Seq<char>),
    Persisted(Option<Seq<char>>),
    Lost,
}

impl View for SessionEvent {
    type V = EventView;

    open spec fn view(&self) -> EventView {
        match self {
            SessionEvent::Received(message) => EventView::Received(message@),
            SessionEvent::Drew(name) => EventView::Drew(name@),
            SessionEvent::Persisted(Ok(_)) => EventView::Persisted(None),
            SessionEvent::Persisted(Err(e)) => EventView::Persisted(Some(e@)),
            SessionEvent::Lost => EventView::Lost,
        }
    }
}

/// What the edge is to do.
#[allow(inconsistent_fields)]
pub enum SessionAction {
    /// Draw a random name and hand it back.
    Draw,
    /// Keep the claim on disk and hand back how that went.
    Persist { subdomain: String, machine_id: String },
    /// Send the reply and end with the error.
    Refuse { reply: ControlMessage, error: String },
    /// Close the connection that is replaced, if any, and send the reply.
    Accept { reply: ControlMessage, replaced: Option<u64> },
    /// Send the reply.
    Reply(ControlMessage),
    /// Wait for the next message.
    Listen,
    /// The session is over.
    End,
}

#[verifier::ext_equal]
#[allow(inconsistent_fields)]
pub ghost enum ActionView {
    Draw,
    Persist { subdomain: Seq<char>, machine_id: Seq<char> },
    Refuse { reply: crate::protocol::MessageView, error: Seq<char> },
    Accept { reply: crate::protocol::MessageView, replaced: Option<u64> },
    Reply(crate::protocol::MessageView),
    Listen,
    End,
}

impl View for SessionAction {
    type V = ActionView;

    open spec fn view(&self) -> ActionView {
        match self {
            SessionAction::Draw => ActionView::Draw,
            SessionAction::Persist { subdomain, machine_id } => ActionView::Persist {
                subdomain: subdomain@,
                machine_id: machine_id@,
            },
            SessionAction::Refuse { reply, error } => ActionView::Refuse {
                reply: reply@,
                error: error@,
            },
            SessionAction::Accept { reply, replaced } => ActionView::Accept {
                reply: reply@,
                replaced: *replaced,
            },
            SessionAction::Reply(reply) => ActionView::Reply(reply@),
            SessionAction::Listen => ActionView::Listen,
            SessionAction::End => ActionView::End,
        }
    }
}

/// What the edge knows: its live tunnels, its claims, and under which names it
/// publishes.
pub struct Hub {
    pub registry: Registry,
    pub claims: ClaimStore,
    pub domain: String,
    pub public_base: String,
}

#[verifier::ext_equal]
pub ghost struct HubView {
    pub tunnels: Map<Seq<char>, crate::registry::TunnelView>,
    pub claims: crate::claims::ClaimsView,
    pub domain: Seq<char>,
    pub public_base: Seq<char>,
}

impl View for Hub {
    type V = HubView;

    open spec fn view(&self) -> HubView {
        HubView {
            tunnels: self.registry@,
            claims: self.claims@,
            domain: self.domain@,
            public_base: self.public_base@,
        }
    }
}

/// What a session's step leads to.
#[verifier::ext_equal]
pub ghost struct Outcome {
    pub hub: HubView,
    pub state: StateView,
    pub action: ActionView,
}

/// The session ends with an error that the CLI is told as well.
pub open spec fn refused(hub: HubView, told: Seq<char>, error: Seq<char>) -> Outcome {
    Outcome {
        hub,
        state: StateView::Over,
        action: ActionView::Refuse {
            reply: crate::protocol::MessageView::Error { message: told },
            error,
        },
    }
}

/// The machine id of a request; empty where it has none.
pub open spec fn machine_of(request: RequestView) -> Seq<char> {
    match request.machine_id {
        Some(id) => id,
        None => Seq::empty(),
    }
}

/// The name may be handed out to whoever asks for any: it has no tunnel, and
/// where claims count, no other owner.
pub open spec fn is_free(hub: HubView, request: RequestView, name: Seq<char>) -> bool {
    &&& !hub.tunnels.contains_key(name)
    &&& hub.claims.persistent ==> hub.claims.available(name, machine_of(request))
}

/// The tunnel that a request sets up over a connection.
pub open spec fn tunnel_for(request: RequestView, conn: u64) -> crate::registry::TunnelView {
    crate::registry::TunnelView { conn, routes: request.routes, udp_ports: request.udp_ports }
}

/// The owner of a name, if it has one.
pub open spec fn owner_of(hub: HubView, name: Seq<char>) -> Option<Seq<char>> {
    if hub.claims.owners.contains_key(name) {
        Some(hub.claims.owners[name])
    } else {
        None
    }
}

/// The machine may have the name: nobody has a tunnel there, or where claims
/// count, the name is its own.
pub open spec fn may_take(hub: HubView, request: RequestView, name: Seq<char>) -> bool {
    hub.tunnels.contains_key(name) ==> hub.claims.persistent && owner_of(hub, name) == Some(
        machine_of(request),
    )
}

/// The tunnel goes live under the name, in place of an older one. The CLI is
/// told whether the name is its own or one by chance.
pub open spec fn granted(
    hub: HubView,
    request: RequestView,
    name: Seq<char>,
    conn: u64,
    ephemeral: bool,
) -> Outcome {
    Outcome {
        hub: HubView { tunnels: hub.tunnels.insert(name, tunnel_for(request, conn)), ..hub },
        state: StateView::Live(name),
        action: ActionView::Accept {
            reply: crate::protocol::MessageView::Registered {
                subdomain: name,
                public_url: crate::edge::url_of(hub.public_base, name, hub.domain),
                ephemeral,
            },
            replaced: if hub.tunnels.contains_key(name) {
                Some(hub.tunnels[name].conn)
            } else {
                None
            },
        },
    }
}

/// A request whose name cannot be had: the session goes on under a random one.
pub open spec fn fallen_back(hub: HubView, request: RequestView) -> Outcome {
    Outcome { hub, state: StateView::Fallback(request), action: ActionView::Draw }
}

/// A request whose name is settled: the tunnel is registered, in place of an
/// older one where the machine owns the name.
pub open spec fn enrolled(hub: HubView, request: RequestView, name: Seq<char>, conn: u64) -> Outcome {
    if may_take(hub, request, name) {
        granted(hub, request, name, conn, false)
    } else {
        fallen_back(hub, request)
    }
}

/// A request that has a name: it is claimed where claims count. A name that
/// somebody else has, and one beside the machine's own, give way to a random
/// one.
pub open spec fn named(hub: HubView, request: RequestView, name: Seq<char>, conn: u64) -> Outcome {
    let machine = machine_of(request);
    if !may_take(hub, request, name) {
        fallen_back(hub, request)
    } else if !hub.claims.persistent {
        enrolled(hub, request, name, conn)
    } else {
        match hub.claims.claim(name, machine) {
            Err(message) => if machine.len() == 0 {
                refused(hub, message, message)
            } else {
                fallen_back(hub, request)
            },
            Ok(Claimed::Already) => enrolled(hub, request, name, conn),
            Ok(Claimed::New) => Outcome {
                hub: HubView { claims: hub.claims.after_claim(name, machine), ..hub },
                state: StateView::Claiming(request, name),
                action: ActionView::Persist { subdomain: name, machine_id: machine },
            },
        }
    }
}

/// Nobody has the name: it has no tunnel and no owner.
pub open spec fn is_nobodys(hub: HubView, name: Seq<char>) -> bool {
    !hub.tunnels.contains_key(name) && owner_of(hub, name) is None
}

/// A message that registers: it must have a route, a machine id where claims
/// count, and a valid name or none.
pub open spec fn opened(hub: HubView, request: RequestView, conn: u64) -> Outcome {
    if request.routes.len() == 0 {
        refused(hub, no_route_text(), "register with no routes"@)
    } else if hub.claims.persistent && machine_of(request).len() == 0 {
        refused(
            hub,
            "this Vyse edge requires a machine id"@,
            "this Vyse edge requires a machine id"@,
        )
    } else {
        match request.name {
            None => Outcome { hub, state: StateView::Drawing(request), action: ActionView::Draw },
            Some(name) => {
                let name = crate::text::lower(name);
                match crate::protocol::subdomain_fault(name) {
                    Some(message) => refused(hub, message, message),
                    None => named(hub, request, name, conn),
                }
            },
        }
    }
}

pub open spec fn no_route_text() -> Seq<char> {
    "register must include at least one route"@
}

/// What an event leads to in a session over the connection `conn`.
pub open spec fn stepped(hub: HubView, conn: u64, state: StateView, event: EventView) -> Outcome {
    match (state, event) {
        (StateView::Waiting, EventView::Received(message)) => match message {
            crate::protocol::MessageView::Register { subdomain, routes, machine_id, udp_ports } => {
                opened(hub, RequestView { name: subdomain, routes, machine_id, udp_ports }, conn)
            },
            other => refused(
                hub,
                "expected register, got "@ + crate::render::message_text(other),
                "first control message was not register"@,
            ),
        },
        (StateView::Drawing(request), EventView::Drew(name)) => if is_free(hub, request, name) {
            named(hub, request, name, conn)
        } else {
            Outcome { hub, state, action: ActionView::Draw }
        },
        (StateView::Fallback(request), EventView::Drew(name)) => if is_nobodys(hub, name) {
            granted(hub, request, name, conn, true)
        } else {
            fallen_back(hub, request)
        },
        (StateView::Claiming(request, name), EventView::Persisted(fault)) => match fault {
            Some(message) => refused(hub, message, message),
            None => enrolled(hub, request, name, conn),
        },
        (StateView::Live(name), EventView::Received(message)) => Outcome {
            hub,
            state,
            action: if message is Ping {
                ActionView::Reply(crate::protocol::MessageView::Pong)
            } else {
                ActionView::Listen
            },
        },
        (StateView::Live(name), EventView::Lost) => Outcome {
            hub: HubView { tunnels: hub.tunnels.remove(name), ..hub },
            state: StateView::Over,
            action: ActionView::End,
        },
        (_, EventView::Lost) => Outcome { hub, state: StateView::Over, action: ActionView::End },
        _ => Outcome { hub, state, action: ActionView::Listen },
    }
}

fn error_message(message: &str) -> (reply: ControlMessage)
    ensures
        reply@ == (crate::protocol::MessageView::Error { message: message@ }),
{
    ControlMessage::Error { message: message.to_owned() }
}

fn refuse(told: &str, error: &str) -> (res: (SessionState, SessionAction))
    ensures
        forall|hub: HubView|
            (Outcome { hub, state: res.0@, action: res.1@ }) == #[trigger] refused(
                hub,
                told@,
                error@,
            ),
{
    (
        SessionState::Over,
        SessionAction::Refuse { reply: error_message(told), error: error.to_owned() },
    )
}

fn machine_text(request: &RegisterRequest) -> (res: String)
    ensures
        res@ == machine_of(request@),
{
    match &request.machine_id {
        Some(id) => id.clone(),
        None => {
            let none = String::new();
            assert(none@ =~= Seq::empty());
            none
        },
    }
}

impl Hub {
    /// An edge without tunnels.
    pub fn new(claims: ClaimStore, domain: String, public_base: String) -> (hub: Hub)
        ensures
            hub@ == (HubView {
                tunnels: Map::empty(),
                claims: claims@,
                domain: domain@,
                public_base: public_base@,
            }),
    {
        Hub { registry: Registry::new(), claims, domain, public_base }
    }

    /// The machine may have the name.
    fn can_take(&self, request: &RegisterRequest, name: &str) -> (res: bool)
        ensures
            res == may_take(self@, request@, name@),
    {
        if !self.registry.contains(name) {
            return true;
        }
        if !self.claims.requires_machine_id() {
            return false;
        }
        match self.claims.owner(name) {
            Some(owner) => same_str(owner.as_str(), machine_text(request).as_str()),
            None => false,
        }
    }

    fn grant(&mut self, request: RegisterRequest, name: String, conn: u64, ephemeral: bool) -> (res:
        (SessionState, SessionAction))
        ensures
            (Outcome { hub: final(self)@, state: res.0@, action: res.1@ }) == granted(
                old(self)@,
                request@,
                name@,
                conn,
                ephemeral,
            ),
    {
        let ghost asked = request@;
        let tunnel = Tunnel { conn, routes: request.routes, udp_ports: request.udp_ports };
        assert(tunnel@ == tunnel_for(asked, conn));
        let replaced: Option<u64> = self.registry.replace(name.clone(), tunnel);
        let reply = ControlMessage::Registered {
            subdomain: name.clone(),
            public_url: public_url(
                self.public_base.as_str(),
                name.as_str(),
                self.domain.as_str(),
            ),
            ephemeral,
        };
        (SessionState::Live(name), SessionAction::Accept { reply, replaced })
    }

    fn enroll(&mut self, request: RegisterRequest, name: String, conn: u64) -> (res: (
        SessionState,
        SessionAction,
    ))
        ensures
            (Outcome { hub: final(self)@, state: res.0@, action: res.1@ }) == enrolled(
                old(self)@,
                request@,
                name@,
                conn,
            ),
    {
        if self.can_take(&request, name.as_str()) {
            self.grant(request, name, conn, false)
        } else {
            (SessionState::Fallback(request), SessionAction::Draw)
        }
    }

    fn name_session(&mut self, request: RegisterRequest, name: String, conn: u64) -> (res: (
        SessionState,
        SessionAction,
    ))
        ensures
            (Outcome { hub: final(self)@, state: res.0@, action: res.1@ }) == named(
                old(self)@,
                request@,
                name@,
                conn,
            ),
    {
        if !self.can_take(&request, name.as_str()) {
            return (SessionState::Fallback(request), SessionAction::Draw);
        }
        if !self.claims.requires_machine_id() {
            return self.enroll(request, name, conn);
        }
        let machine: String = machine_text(&request);
        match self.claims.claim_reserved(name.as_str(), machine.as_str()) {
            Err(message) => {
                assert(self@ =~= old(self)@);
                if str_is_empty(machine.as_str()) {
                    refuse(message.as_str(), message.as_str())
                } else {
                    (SessionState::Fallback(request), SessionAction::Draw)
                }
            },
            Ok(Claimed::Already) => {
                assert(self@ =~= old(self)@);
                self.enroll(request, name, conn)
            },
            Ok(Claimed::New) => {
                let subdomain: String = name.clone();
                (
                    SessionState::Claiming(request, name),
                    SessionAction::Persist { subdomain, machine_id: machine },
                )
            },
        }
    }

    fn open(&mut self, request: RegisterRequest, conn: u64) -> (res: (SessionState, SessionAction))
        ensures
            (Outcome { hub: final(self)@, state: res.0@, action: res.1@ }) == opened(
                old(self)@,
                request@,
                conn,
            ),
    {
        if request.routes.len() == 0 {
            return refuse("register must include at least one route", "register with no routes");
        }
        if self.claims.requires_machine_id() && str_is_empty(machine_text(&request).as_str()) {
            return refuse(
                "this Vyse edge requires a machine id",
                "this Vyse edge requires a machine id",
            );
        }
        match opt_clone(&request.name) {
            None => (SessionState::Drawing(request), SessionAction::Draw),
            Some(asked) => {
                let name: String = string_of(
                    to_lower(chars_of(asked.as_str()).as_slice()).as_slice(),
                );
                match validate_subdomain(name.as_str()) {
                    Err(message) => refuse(message.as_str(), message.as_str()),
                    Ok(()) => self.name_session(request, name, conn),
                }
            },
        }
    }

    /// A name that was drawn may be handed out.
    fn free(&self, request: &RegisterRequest, name: &str) -> (res: bool)
        ensures
            res == is_free(self@, request@, name@),
    {
        if self.registry.contains(name) {
            return false;
        }
        !self.claims.requires_machine_id() || self.claims.is_available_for(
            name,
            machine_text(request).as_str(),
        )
    }

    /// What an event leads to in a session over the connection `conn`.
    pub fn step(&mut self, conn: u64, state: SessionState, event: SessionEvent) -> (res: (
        SessionState,
        SessionAction,
    ))
        ensures
            (Outcome { hub: final(self)@, state: res.0@, action: res.1@ }) == stepped(
                old(self)@,
                conn,
                state@,
                event@,
            ),
    {
        match (state, event) {
            (SessionState::Waiting, SessionEvent::Received(message)) => match message {
                ControlMessage::Register { subdomain, routes, machine_id, udp_ports } => {
                    self.open(
                        RegisterRequest { name: subdomain, routes, machine_id, udp_ports },
                        conn,
                    )
                },
                other => {
                    let mut told: String = String::new();
                    told.append("expected register, got ");
                    told.append(debug_message(&other).as_str());
                    assert(told@ =~= "expected register, got "@ + crate::render::message_text(
                        other@,
                    ));
                    refuse(told.as_str(), "first control message was not register")
                },
            },
            (SessionState::Drawing(request), SessionEvent::Drew(name)) => {
                if self.free(&request, name.as_str()) {
                    self.name_session(request, name, conn)
                } else {
                    (SessionState::Drawing(request), SessionAction::Draw)
                }
            },
            (SessionState::Fallback(request), SessionEvent::Drew(name)) => {
                if !self.registry.contains(name.as_str()) && !self.claims.is_claimed(
                    name.as_str(),
                ) {
                    self.grant(request, name, conn, true)
                } else {
                    (SessionState::Fallback(request), SessionAction::Draw)
                }
            },
            (SessionState::Claiming(request, name), SessionEvent::Persisted(result)) => {
                match result {
                    Err(message) => refuse(message.as_str(), message.as_str()),
                    Ok(_) => self.enroll(request, name, conn),
                }
            },
            (SessionState::Live(name), SessionEvent::Received(message)) => match message {
                ControlMessage::Ping => (
                    SessionState::Live(name),
                    SessionAction::Reply(ControlMessage::Pong),
                ),
                _ => (SessionState::Live(name), SessionAction::Listen),
            },
            (SessionState::Live(name), SessionEvent::Lost) => {
                self.registry.remove(name.as_str());
                (SessionState::Over, SessionAction::End)
            },
            (_, SessionEvent::Lost) => (SessionState::Over, SessionAction::End),
            (state, _) => (state, SessionAction::Listen),
        }
    }
}

/// What a step does to the live tunnels: an accepted session has its own
/// tunnel, over its own connection, under the name that the CLI is told; a live
/// one that is lost leaves no tunnel under its name; nothing else changes.
pub proof fn law_step_and_tunnels(hub: HubView, conn: u64, state: StateView, event: EventView)
    ensures
        ({
            let out = stepped(hub, conn, state, event);
            match out.action {
                ActionView::Accept { reply, replaced } => {
                    &&& out.state matches StateView::Live(name) && {
                        &&& out.hub.tunnels.contains_key(name)
                        &&& out.hub.tunnels[name].conn == conn
                        &&& out.hub.tunnels == hub.tunnels.insert(name, out.hub.tunnels[name])
                        &&& reply == (crate::protocol::MessageView::Registered {
                            subdomain: name,
                            public_url: crate::edge::url_of(hub.public_base, name, hub.domain),
                            ephemeral: state is Fallback,
                        })
                        &&& replaced == (if hub.tunnels.contains_key(name) {
                            Some(hub.tunnels[name].conn)
                        } else {
                            None
                        })
                    }
                },
                ActionView::End => match state {
                    StateView::Live(name) => out.hub.tunnels == hub.tunnels.remove(name),
                    _ => out.hub.tunnels == hub.tunnels,
                },
                _ => out.hub.tunnels == hub.tunnels,
            }
        }),
{
}

/// A live tunnel stays as it is, whatever happens in whatever session, until a
/// session that is live under its name is lost or the owner of the name replaces
/// it.
pub proof fn law_live_tunnel_stays(
    hub: HubView,
    name: Seq<char>,
    conn: u64,
    state: StateView,
    event: EventView,
)
    requires
        hub.tunnels.contains_key(name),
    ensures
        ({
            let out = stepped(hub, conn, state, event);
            ||| out.hub.tunnels.contains_key(name) && out.hub.tunnels[name] == hub.tunnels[name]
            ||| state == StateView::Live(name) && event == EventView::Lost
            ||| {
                &&& out.state == StateView::Live(name)
                &&& out.action matches ActionView::Accept { reply, replaced } && replaced == Some(
                    hub.tunnels[name].conn,
                )
                &&& hub.claims.persistent
                &&& request_of(state, event) matches Some(request) && owner_of(hub, name) == Some(
                    machine_of(request),
                )
            }
        }),
{
}

/// Claims stay one to one and are never taken back, whatever a session does.
pub proof fn law_step_keeps_claims(hub: HubView, conn: u64, state: StateView, event: EventView)
    requires
        hub.claims.wf(),
    ensures
        stepped(hub, conn, state, event).hub.claims.wf(),
        stepped(hub, conn, state, event).hub.claims.persistent == hub.claims.persistent,
        forall|name: Seq<char>| #[trigger]
            hub.claims.owners.contains_key(name) ==> stepped(
                hub,
                conn,
                state,
                event,
            ).hub.claims.owners.contains_key(name) && stepped(
                hub,
                conn,
                state,
                event,
            ).hub.claims.owners[name] == hub.claims.owners[name],
{
    match (state, event) {
        (
            StateView::Waiting,
            EventView::Received(
                crate::protocol::MessageView::Register { subdomain, routes, machine_id, udp_ports },
            ),
        ) => {
            let request = RequestView { name: subdomain, routes, machine_id, udp_ports };
            if let Some(name) = subdomain {
                crate::claims::law_claims_stay_one_to_one(
                    hub.claims,
                    crate::text::lower(name),
                    machine_of(request),
                );
            }
        },
        (StateView::Drawing(request), EventView::Drew(name)) => {
            crate::claims::law_claims_stay_one_to_one(hub.claims, name, machine_of(request));
        },
        _ => {},
    }
}

/// What holds between the steps of a session: names are valid, and where claims
/// count, a name whose claim is being kept belongs to the machine that asked.
pub open spec fn session_ok(hub: HubView, state: StateView) -> bool {
    match state {
        StateView::Claiming(request, name) => {
            &&& crate::edge::is_name(name)
            &&& hub.claims.persistent
            &&& owner_of(hub, name) == Some(machine_of(request))
            &&& machine_of(request).len() > 0
        },
        StateView::Live(name) => crate::edge::is_name(name),
        _ => true,
    }
}

/// The request that a step works on.
pub open spec fn request_of(state: StateView, event: EventView) -> Option<RequestView> {
    match (state, event) {
        (
            StateView::Waiting,
            EventView::Received(
                crate::protocol::MessageView::Register { subdomain, routes, machine_id, udp_ports },
            ),
        ) => Some(RequestView { name: subdomain, routes, machine_id, udp_ports }),
        (StateView::Drawing(request), EventView::Drew(name)) => Some(request),
        (StateView::Fallback(request), EventView::Drew(name)) => Some(request),
        (StateView::Claiming(request, name), EventView::Persisted(fault)) => Some(request),
        _ => None,
    }
}

/// Every tunnel goes live under a valid name. Where claims count, it is one that
/// the machine owns, or a random one that nobody owns.
pub proof fn law_only_the_owner_goes_live(
    hub: HubView,
    conn: u64,
    state: StateView,
    event: EventView,
)
    requires
        session_ok(hub, state),
        event matches EventView::Drew(name) ==> crate::edge::is_name(name),
    ensures
        session_ok(stepped(hub, conn, state, event).hub, stepped(hub, conn, state, event).state),
        hub.claims.persistent && stepped(hub, conn, state, event).action is Accept ==> {
            &&& stepped(hub, conn, state, event).state matches StateView::Live(name)
            &&& request_of(state, event) matches Some(request)
            &&& owner_of(stepped(hub, conn, state, event).hub, name) == (if state is Fallback {
                None
            } else {
                Some(machine_of(request))
            })
        },
{
    if let (
        StateView::Waiting,
        EventView::Received(
            crate::protocol::MessageView::Register { subdomain, routes, machine_id, udp_ports },
        ),
    ) = (state, event) {
        if let Some(name) = subdomain {
            crate::text::lemma_lower_idempotent(name);
        }
    }
}

/// What holds of a session between its steps also holds after a step of any
/// other session.
pub proof fn law_other_steps_keep_a_session(
    hub: HubView,
    kept: StateView,
    conn: u64,
    state: StateView,
    event: EventView,
)
    requires
        session_ok(hub, kept),
    ensures
        session_ok(stepped(hub, conn, state, event).hub, kept),
{
}

/// Where claims count, a CLI that does not say which machine it is gets nothing.
pub proof fn law_claims_need_a_machine_id(hub: HubView, conn: u64, request: RequestView)
    requires
        hub.claims.persistent,
        machine_of(request).len() == 0,
    ensures
        opened(hub, request, conn).action is Refuse,
        opened(hub, request, conn).hub == hub,
        request.routes.len() > 0 ==> opened(hub, request, conn) == refused(
            hub,
            "this Vyse edge requires a machine id"@,
            "this Vyse edge requires a machine id"@,
        ),
{
}

/// The edge cannot let the machine have the name: somebody else has a tunnel
/// there, or where claims count, somebody else owns it or the machine owns
/// another.
pub open spec fn cannot_have(hub: HubView, request: RequestView, name: Seq<char>) -> bool {
    let machine = machine_of(request);
    ||| !may_take(hub, request, name)
    ||| hub.claims.persistent && hub.claims.owners.contains_key(name) && hub.claims.owners[name]
        != machine
    ||| hub.claims.persistent && !hub.claims.owners.contains_key(name)
        && hub.claims.reserved.contains_key(machine) && hub.claims.reserved[machine] != name
}

/// A request for a valid name that cannot be had goes on to a random name that
/// nobody has: the CLI is told that name and that it is ephemeral, no claim
/// changes, and every other tunnel stays.
pub proof fn law_taken_name_gives_way_to_a_random_one(
    hub: HubView,
    conn: u64,
    request: RequestView,
    name: Seq<char>,
    later: HubView,
    drawn: Seq<char>,
)
    requires
        request.routes.len() > 0,
        hub.claims.persistent ==> machine_of(request).len() > 0,
        request.name == Some(name),
        crate::protocol::subdomain_fault(crate::text::lower(name)) is None,
        cannot_have(hub, request, crate::text::lower(name)),
        !later.tunnels.contains_key(drawn),
        !later.claims.owners.contains_key(drawn),
    ensures
        opened(hub, request, conn) == (Outcome {
            hub,
            state: StateView::Fallback(request),
            action: ActionView::Draw,
        }),
        stepped(later, conn, StateView::Fallback(request), EventView::Drew(drawn)) == (Outcome {
            hub: HubView {
                tunnels: later.tunnels.insert(drawn, tunnel_for(request, conn)),
                ..later
            },
            state: StateView::Live(drawn),
            action: ActionView::Accept {
                reply: crate::protocol::MessageView::Registered {
                    subdomain: drawn,
                    public_url: crate::edge::url_of(later.public_base, drawn, later.domain),
                    ephemeral: true,
                },
                replaced: None,
            },
        }),
{
}

/// A random name that somebody has is drawn anew, and nothing changes.
pub proof fn law_somebodys_name_is_drawn_anew(
    hub: HubView,
    conn: u64,
    request: RequestView,
    drawn: Seq<char>,
)
    requires
        hub.tunnels.contains_key(drawn) || hub.claims.owners.contains_key(drawn),
    ensures
        stepped(hub, conn, StateView::Fallback(request), EventView::Drew(drawn)) == (Outcome {
            hub,
            state: StateView::Fallback(request),
            action: ActionView::Draw,
        }),
{
}

/// A machine that owns a name gets it back from an older session of its own,
/// whose connection is closed.
pub proof fn law_owner_reconnects(hub: HubView, conn: u64, request: RequestView, name: Seq<char>)
    requires
        hub.claims.persistent,
        crate::edge::is_name(name),
        request.name == Some(name),
        request.routes.len() > 0,
        request.machine_id == owner_of(hub, name),
        request.machine_id matches Some(id) && id.len() > 0,
    ensures
        opened(hub, request, conn).state == StateView::Live(name),
        opened(hub, request, conn).hub.tunnels == hub.tunnels.insert(
            name,
            tunnel_for(request, conn),
        ),
        opened(hub, request, conn).action matches ActionView::Accept { reply, replaced }
            && replaced == (if hub.tunnels.contains_key(name) {
            Some(hub.tunnels[name].conn)
        } else {
            None::<u64>
        }),
{
}

/// A tunnel that goes live has the routes and the UDP ports that its CLI asked
/// for, all of them and in their order, and runs over the session's connection.
pub proof fn law_accepted_tunnel_is_as_asked(
    hub: HubView,
    conn: u64,
    state: StateView,
    event: EventView,
)
    requires
        stepped(hub, conn, state, event).action is Accept,
    ensures
        ({
            let out = stepped(hub, conn, state, event);
            let (routes, udp_ports) = match (state, event) {
                (
                    StateView::Waiting,
                    EventView::Received(
                        crate::protocol::MessageView::Register {
                            subdomain,
                            routes,
                            machine_id,
                            udp_ports,
                        },
                    ),
                ) => (routes, udp_ports),
                (StateView::Drawing(request), _) => (request.routes, request.udp_ports),
                (StateView::Fallback(request), _) => (request.routes, request.udp_ports),
                (StateView::Claiming(request, name), _) => (request.routes, request.udp_ports),
                _ => (Seq::empty(), Seq::empty()),
            };
            &&& out.state matches StateView::Live(name) && out.hub.tunnels.contains_key(name)
                && out.hub.tunnels[name] == (crate::registry::TunnelView {
                conn,
                routes,
                udp_ports,
            })
            &&& routes.len() > 0 || !(state is Waiting)
        }),
{
}

/// The request that a session works on is the one of its Register message, until
/// the session is live.
pub proof fn law_a_session_keeps_its_request(
    hub: HubView,
    conn: u64,
    subdomain: Option<Seq<char>>,
    routes: Seq<crate::protocol::RouteView>,
    machine_id: Option<Seq<char>>,
    udp_ports: Seq<u16>,
    event: EventView,
)
    ensures
        ({
            let request = RequestView { name: subdomain, routes, machine_id, udp_ports };
            let first = stepped(
                hub,
                conn,
                StateView::Waiting,
                EventView::Received(
                    crate::protocol::MessageView::Register {
                        subdomain,
                        routes,
                        machine_id,
                        udp_ports,
                    },
                ),
            ).state;
            &&& first matches StateView::Drawing(kept) ==> kept == request
            &&& first matches StateView::Fallback(kept) ==> kept == request
            &&& first matches StateView::Claiming(kept, name) ==> kept == request
            &&& forall|state: StateView|
                state == StateView::Drawing(request) || state == StateView::Fallback(request) || (
                state matches StateView::Claiming(kept, name) && kept == request) ==> match (
                #[trigger] stepped(hub, conn, state, event)).state {
                    StateView::Drawing(kept) => kept == request,
                    StateView::Fallback(kept) => kept == request,
                    StateView::Claiming(kept, name) => kept == request,
                    _ => true,
                }
        }),
{
}

/// A registration without a route, or without a machine id where claims count, or
/// with a name that is none, is refused with the reason, and nothing changes.
pub proof fn law_bad_registrations_are_refused(
    hub: HubView,
    conn: u64,
    subdomain: Option<Seq<char>>,
    routes: Seq<crate::protocol::RouteView>,
    machine_id: Option<Seq<char>>,
    udp_ports: Seq<u16>,
)
    ensures
        ({
            let message = crate::protocol::MessageView::Register {
                subdomain,
                routes,
                machine_id,
                udp_ports,
            };
            let out = stepped(hub, conn, StateView::Waiting, EventView::Received(message));
            let nameless = machine_id is None || machine_id == Some(Seq::<char>::empty());
            &&& routes.len() == 0 ==> out == (Outcome {
                hub,
                state: StateView::Over,
                action: ActionView::Refuse {
                    reply: crate::protocol::MessageView::Error {
                        message: "register must include at least one route"@,
                    },
                    error: "register with no routes"@,
                },
            })
            &&& routes.len() > 0 && hub.claims.persistent && nameless ==> out == (Outcome {
                hub,
                state: StateView::Over,
                action: ActionView::Refuse {
                    reply: crate::protocol::MessageView::Error {
                        message: "this Vyse edge requires a machine id"@,
                    },
                    error: "this Vyse edge requires a machine id"@,
                },
            })
            &&& routes.len() > 0 && !(hub.claims.persistent && nameless) && subdomain is Some
                && crate::protocol::subdomain_fault(crate::text::lower(subdomain->Some_0)) is Some
                ==> ({
                let fault = crate::protocol::subdomain_fault(
                    crate::text::lower(subdomain->Some_0),
                )->Some_0;
                out == (Outcome {
                    hub,
                    state: StateView::Over,
                    action: ActionView::Refuse {
                        reply: crate::protocol::MessageView::Error { message: fault },
                        error: fault,
                    },
                })
            })
            &&& routes.len() > 0 && !(hub.claims.persistent && nameless) && subdomain is None
                ==> out == (Outcome {
                hub,
                state: StateView::Drawing(
                    RequestView { name: subdomain, routes, machine_id, udp_ports },
                ),
                action: ActionView::Draw,
            })
        }),
{
    if let Some(id) = machine_id {
        if id.len() == 0 {
            assert(id =~= Seq::<char>::empty());
        }
    }
}

/// A registration for a valid name that is to be had: where claims do not count it
/// goes live at once; where they do, a new claim is kept first, and the owner of
/// the name goes live at once, in place of an older session. The CLI is told the
/// name in small letters and its URL.
pub proof fn law_good_registrations(
    hub: HubView,
    conn: u64,
    name: Seq<char>,
    routes: Seq<crate::protocol::RouteView>,
    machine: Seq<char>,
    udp_ports: Seq<u16>,
)
    requires
        routes.len() > 0,
        machine.len() > 0,
        crate::protocol::subdomain_fault(crate::text::lower(name)) is None,
    ensures
        ({
            let label = crate::text::lower(name);
            let message = crate::protocol::MessageView::Register {
                subdomain: Some(name),
                routes,
                machine_id: Some(machine),
                udp_ports,
            };
            let out = stepped(hub, conn, StateView::Waiting, EventView::Received(message));
            let tunnel = crate::registry::TunnelView { conn, routes, udp_ports };
            let live = Outcome {
                hub: HubView { tunnels: hub.tunnels.insert(label, tunnel), ..hub },
                state: StateView::Live(label),
                action: ActionView::Accept {
                    reply: crate::protocol::MessageView::Registered {
                        subdomain: label,
                        public_url: crate::edge::url_of(hub.public_base, label, hub.domain),
                        ephemeral: false,
                    },
                    replaced: if hub.tunnels.contains_key(label) {
                        Some(hub.tunnels[label].conn)
                    } else {
                        None
                    },
                },
            };
            &&& !hub.claims.persistent && !hub.tunnels.contains_key(label) ==> out == live
            &&& hub.claims.persistent && hub.claims.owners.contains_key(label)
                && hub.claims.owners[label] == machine ==> out == live
            &&& hub.claims.persistent && !hub.claims.owners.contains_key(label)
                && !hub.tunnels.contains_key(label) && !hub.claims.reserved.contains_key(machine)
                ==> out == (Outcome {
                hub: HubView {
                    claims: crate::claims::ClaimsView {
                        owners: hub.claims.owners.insert(label, machine),
                        reserved: hub.claims.reserved.insert(machine, label),
                        persistent: true,
                    },
                    ..hub
                },
                state: StateView::Claiming(
                    RequestView { name: Some(name), routes, machine_id: Some(machine), udp_ports },
                    label,
                ),
                action: ActionView::Persist { subdomain: label, machine_id: machine },
            })
        }),
{
}

/// A valid name that cannot be had gives way to a random one: it has a tunnel that
/// the machine does not own, or where claims count, another machine owns it, or
/// the machine owns another.
pub proof fn law_names_that_cannot_be_had(
    hub: HubView,
    conn: u64,
    name: Seq<char>,
    routes: Seq<crate::protocol::RouteView>,
    machine: Seq<char>,
    udp_ports: Seq<u16>,
)
    requires
        routes.len() > 0,
        machine.len() > 0,
        crate::protocol::subdomain_fault(crate::text::lower(name)) is None,
        ({
            let label = crate::text::lower(name);
            ||| hub.tunnels.contains_key(label) && !(hub.claims.persistent
                && hub.claims.owners.contains_key(label) && hub.claims.owners[label] == machine)
            ||| hub.claims.persistent && hub.claims.owners.contains_key(label)
                && hub.claims.owners[label] != machine
            ||| hub.claims.persistent && !hub.claims.owners.contains_key(label)
                && hub.claims.reserved.contains_key(machine) && hub.claims.reserved[machine]
                != label
        }),
    ensures
        stepped(
            hub,
            conn,
            StateView::Waiting,
            EventView::Received(
                crate::protocol::MessageView::Register {
                    subdomain: Some(name),
                    routes,
                    machine_id: Some(machine),
                    udp_ports,
                },
            ),
        ) == (Outcome {
            hub,
            state: StateView::Fallback(
                RequestView { name: Some(name), routes, machine_id: Some(machine), udp_ports },
            ),
            action: ActionView::Draw,
        }),
{
}

/// A first message that does not register is refused, and said back.
pub proof fn law_first_message_registers(
    hub: HubView,
    conn: u64,
    message: crate::protocol::MessageView,
)
    requires
        !(message is Register),
    ensures
        stepped(hub, conn, StateView::Waiting, EventView::Received(message)) == (Outcome {
            hub,
            state: StateView::Over,
            action: ActionView::Refuse {
                reply: crate::protocol::MessageView::Error {
                    message: "expected register, got "@ + crate::render::message_text(message),
                },
                error: "first control message was not register"@,
            },
        }),
{
}

/// A claim that was kept lets the session go live; one that could not be kept ends
/// it with the reason.
pub proof fn law_kept_claims_go_live(
    hub: HubView,
    conn: u64,
    request: RequestView,
    machine: Seq<char>,
    label: Seq<char>,
    fault: Seq<char>,
)
    requires
        request.machine_id == Some(machine),
        !hub.tunnels.contains_key(label) || hub.claims.persistent && hub.claims.owners.contains_key(
            label,
        ) && hub.claims.owners[label] == machine,
    ensures
        stepped(hub, conn, StateView::Claiming(request, label), EventView::Persisted(None)) == (
        Outcome {
            hub: HubView {
                tunnels: hub.tunnels.insert(
                    label,
                    crate::registry::TunnelView {
                        conn,
                        routes: request.routes,
                        udp_ports: request.udp_ports,
                    },
                ),
                ..hub
            },
            state: StateView::Live(label),
            action: ActionView::Accept {
                reply: crate::protocol::MessageView::Registered {
                    subdomain: label,
                    public_url: crate::edge::url_of(hub.public_base, label, hub.domain),
                    ephemeral: false,
                },
                replaced: if hub.tunnels.contains_key(label) {
                    Some(hub.tunnels[label].conn)
                } else {
                    None
                },
            },
        }),
        stepped(hub, conn, StateView::Claiming(request, label), EventView::Persisted(Some(fault)))
            == (Outcome {
            hub,
            state: StateView::Over,
            action: ActionView::Refuse {
                reply: crate::protocol::MessageView::Error { message: fault },
                error: fault,
            },
        }),
{
}

/// A drawn name that is taken, by a tunnel or where claims count by another owner,
/// is drawn anew; where claims do not count a free one goes live.
pub proof fn law_drawn_names(
    hub: HubView,
    conn: u64,
    request: RequestView,
    machine: Seq<char>,
    drawn: Seq<char>,
)
    requires
        request.machine_id == Some(machine),
    ensures
        hub.tunnels.contains_key(drawn) || hub.claims.persistent && hub.claims.owners.contains_key(
            drawn,
        ) && hub.claims.owners[drawn] != machine ==> stepped(
            hub,
            conn,
            StateView::Drawing(request),
            EventView::Drew(drawn),
        ) == (Outcome { hub, state: StateView::Drawing(request), action: ActionView::Draw }),
        !hub.claims.persistent && !hub.tunnels.contains_key(drawn) ==> stepped(
            hub,
            conn,
            StateView::Drawing(request),
            EventView::Drew(drawn),
        ) == (Outcome {
            hub: HubView {
                tunnels: hub.tunnels.insert(
                    drawn,
                    crate::registry::TunnelView {
                        conn,
                        routes: request.routes,
                        udp_ports: request.udp_ports,
                    },
                ),
                ..hub
            },
            state: StateView::Live(drawn),
            action: ActionView::Accept {
                reply: crate::protocol::MessageView::Registered {
                    subdomain: drawn,
                    public_url: crate::edge::url_of(hub.public_base, drawn, hub.domain),
                    ephemeral: false,
                },
                replaced: None,
            },
        }),
        hub.claims.persistent && machine.len() > 0 && !hub.tunnels.contains_key(drawn)
            && !hub.claims.owners.contains_key(drawn) && !hub.claims.reserved.contains_key(machine)
            ==> stepped(hub, conn, StateView::Drawing(request), EventView::Drew(drawn)) == (Outcome {
            hub: HubView {
                claims: crate::claims::ClaimsView {
                    owners: hub.claims.owners.insert(drawn, machine),
                    reserved: hub.claims.reserved.insert(machine, drawn),
                    persistent: true,
                },
                ..hub
            },
            state: StateView::Claiming(request, drawn),
            action: ActionView::Persist { subdomain: drawn, machine_id: machine },
        }),
{
}

/// A live session answers a ping with a pong and ignores every other message; when
/// it is lost, there is no tunnel under its name, and all others stay. A session
/// that is lost before it is live just ends.
pub proof fn law_live_sessions(
    hub: HubView,
    conn: u64,
    name: Seq<char>,
    message: crate::protocol::MessageView,
    state: StateView,
)
    ensures
        stepped(hub, conn, StateView::Live(name), EventView::Received(message)) == (Outcome {
            hub,
            state: StateView::Live(name),
            action: if message == crate::protocol::MessageView::Ping {
                ActionView::Reply(crate::protocol::MessageView::Pong)
            } else {
                ActionView::Listen
            },
        }),
        stepped(hub, conn, StateView::Live(name), EventView::Lost) == (Outcome {
            hub: HubView { tunnels: hub.tunnels.remove(name), ..hub },
            state: StateView::Over,
            action: ActionView::End,
        }),
        !(state is Live) ==> stepped(hub, conn, state, EventView::Lost) == (Outcome {
            hub,
            state: StateView::Over,
            action: ActionView::End,
        }),
{
}

/// A session whose name could not be had draws until a name has neither a tunnel
/// nor an owner, and goes live under that; the CLI is told that it is a random one.
/// No claim changes.
pub proof fn law_random_names(hub: HubView, conn: u64, request: RequestView, drawn: Seq<char>)
    ensures
        hub.tunnels.contains_key(drawn) || hub.claims.owners.contains_key(drawn) ==> stepped(
            hub,
            conn,
            StateView::Fallback(request),
            EventView::Drew(drawn),
        ) == (Outcome { hub, state: StateView::Fallback(request), action: ActionView::Draw }),
        !hub.tunnels.contains_key(drawn) && !hub.claims.owners.contains_key(drawn) ==> stepped(
            hub,
            conn,
            StateView::Fallback(request),
            EventView::Drew(drawn),
        ) == (Outcome {
            hub: HubView {
                tunnels: hub.tunnels.insert(
                    drawn,
                    crate::registry::TunnelView {
                        conn,
                        routes: request.routes,
                        udp_ports: request.udp_ports,
                    },
                ),
                ..hub
            },
            state: StateView::Live(drawn),
            action: ActionView::Accept {
                reply: crate::protocol::MessageView::Registered {
                    subdomain: drawn,
                    public_url: crate::edge::url_of(hub.public_base, drawn, hub.domain),
                    ephemeral: true,
                },
                replaced: None,
            },
        }),
{
}

/// Where claims do not count, a machine id makes no difference: a valid name
/// without a tunnel is had at once, and one with a tunnel gives way to a random one.
pub proof fn law_names_without_claims(
    hub: HubView,
    conn: u64,
    name: Seq<char>,
    routes: Seq<crate::protocol::RouteView>,
    machine_id: Option<Seq<char>>,
    udp_ports: Seq<u16>,
)
    requires
        !hub.claims.persistent,
        routes.len() > 0,
        crate::protocol::subdomain_fault(crate::text::lower(name)) is None,
    ensures
        ({
            let label = crate::text::lower(name);
            let request = RequestView { name: Some(name), routes, machine_id, udp_ports };
            let first = stepped(
                hub,
                conn,
                StateView::Waiting,
                EventView::Received(
                    crate::protocol::MessageView::Register {
                        subdomain: Some(name),
                        routes,
                        machine_id,
                        udp_ports,
                    },
                ),
            );
            let drawn = stepped(hub, conn, StateView::Drawing(request), EventView::Drew(label));
            let live = Outcome {
                hub: HubView {
                    tunnels: hub.tunnels.insert(
                        label,
                        crate::registry::TunnelView { conn, routes, udp_ports },
                    ),
                    ..hub
                },
                state: StateView::Live(label),
                action: ActionView::Accept {
                    reply: crate::protocol::MessageView::Registered {
                        subdomain: label,
                        public_url: crate::edge::url_of(hub.public_base, label, hub.domain),
                        ephemeral: false,
                    },
                    replaced: None,
                },
            };
            &&& !hub.tunnels.contains_key(label) ==> first == live && drawn == live
            &&& hub.tunnels.contains_key(label) ==> first == (Outcome {
                hub,
                state: StateView::Fallback(request),
                action: ActionView::Draw,
            })
        }),
{
}

/// Where claims count, a machine that owns a drawn name goes live under it, and one
/// that owns another falls back on a random name; a name that was lost while its
/// claim was kept does so too.
pub proof fn law_drawn_names_and_claims(
    hub: HubView,
    conn: u64,
    request: RequestView,
    machine: Seq<char>,
    drawn: Seq<char>,
)
    requires
        hub.claims.persistent,
        machine.len() > 0,
        request.machine_id == Some(machine),
    ensures
        ({
            let out = stepped(hub, conn, StateView::Drawing(request), EventView::Drew(drawn));
            let fallback = Outcome {
                hub,
                state: StateView::Fallback(request),
                action: ActionView::Draw,
            };
            &&& !hub.tunnels.contains_key(drawn) && hub.claims.owners.contains_key(drawn)
                && hub.claims.owners[drawn] == machine ==> {
                &&& out.state == StateView::Live(drawn)
                &&& out.hub.claims == hub.claims
                &&& out.action is Accept
            }
            &&& !hub.tunnels.contains_key(drawn) && !hub.claims.owners.contains_key(drawn)
                && hub.claims.reserved.contains_key(machine) && hub.claims.reserved[machine]
                != drawn ==> out == fallback
            &&& hub.tunnels.contains_key(drawn) && !(hub.claims.owners.contains_key(drawn)
                && hub.claims.owners[drawn] == machine) ==> stepped(
                hub,
                conn,
                StateView::Claiming(request, drawn),
                EventView::Persisted(None),
            ) == fallback
        }),
{
}

/// A step that accepts a session leaves a tunnel under its name that has every route
/// and every UDP port of its Register message, in their order.
pub proof fn law_a_step_sets_up_what_was_asked(
    conn: u64,
    name: Option<String>,
    routes: Vec<crate::protocol::Route>,
    machine_id: Option<String>,
    udp_ports: Vec<u16>,
    state: SessionState,
    event: SessionEvent,
    res: (SessionState, SessionAction),
)
    requires
        ({
            let request = RegisterRequest { name, routes, machine_id, udp_ports };
            ||| state is Waiting && event == SessionEvent::Received(
                ControlMessage::Register { subdomain: name, routes, machine_id, udp_ports },
            )
            ||| state == SessionState::Drawing(request)
            ||| state == SessionState::Fallback(request)
            ||| (state matches SessionState::Claiming(kept, label) && kept == request)
        }),
    ensures
        forall|hub: &mut Hub|
            #[trigger] call_ensures(Hub::step, (hub, conn, state, event), res)
                && res.1 is Accept ==> {
                let tunnels = mut_ref_future(hub)@.tunnels;
                res.0 matches SessionState::Live(label) && tunnels.contains_key(label@) && {
                    let tunnel = tunnels[label@];
                    &&& tunnel.conn == conn
                    &&& tunnel.udp_ports == udp_ports@
                    &&& tunnel.routes.len() == routes@.len()
                    &&& forall|i: int|
                        0 <= i < routes@.len() ==> (#[trigger] tunnel.routes[i]).path_prefix
                            == routes@[i].path_prefix@ && tunnel.routes[i].port == routes@[i].port
                }
            },
{
    assert forall|hub: &mut Hub|
        #[trigger] call_ensures(Hub::step, (hub, conn, state, event), res)
            && res.1 is Accept implies {
        let tunnels = mut_ref_future(hub)@.tunnels;
        res.0 matches SessionState::Live(label) && tunnels.contains_key(label@) && {
            let tunnel = tunnels[label@];
            &&& tunnel.conn == conn
            &&& tunnel.udp_ports == udp_ports@
            &&& tunnel.routes.len() == routes@.len()
            &&& forall|i: int|
                0 <= i < routes@.len() ==> (#[trigger] tunnel.routes[i]).path_prefix
                    == routes@[i].path_prefix@ && tunnel.routes[i].port == routes@[i].port
        }
    } by {
        law_accepted_tunnel_is_as_asked(mut_ref_current(hub)@, conn, state@, event@);
    }
}

/// A new edge has no tunnels, and the claims, the domain and the base it was given.
pub proof fn law_new_edges(
    claims: ClaimStore,
    domain: String,
    public_base: String,
    hub: Hub,
    name: Seq<char>,
)
    requires
        call_ensures(Hub::new, (claims, domain, public_base), hub),
    ensures
        !hub@.tunnels.contains_key(name),
        hub@.claims == claims@,
        hub@.domain == domain@,
        hub@.public_base == public_base@,
{
}

} // verus!
