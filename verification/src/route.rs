//! The relay's decisions: which client serves an outside user's request, what a
//! user is told when no client serves its host, and how binds and disconnects
//! change the relay's tables.
use vstd::prelude::*;
use vstd::utf8::encode_utf8;
use crate::frame::{frame_model, FrameModel};
use crate::http::{all_digits, append, digits_value, parse_usize, unsigned_digits};
use crate::packet::{Pack, UnPack};
use crate::proto::{
    data_model_bytes, data_model_fits, data_model_of, law_bind_round_trip, law_data_round_trip, Bind,
    Data, DataModel, PackType, Packet,
};
use crate::table::{without_value, AddrSet, HostTable};
use crate::wire::{bind_fields, str_bytes};

verus! {

/// The page shown to a user whose host no client serves.
pub const NOT_BOUND_PAGE: &'static str = "<!DOCTYPE html>\n                                        <html lang=\"en\">\n                                        <head>\n                                            <meta charset=\"UTF-8\">\n                                            <meta http-equiv=\"X-UA-Compatible\" content=\"IE=edge\">\n                                            <meta name=\"viewport\" content=\"width=device-width, initial-scale=1.0\">\n                                            <title>\u{63d0}\u{793a}</title>\n                                        </head>\n                                        <body>\n                                            <h1>\u{5ba2}\u{6237}\u{7aef}\u{672a}\u{542f}\u{52a8}</h1>\n                                        </body>\n                                        </html>";

/// The status line and the name of the length header of the refusal.
pub const REPLY_HEAD: &'static str = "HTTP/1.1 200 OK\r\nContent-Length: ";

/// The end of the refusal's head.
pub const REPLY_HEAD_END: &'static str = "\r\n\r\n";

/// A number in decimal, as `{}` formats it.
pub open spec fn decimal(n: nat) -> Seq<u8>
    decreases n,
{
    if n < 10 {
        seq![(48 + n) as u8]
    } else {
        decimal(n / 10).push((48 + n % 10) as u8)
    }
}

/// Appends `n` in decimal.
fn push_decimal(out: &mut Vec<u8>, n: usize)
    ensures
        final(out)@ == old(out)@ + decimal(n as nat),
    decreases n,
{
    if n >= 10 {
        push_decimal(out, n / 10);
    }
    let digit = (n % 10) as u8;
    out.push(48 + digit);
    assert(final(out)@ =~= old(out)@ + decimal(n as nat));
}

proof fn lemma_decimal_digits(n: nat)
    ensures
        decimal(n).len() > 0,
        all_digits(decimal(n)),
        digits_value(decimal(n)) == n,
        decimal(n)[0] != 43u8,
    decreases n,
{
    let d = decimal(n);
    if n >= 10 {
        lemma_decimal_digits(n / 10);
        assert(d.drop_last() =~= decimal(n / 10));
        assert(forall|i: int| 0 <= i < d.len() - 1 ==> d[i] == decimal(n / 10)[i]);
        assert(d.last() == (48 + n % 10) as u8);
        assert((d.last() - 48) as nat == n % 10);
        assert(digits_value(decimal(n / 10)) * 10 + n % 10 == n) by (nonlinear_arith)
            requires
                digits_value(decimal(n / 10)) == n / 10,
        ;
        assert(digits_value(d) == digits_value(d.drop_last()) * 10 + (d.last() - 48) as nat);
    } else {
        assert(d.drop_last() =~= Seq::<u8>::empty());
        assert((d.last() - 48) as nat == n);
        assert(digits_value(d) == digits_value(d.drop_last()) * 10 + (d.last() - 48) as nat);
    }
}

/// A number written in decimal reads back as itself: the length that the
/// refusal announces is the length of its page.
pub proof fn law_decimal_parses(n: nat)
    requires
        n <= usize::MAX,
    ensures
        parse_usize(decimal(n)) == Some(n),
{
    lemma_decimal_digits(n);
    assert(unsigned_digits(decimal(n)) == decimal(n));
}

/// The page's bytes.
pub open spec fn not_bound_page() -> Seq<u8> {
    encode_utf8(NOT_BOUND_PAGE@)
}

/// The whole refusal: the status line, the page's length, the blank line and the page.
pub open spec fn not_bound_response() -> Seq<u8> {
    encode_utf8(REPLY_HEAD@) + decimal(not_bound_page().len()) + encode_utf8(REPLY_HEAD_END@)
        + not_bound_page()
}

/// The data frame that carries the refusal back to the user at `agent`.
pub open spec fn refusal_frame(agent: Seq<char>) -> FrameModel {
    frame_model(
        PackType::Data,
        data_model_bytes(DataModel { agent_ip_port: agent, host: None, data: not_bound_response() }),
    )
}

/// The refusal's bytes.
fn not_bound_bytes() -> (v: Vec<u8>)
    ensures
        v@ == not_bound_response(),
{
    let mut v: Vec<u8> = Vec::new();
    append(&mut v, REPLY_HEAD.as_bytes());
    let page = NOT_BOUND_PAGE.as_bytes();
    push_decimal(&mut v, page.len());
    append(&mut v, REPLY_HEAD_END.as_bytes());
    append(&mut v, page);
    assert(v@ =~= not_bound_response());
    v
}

/// The frame that tells the user at `agent` that no client serves its host.
pub fn refusal(agent: &String) -> (p: Packet)
    ensures
        p@ == refusal_frame(agent@),
{
    let data = Data { agent_ip_port: agent.clone(), host: None, data: not_bound_bytes() };
    let bytes = data.pack();
    Packet::with_body(PackType::Data, bytes.unwrap())
}

/// What the relay does with a frame from an outside user's connection.
#[derive(Debug)]
pub enum AgentAction {
    /// Hand the frame on to the client at this address.
    ToClient(String),
    /// The client bound to the host is gone.
    ClientGone(String),
    /// No client serves the host: send this refusal to the user named in the
    /// frame; the user's connection is dropped and its reading ends.
    Refuse(String, Packet),
    /// No client serves the host, and the user named in the frame is gone.
    AgentGone(String),
    /// The user's connection ended; its reading ends.
    Closed,
    /// A kind that users do not send.
    Unexpected(PackType),
    /// The body is not the message its kind calls for.
    Malformed,
}

/// What the relay does with a frame from a client's connection.
#[derive(Debug)]
pub enum ClientAction {
    /// Hand the frame on to the user at this address.
    ToAgent(String),
    /// The user the frame is for is gone; the frame is dropped.
    NoAgent(String),
    /// The host is now served by the sender.
    Bound,
    /// The client's connection ended; its reading ends.
    Closed,
    /// A kind that clients do not send.
    Unexpected(PackType),
    /// The body is not the message its kind calls for.
    Malformed,
}

/// What an `AgentAction` says.
pub enum AgentActionModel {
    ToClient(Seq<char>),
    ClientGone(Seq<char>),
    Refuse(Seq<char>, FrameModel),
    AgentGone(Seq<char>),
    Closed,
    Unexpected(PackType),
    Malformed,
}

/// What a `ClientAction` says.
pub enum ClientActionModel {
    ToAgent(Seq<char>),
    NoAgent(Seq<char>),
    Bound,
    Closed,
    Unexpected(PackType),
    Malformed,
}

impl View for AgentAction {
    type V = AgentActionModel;

    open spec fn view(&self) -> AgentActionModel {
        match self {
            AgentAction::ToClient(c) => AgentActionModel::ToClient(c@),
            AgentAction::ClientGone(c) => AgentActionModel::ClientGone(c@),
            AgentAction::Refuse(a, p) => AgentActionModel::Refuse(a@, p@),
            AgentAction::AgentGone(a) => AgentActionModel::AgentGone(a@),
            AgentAction::Closed => AgentActionModel::Closed,
            AgentAction::Unexpected(k) => AgentActionModel::Unexpected(*k),
            AgentAction::Malformed => AgentActionModel::Malformed,
        }
    }
}

impl View for ClientAction {
    type V = ClientActionModel;

    open spec fn view(&self) -> ClientActionModel {
        match self {
            ClientAction::ToAgent(a) => ClientActionModel::ToAgent(a@),
            ClientAction::NoAgent(a) => ClientActionModel::NoAgent(a@),
            ClientAction::Bound => ClientActionModel::Bound,
            ClientAction::Closed => ClientActionModel::Closed,
            ClientAction::Unexpected(k) => ClientActionModel::Unexpected(*k),
            ClientAction::Malformed => ClientActionModel::Malformed,
        }
    }
}

/// The relay's tables: the users connected, the clients connected, and which
/// client serves each host.
pub type RelayModel = (Set<Seq<char>>, Set<Seq<char>>, Map<Seq<char>, Seq<char>>);

/// The host a data message asks for; none counts as the empty name.
pub open spec fn requested_host(d: DataModel) -> Seq<char> {
    match d.host {
        Some(h) => h,
        None => Seq::empty(),
    }
}

/// The relay after a frame `p` from the user at `addr`, and what it does: data
/// goes to the client bound to the requested host, or, when none is, the user
/// named in the message is refused and the sender dropped; a disconnect drops
/// the sender. Users do not bind hosts: a bind from a user is unexpected.
pub open spec fn agent_step(r: RelayModel, addr: Seq<char>, p: FrameModel) -> (
    RelayModel,
    AgentActionModel,
) {
    let (agents, clients, hosts) = r;
    let kind = p.0.pack_type;
    if kind == PackType::Data {
        match data_model_of(p.1) {
            None => (r, AgentActionModel::Malformed),
            Some(d) => {
                let host = requested_host(d);
                if hosts.contains_key(host) {
                    if clients.contains(hosts[host]) {
                        (r, AgentActionModel::ToClient(hosts[host]))
                    } else {
                        (r, AgentActionModel::ClientGone(hosts[host]))
                    }
                } else if agents.contains(d.agent_ip_port) {
                    (
                        (agents.remove(addr), clients, hosts),
                        AgentActionModel::Refuse(d.agent_ip_port, refusal_frame(addr)),
                    )
                } else {
                    (r, AgentActionModel::AgentGone(d.agent_ip_port))
                }
            },
        }
    } else if kind == PackType::DisConnect {
        ((agents.remove(addr), clients, hosts), AgentActionModel::Closed)
    } else {
        (r, AgentActionModel::Unexpected(kind))
    }
}

/// The relay after a frame `p` from the client at `addr`, and what it does:
/// data goes to the user it names, if that user is connected; a bind makes the
/// sender serve the named host; a disconnect drops the sender and every host
/// it served.
pub open spec fn client_step(r: RelayModel, addr: Seq<char>, p: FrameModel) -> (
    RelayModel,
    ClientActionModel,
) {
    let (agents, clients, hosts) = r;
    let kind = p.0.pack_type;
    if kind == PackType::Data {
        match data_model_of(p.1) {
            None => (r, ClientActionModel::Malformed),
            Some(d) => if agents.contains(d.agent_ip_port) {
                (r, ClientActionModel::ToAgent(d.agent_ip_port))
            } else {
                (r, ClientActionModel::NoAgent(d.agent_ip_port))
            },
        }
    } else if kind == PackType::Bind {
        match bind_fields(p.1) {
            None => (r, ClientActionModel::Malformed),
            Some(host) => ((agents, clients, hosts.insert(host, addr)), ClientActionModel::Bound),
        }
    } else if kind == PackType::DisConnect {
        ((agents, clients.remove(addr), without_value(hosts, addr)), ClientActionModel::Closed)
    } else {
        (r, ClientActionModel::Unexpected(kind))
    }
}

/// The relay's tables.
pub struct Relay {
    agents: AddrSet,
    clients: AddrSet,
    hosts: HostTable,
}

impl View for Relay {
    type V = RelayModel;

    closed spec fn view(&self) -> RelayModel {
        (self.agents@, self.clients@, self.hosts@)
    }
}

impl Relay {
    /// A relay with no connection and no host served.
    pub fn new() -> (r: Relay)
        ensures
            r@ == (Set::<Seq<char>>::empty(), Set::<Seq<char>>::empty(), Map::<
                Seq<char>,
                Seq<char>,
            >::empty()),
    {
        Relay { agents: AddrSet::new(), clients: AddrSet::new(), hosts: HostTable::new() }
    }

    /// A user connected from `addr`.
    pub fn add_agent(&mut self, addr: String)
        ensures
            final(self)@ == (old(self)@.0.insert(addr@), old(self)@.1, old(self)@.2),
    {
        self.agents.insert(addr);
    }

    /// A client connected from `addr`.
    pub fn add_client(&mut self, addr: String)
        ensures
            final(self)@ == (old(self)@.0, old(self)@.1.insert(addr@), old(self)@.2),
    {
        self.clients.insert(addr);
    }

    /// Decides what to do with a frame from the user at `addr`.
    pub fn on_agent_packet(&mut self, addr: &String, packet: &Packet) -> (act: AgentAction)
        ensures
            (final(self)@, act@) == agent_step(old(self)@, addr@, packet@),
    {
        match packet.header.pack_type {
            PackType::Data => match Data::unpack(packet.data.as_slice()) {
                Err(_) => AgentAction::Malformed,
                Ok(d) => {
                    let host = match d.host {
                        Some(h) => h,
                        None => String::new(),
                    };
                    match self.hosts.get(&host) {
                        Some(c) => if self.clients.contains(&c) {
                            AgentAction::ToClient(c)
                        } else {
                            AgentAction::ClientGone(c)
                        },
                        None => if self.agents.contains(&d.agent_ip_port) {
                            let reply = refusal(addr);
                            self.agents.remove(addr);
                            AgentAction::Refuse(d.agent_ip_port, reply)
                        } else {
                            AgentAction::AgentGone(d.agent_ip_port)
                        },
                    }
                },
            },
            PackType::DisConnect => {
                self.agents.remove(addr);
                AgentAction::Closed
            },
            kind => AgentAction::Unexpected(kind),
        }
    }

    /// Decides what to do with a frame from the client at `addr`.
    pub fn on_client_packet(&mut self, addr: &String, packet: &Packet) -> (act: ClientAction)
        ensures
            (final(self)@, act@) == client_step(old(self)@, addr@, packet@),
    {
        match packet.header.pack_type {
            PackType::Data => match Data::unpack(packet.data.as_slice()) {
                Err(_) => ClientAction::Malformed,
                Ok(d) => if self.agents.contains(&d.agent_ip_port) {
                    ClientAction::ToAgent(d.agent_ip_port)
                } else {
                    ClientAction::NoAgent(d.agent_ip_port)
                },
            },
            PackType::Bind => match Bind::unpack(packet.data.as_slice()) {
                Err(_) => ClientAction::Malformed,
                Ok(b) => {
                    self.hosts.insert(b.host, addr.clone());
                    ClientAction::Bound
                },
            },
            PackType::DisConnect => {
                self.clients.remove(addr);
                self.hosts.remove_value(addr);
                ClientAction::Closed
            },
            kind => ClientAction::Unexpected(kind),
        }
    }
}

/// Once a client has bound a host, a user's request for that host goes to that
/// client, as long as it is connected.
pub proof fn law_bind_routes(r: RelayModel, client: Seq<char>, user: Seq<char>, d: DataModel)
    requires
        encode_utf8(requested_host(d)).len() <= usize::MAX,
        data_model_fits(d),
        r.1.contains(client),
    ensures
        ({
            let bound = client_step(
                r,
                client,
                frame_model(PackType::Bind, str_bytes(requested_host(d))),
            );
            &&& bound.1 == ClientActionModel::Bound
            &&& agent_step(bound.0, user, frame_model(PackType::Data, data_model_bytes(d))).1
                == AgentActionModel::ToClient(client)
        }),
{
    law_bind_round_trip(requested_host(d));
    law_data_round_trip(d);
}

/// The latest bind of a host wins: after two clients bind the same host, its
/// requests go to the second.
pub proof fn law_latest_bind_wins(
    r: RelayModel,
    first: Seq<char>,
    second: Seq<char>,
    user: Seq<char>,
    d: DataModel,
)
    requires
        encode_utf8(requested_host(d)).len() <= usize::MAX,
        data_model_fits(d),
        r.1.contains(second),
    ensures
        ({
            let bind = frame_model(PackType::Bind, str_bytes(requested_host(d)));
            let r1 = client_step(r, first, bind).0;
            let r2 = client_step(r1, second, bind).0;
            agent_step(r2, user, frame_model(PackType::Data, data_model_bytes(d))).1
                == AgentActionModel::ToClient(second)
        }),
{
    law_bind_round_trip(requested_host(d));
    law_data_round_trip(d);
}

/// A request for a host that no client serves is answered with the refusal
/// page, sent to the user that the request names, and the sending connection
/// is dropped.
pub proof fn law_unbound_refused(r: RelayModel, user: Seq<char>, d: DataModel)
    requires
        data_model_fits(d),
        !r.2.contains_key(requested_host(d)),
        r.0.contains(d.agent_ip_port),
    ensures
        agent_step(r, user, frame_model(PackType::Data, data_model_bytes(d))) == (
            (r.0.remove(user), r.1, r.2),
            AgentActionModel::Refuse(d.agent_ip_port, refusal_frame(user)),
        ),
{
    law_data_round_trip(d);
}

/// A disconnect drops its sender; a client's disconnect also drops every host
/// it served, and nothing else changes.
pub proof fn law_disconnect_drops(r: RelayModel, addr: Seq<char>)
    ensures
        agent_step(r, addr, frame_model(PackType::DisConnect, Seq::empty())) == (
            (r.0.remove(addr), r.1, r.2),
            AgentActionModel::Closed,
        ),
        client_step(r, addr, frame_model(PackType::DisConnect, Seq::empty())) == (
            (r.0, r.1.remove(addr), without_value(r.2, addr)),
            ClientActionModel::Closed,
        ),
        !agent_step(r, addr, frame_model(PackType::DisConnect, Seq::empty())).0.0.contains(addr),
        !client_step(r, addr, frame_model(PackType::DisConnect, Seq::empty())).0.1.contains(addr),
{
}

/// Traffic from a client reaches the user it names when that user is connected.
pub proof fn law_answer_reaches_user(r: RelayModel, client: Seq<char>, d: DataModel)
    requires
        data_model_fits(d),
        r.0.contains(d.agent_ip_port),
    ensures
        client_step(r, client, frame_model(PackType::Data, data_model_bytes(d))) == (
            r,
            ClientActionModel::ToAgent(d.agent_ip_port),
        ),
{
    law_data_round_trip(d);
}

/// Every host in the relay's table is served by a connected client.
pub open spec fn hosts_name_clients(r: RelayModel) -> bool {
    forall|h: Seq<char>| #[trigger] r.2.contains_key(h) ==> r.1.contains(r.2[h])
}

/// The host table only ever names connected clients: connections, every frame
/// from a user, and every frame from a connected client keep that so; and so a
/// user's request never finds its host's client gone.
pub proof fn law_hosts_name_clients(r: RelayModel, addr: Seq<char>, p: FrameModel)
    requires
        hosts_name_clients(r),
    ensures
        hosts_name_clients((r.0.insert(addr), r.1, r.2)),
        hosts_name_clients((r.0, r.1.insert(addr), r.2)),
        hosts_name_clients(agent_step(r, addr, p).0),
        r.1.contains(addr) ==> hosts_name_clients(client_step(r, addr, p).0),
        !(agent_step(r, addr, p).1 is ClientGone),
{
    let (agents, clients, hosts) = r;
    let kind = p.0.pack_type;
    if kind == PackType::Bind && r.1.contains(addr) {
        if let Some(host) = bind_fields(p.1) {
            let h2 = hosts.insert(host, addr);
            assert forall|h: Seq<char>| #[trigger] h2.contains_key(h) implies clients.contains(h2[h]) by {
                if h != host {
                    assert(hosts.contains_key(h));
                }
            }
        }
    }
    if kind == PackType::DisConnect {
        let h2 = without_value(hosts, addr);
        assert forall|h: Seq<char>| #[trigger] h2.contains_key(h) implies clients.remove(addr).contains(h2[h]) by {
            assert(hosts.contains_key(h));
        }
    }
}

/// A bind of host `host` by the client at `addr` changes only that host's
/// entry: `host` is now served by `addr`, every other host keeps the client it
/// had (or stays unserved), and the connected users and clients stay as they
/// were; the bind is acknowledged.
pub proof fn law_bind_changes_only_its_host(
    r: RelayModel,
    addr: Seq<char>,
    p: FrameModel,
    host: Seq<char>,
)
    requires
        p.0.pack_type == PackType::Bind,
        bind_fields(p.1) == Some(host),
    ensures
        client_step(r, addr, p) == ((r.0, r.1, r.2.insert(host, addr)), ClientActionModel::Bound),
        client_step(r, addr, p).0.2.contains_key(host),
        client_step(r, addr, p).0.2[host] == addr,
        forall|g: Seq<char>|
            g != host ==> (#[trigger] client_step(r, addr, p).0.2.contains_key(g)
                <==> r.2.contains_key(g)),
        forall|g: Seq<char>|
            g != host && r.2.contains_key(g) ==> #[trigger] client_step(r, addr, p).0.2[g] == r.2[g],
{
}

} // verus!
