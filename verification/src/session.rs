//! The decisions at the ends of the tunnel: the local client announcing its
//! host, opening one connection to the local service per outside user, wrapping
//! what the service answers, and writing out what a frame delivers.
use vstd::prelude::*;
use crate::frame::{
    frame_bytes, frame_model, law_frame_round_trip, read_frame_bytes, FrameModel, StepModel,
};
use crate::packet::{Pack, UnPack};
use crate::proto::{
    data_model_bytes, data_model_fits, data_model_of, law_bind_round_trip, law_data_round_trip, Bind,
    Data, DataModel,
    PackType, Packet,
};
use crate::http::{append, host_text, request_frame};
use crate::table::AddrSet;
use crate::wire::{bind_fields, str_bytes};
use vstd::utf8::encode_utf8;

verus! {

/// The bytes a client first sends the relay: a bind frame naming `host`.
pub fn bind_request(host: &String) -> (v: Vec<u8>)
    ensures
        v@ == frame_bytes(PackType::Bind, str_bytes(host@)),
{
    let bind = Bind { host: host.clone() };
    let body = bind.pack();
    let packet = Packet::with_body(PackType::Bind, body.unwrap());
    proof {
        crate::packet::law_packet_bytes(packet, PackType::Bind, str_bytes(host@));
    }
    let bytes = packet.pack();
    bytes.unwrap()
}

/// The data frame that carries what the local service answered the user at
/// `agent`.
pub open spec fn answer_frame(agent: Seq<char>, bytes: Seq<u8>) -> FrameModel {
    frame_model(
        PackType::Data,
        data_model_bytes(DataModel { agent_ip_port: agent, host: None, data: bytes }),
    )
}

/// Wraps bytes that the local service answered the user at `agent`.
pub fn answer_packet(agent: &String, bytes: &[u8]) -> (p: Packet)
    ensures
        p@ == answer_frame(agent@, bytes@),
{
    let mut payload: Vec<u8> = Vec::new();
    append(&mut payload, bytes);
    assert(payload@ =~= bytes@);
    let data = Data { agent_ip_port: agent.clone(), host: None, data: payload };
    let body = data.pack();
    Packet::with_body(PackType::Data, body.unwrap())
}

/// What the end of a tunnel does with a frame for its socket.
#[derive(Debug)]
pub enum Delivery {
    /// Write these bytes to the socket.
    Write(Vec<u8>),
    /// The peer disconnected; stop writing.
    Stop,
    /// Nothing to write.
    Skip,
    /// The body is not a data message.
    Malformed,
}

/// What a `Delivery` says.
pub enum DeliveryModel {
    Write(Seq<u8>),
    Stop,
    Skip,
    Malformed,
}

impl View for Delivery {
    type V = DeliveryModel;

    open spec fn view(&self) -> DeliveryModel {
        match self {
            Delivery::Write(v) => DeliveryModel::Write(v@),
            Delivery::Stop => DeliveryModel::Stop,
            Delivery::Skip => DeliveryModel::Skip,
            Delivery::Malformed => DeliveryModel::Malformed,
        }
    }
}

/// A data frame delivers the payload of its message, a disconnect stops the
/// writer, any other frame delivers nothing.
pub open spec fn delivery_of(p: FrameModel) -> DeliveryModel {
    if p.0.pack_type == PackType::Data {
        match data_model_of(p.1) {
            Some(d) => DeliveryModel::Write(d.data),
            None => DeliveryModel::Malformed,
        }
    } else if p.0.pack_type == PackType::DisConnect {
        DeliveryModel::Stop
    } else {
        DeliveryModel::Skip
    }
}

/// Decides what a frame for a socket writes to it.
pub fn delivery(packet: &Packet) -> (d: Delivery)
    ensures
        d@ == delivery_of(packet@),
{
    match packet.header.pack_type {
        PackType::Data => match Data::unpack(packet.data.as_slice()) {
            Ok(data) => Delivery::Write(data.data),
            Err(_) => Delivery::Malformed,
        },
        PackType::DisConnect => Delivery::Stop,
        _ => Delivery::Skip,
    }
}

/// What the client does with a frame from the relay.
#[derive(Debug)]
pub enum RelayFrame {
    /// A user not seen before: open a connection to the local service for it,
    /// then hand the frame to that connection.
    Open(String),
    /// Hand the frame to the connection of this user.
    Forward(String),
    /// Not traffic for a user.
    Ignore,
    /// The body is not a data message.
    Malformed,
}

/// What a `RelayFrame` says.
pub enum RelayFrameModel {
    Open(Seq<char>),
    Forward(Seq<char>),
    Ignore,
    Malformed,
}

impl View for RelayFrame {
    type V = RelayFrameModel;

    open spec fn view(&self) -> RelayFrameModel {
        match self {
            RelayFrame::Open(a) => RelayFrameModel::Open(a@),
            RelayFrame::Forward(a) => RelayFrameModel::Forward(a@),
            RelayFrame::Ignore => RelayFrameModel::Ignore,
            RelayFrame::Malformed => RelayFrameModel::Malformed,
        }
    }
}

/// The users a client has opened a service connection for, after a frame from
/// the relay, and what the client does with it: data for a new user opens a
/// connection, data for a known user goes to its connection.
pub open spec fn relay_frame_step(users: Set<Seq<char>>, p: FrameModel) -> (
    Set<Seq<char>>,
    RelayFrameModel,
) {
    if p.0.pack_type == PackType::Data {
        match data_model_of(p.1) {
            None => (users, RelayFrameModel::Malformed),
            Some(d) => if users.contains(d.agent_ip_port) {
                (users, RelayFrameModel::Forward(d.agent_ip_port))
            } else {
                (users.insert(d.agent_ip_port), RelayFrameModel::Open(d.agent_ip_port))
            },
        }
    } else {
        (users, RelayFrameModel::Ignore)
    }
}

/// The users a client serves through its local service.
pub struct Services {
    users: AddrSet,
}

impl View for Services {
    type V = Set<Seq<char>>;

    closed spec fn view(&self) -> Set<Seq<char>> {
        self.users@
    }
}

impl Services {
    pub fn new() -> (s: Services)
        ensures
            s@ == Set::<Seq<char>>::empty(),
    {
        Services { users: AddrSet::new() }
    }

    /// Decides what to do with a frame from the relay.
    pub fn on_relay_packet(&mut self, packet: &Packet) -> (act: RelayFrame)
        ensures
            (final(self)@, act@) == relay_frame_step(old(self)@, packet@),
    {
        match packet.header.pack_type {
            PackType::Data => match Data::unpack(packet.data.as_slice()) {
                Err(_) => RelayFrame::Malformed,
                Ok(d) => if self.users.contains(&d.agent_ip_port) {
                    RelayFrame::Forward(d.agent_ip_port)
                } else {
                    self.users.insert(d.agent_ip_port.clone());
                    RelayFrame::Open(d.agent_ip_port)
                },
            },
            _ => RelayFrame::Ignore,
        }
    }
}

/// What a service answers a user is written to that user unchanged at the
/// other end of the tunnel.
pub proof fn law_answer_delivered(agent: Seq<char>, bytes: Seq<u8>)
    requires
        data_model_fits(DataModel { agent_ip_port: agent, host: None, data: bytes }),
    ensures
        delivery_of(answer_frame(agent, bytes)) == DeliveryModel::Write(bytes),
{
    law_data_round_trip(DataModel { agent_ip_port: agent, host: None, data: bytes });
}

/// A user's request is written to the local service unchanged.
pub proof fn law_request_delivered(agent: Seq<char>, host: Seq<u8>, request: Seq<u8>)
    requires
        data_model_fits(
            DataModel { agent_ip_port: agent, host: Some(host_text(host)), data: request },
        ),
    ensures
        delivery_of(request_frame(agent, host, request)) == DeliveryModel::Write(request),
{
    law_data_round_trip(
        DataModel { agent_ip_port: agent, host: Some(host_text(host)), data: request },
    );
}

/// The first data frame for a user opens a service connection for it, and
/// every later one goes to that connection.
pub proof fn law_one_connection_per_user(users: Set<Seq<char>>, d: DataModel, e: DataModel)
    requires
        data_model_fits(d),
        data_model_fits(e),
        !users.contains(d.agent_ip_port),
        e.agent_ip_port == d.agent_ip_port,
    ensures
        ({
            let first = relay_frame_step(users, frame_model(PackType::Data, data_model_bytes(d)));
            &&& first.1 == RelayFrameModel::Open(d.agent_ip_port)
            &&& relay_frame_step(first.0, frame_model(PackType::Data, data_model_bytes(e))).1
                == RelayFrameModel::Forward(d.agent_ip_port)
        }),
{
    law_data_round_trip(d);
    law_data_round_trip(e);
}

/// The relay reads a client's bind request back as the bind of its host.
pub proof fn law_bind_request_read_back(host: Seq<char>)
    requires
        encode_utf8(host).len() <= usize::MAX,
        str_bytes(host).len() <= usize::MAX,
    ensures
        read_frame_bytes(frame_bytes(PackType::Bind, str_bytes(host))) == StepModel::Ready(
            frame_model(PackType::Bind, str_bytes(host)),
        ),
        bind_fields(str_bytes(host)) == Some(host),
{
    law_bind_round_trip(host);
    law_frame_round_trip(PackType::Bind, str_bytes(host));
}

/// What a user sends crosses the tunnel unchanged: the frame that carries a
/// request is read back whole at the other end, and what it delivers to the
/// local service is the request itself.
pub proof fn law_request_crosses_tunnel(agent: Seq<char>, host: Seq<u8>, request: Seq<u8>)
    requires
        data_model_fits(
            DataModel { agent_ip_port: agent, host: Some(host_text(host)), data: request },
        ),
        request_frame(agent, host, request).1.len() <= usize::MAX,
    ensures
        read_frame_bytes(frame_bytes(PackType::Data, request_frame(agent, host, request).1))
            == StepModel::Ready(request_frame(agent, host, request)),
        delivery_of(request_frame(agent, host, request)) == DeliveryModel::Write(request),
{
    let d = DataModel { agent_ip_port: agent, host: Some(host_text(host)), data: request };
    law_data_round_trip(d);
    law_frame_round_trip(PackType::Data, data_model_bytes(d));
}

/// What the local service answers crosses the tunnel unchanged: the frame that
/// carries it is read back whole at the relay, and what it delivers to the user
/// is the answer itself.
pub proof fn law_answer_crosses_tunnel(agent: Seq<char>, bytes: Seq<u8>)
    requires
        data_model_fits(DataModel { agent_ip_port: agent, host: None, data: bytes }),
        answer_frame(agent, bytes).1.len() <= usize::MAX,
    ensures
        read_frame_bytes(frame_bytes(PackType::Data, answer_frame(agent, bytes).1))
            == StepModel::Ready(answer_frame(agent, bytes)),
        delivery_of(answer_frame(agent, bytes)) == DeliveryModel::Write(bytes),
{
    let d = DataModel { agent_ip_port: agent, host: None, data: bytes };
    law_data_round_trip(d);
    law_frame_round_trip(PackType::Data, data_model_bytes(d));
}

/// The users a client serves after a run of frames from the relay, and what it
/// does with each, in order.
pub open spec fn relay_frames(users: Set<Seq<char>>, ps: Seq<FrameModel>) -> (
    Set<Seq<char>>,
    Seq<RelayFrameModel>,
)
    decreases ps.len(),
{
    if ps.len() == 0 {
        (users, Seq::empty())
    } else {
        let (u1, a1) = relay_frame_step(users, ps[0]);
        let (u2, rest) = relay_frames(u1, ps.drop_first());
        (u2, seq![a1] + rest)
    }
}

/// The user that a frame carries traffic for: the sender named by a
/// well-formed data message; `None` for any other frame.
pub open spec fn frame_user(p: FrameModel) -> Option<Seq<char>> {
    if p.0.pack_type == PackType::Data {
        match data_model_of(p.1) {
            Some(d) => Some(d.agent_ip_port),
            None => None,
        }
    } else {
        None
    }
}

/// User `a` was seen before frame `i` of a run: served already, or named by an
/// earlier frame of the run.
pub open spec fn seen_before(users: Set<Seq<char>>, ps: Seq<FrameModel>, i: int, a: Seq<char>) -> bool {
    users.contains(a) || exists|j: int| 0 <= j < i && #[trigger] frame_user(ps[j]) == Some(a)
}

/// What the client does with frame `i` of a run: a frame that is not data is
/// ignored, a data frame whose body is no message is malformed, and a message
/// opens a connection for a user not seen before and goes to the connection of
/// one that was.
pub open spec fn run_action(users: Set<Seq<char>>, ps: Seq<FrameModel>, i: int) -> RelayFrameModel {
    if ps[i].0.pack_type != PackType::Data {
        RelayFrameModel::Ignore
    } else {
        match data_model_of(ps[i].1) {
            None => RelayFrameModel::Malformed,
            Some(d) => if seen_before(users, ps, i, d.agent_ip_port) {
                RelayFrameModel::Forward(d.agent_ip_port)
            } else {
                RelayFrameModel::Open(d.agent_ip_port)
            },
        }
    }
}

/// Over any run of frames from the relay, the client opens one service
/// connection for each user it has not seen before, hands every other data
/// message to its user's connection, and ignores every frame that is not data
/// (or refuses it as malformed) without changing whom it serves; afterwards it
/// serves the users it served and every user the run's messages named, and no
/// other.
pub proof fn law_services_over_a_run(users: Set<Seq<char>>, ps: Seq<FrameModel>)
    ensures
        relay_frames(users, ps).1.len() == ps.len(),
        forall|i: int|
            0 <= i < ps.len() ==> #[trigger] relay_frames(users, ps).1[i] == run_action(users, ps, i),
        forall|a: Seq<char>|
            #[trigger] relay_frames(users, ps).0.contains(a) <==> (users.contains(a) || exists|j: int|
                0 <= j < ps.len() && frame_user(ps[j]) == Some(a)),
    decreases ps.len(),
{
    if ps.len() > 0 {
        let tail = ps.drop_first();
        let (u1, a1) = relay_frame_step(users, ps[0]);
        assert forall|a: Seq<char>| #[trigger] u1.contains(a) <==> (users.contains(a)
            || frame_user(ps[0]) == Some(a)) by {}
        law_services_over_a_run(u1, tail);
        let all = relay_frames(users, ps);
        let sub = relay_frames(u1, tail);
        assert(all.0 == sub.0);
        assert(all.1 == seq![a1] + sub.1);
        assert forall|i: int| 0 <= i < ps.len() implies #[trigger] all.1[i] == run_action(
            users,
            ps,
            i,
        ) by {
            if i == 0 {
                assert(all.1[0] == a1);
            } else {
                assert(all.1[i] == sub.1[i - 1]);
                assert(tail[i - 1] == ps[i]);
                assert forall|a: Seq<char>| seen_before(u1, tail, i - 1, a) <==> seen_before(
                    users,
                    ps,
                    i,
                    a,
                ) by {
                    if exists|j: int| 0 <= j < i - 1 && #[trigger] frame_user(tail[j]) == Some(a) {
                        let j = choose|j: int| 0 <= j < i - 1 && #[trigger] frame_user(tail[j]) == Some(a);
                        assert(ps[j + 1] == tail[j]);
                    }
                    if exists|j: int| 0 <= j < i && #[trigger] frame_user(ps[j]) == Some(a) {
                        let j = choose|j: int| 0 <= j < i && #[trigger] frame_user(ps[j]) == Some(a);
                        if j > 0 {
                            assert(tail[j - 1] == ps[j]);
                        }
                    }
                }
            }
        }
        assert forall|a: Seq<char>| #[trigger] all.0.contains(a) <==> (users.contains(a) || exists|
            j: int,
        | 0 <= j < ps.len() && frame_user(ps[j]) == Some(a)) by {
            if exists|j: int| 0 <= j < ps.len() && frame_user(ps[j]) == Some(a) {
                let j = choose|j: int| 0 <= j < ps.len() && frame_user(ps[j]) == Some(a);
                if j > 0 {
                    assert(tail[j - 1] == ps[j]);
                }
            }
            if exists|j: int| 0 <= j < tail.len() && frame_user(tail[j]) == Some(a) {
                let j = choose|j: int| 0 <= j < tail.len() && frame_user(tail[j]) == Some(a);
                assert(ps[j + 1] == tail[j]);
            }
        }
    }
}

/// The bytes that a run of frames writes to a socket: the payload of every
/// frame that delivers one, in order.
pub open spec fn written(ps: Seq<FrameModel>) -> Seq<u8>
    decreases ps.len(),
{
    if ps.len() == 0 {
        Seq::empty()
    } else {
        let here = match delivery_of(ps[0]) {
            DeliveryModel::Write(b) => b,
            _ => Seq::empty(),
        };
        here + written(ps.drop_first())
    }
}

/// The answer frames of a run of reads from the local service for `agent`.
pub open spec fn answer_frames(agent: Seq<char>, reads: Seq<Seq<u8>>) -> Seq<FrameModel> {
    reads.map_values(|r: Seq<u8>| answer_frame(agent, r))
}

/// Nothing that a local service answers is lost, doubled or reordered: the
/// frames that carry its reads write, at the user's end, exactly the bytes it
/// sent, in order; and each is a well-formed data frame.
pub proof fn law_service_stream_preserved(agent: Seq<char>, reads: Seq<Seq<u8>>)
    requires
        forall|i: int|
            0 <= i < reads.len() ==> data_model_fits(
                DataModel { agent_ip_port: agent, host: None, data: #[trigger] reads[i] },
            ),
    ensures
        written(answer_frames(agent, reads)) == reads.flatten(),
        answer_frames(agent, reads).len() == reads.len(),
        forall|i: int|
            0 <= i < reads.len() ==> #[trigger] answer_frames(agent, reads)[i] == answer_frame(
                agent,
                reads[i],
            ),
    decreases reads.len(),
{
    if reads.len() > 0 {
        let tail = reads.drop_first();
        assert forall|i: int| 0 <= i < tail.len() implies data_model_fits(
            DataModel { agent_ip_port: agent, host: None, data: #[trigger] tail[i] },
        ) by {
            assert(tail[i] == reads[i + 1]);
        }
        law_service_stream_preserved(agent, tail);
        law_answer_delivered(agent, reads[0]);
        assert(answer_frames(agent, reads).drop_first() =~= answer_frames(agent, tail));
        assert(answer_frames(agent, reads)[0] == answer_frame(agent, reads[0]));
    }
}

} // verus!
