//! The tunnel's packet kinds and the two messages that travel in frame bodies.
use vstd::prelude::*;
use crate::codec::{
    deserialize_bind_fields, deserialize_data_fields, serialize_bind_fields, serialize_data_fields,
};
use crate::packet::{PackKind, Pack, UnPack};
use crate::wire::{
    bind_fields, data_bytes, data_fields, data_fits, lemma_bind_bytes, lemma_bind_fields_inverse,
    lemma_data_bytes, lemma_data_fields_inverse, str_bytes,
};
use vstd::utf8::encode_utf8;

verus! {

/// What a frame carries.
#[derive(PartialEq, Eq, Structural, Debug, Clone, Copy)]
pub enum PackType {
    Heartbeat,
    Login,
    Logout,
    Data,
    DataEnd,
    /// Names the host whose requests a client serves.
    Bind,
    DisConnect,
}

impl Default for PackType {
    fn default() -> (k: PackType)
        ensures
            k == PackType::Heartbeat,
    {
        PackType::Heartbeat
    }
}

impl PackKind for PackType {
    open spec fn spec_index(&self) -> u32 {
        match self {
            PackType::Heartbeat => 0,
            PackType::Login => 1,
            PackType::Logout => 2,
            PackType::Data => 3,
            PackType::DataEnd => 4,
            PackType::Bind => 5,
            PackType::DisConnect => 6,
        }
    }

    open spec fn spec_from_index(index: u32) -> Option<PackType> {
        if index == 0 {
            Some(PackType::Heartbeat)
        } else if index == 1 {
            Some(PackType::Login)
        } else if index == 2 {
            Some(PackType::Logout)
        } else if index == 3 {
            Some(PackType::Data)
        } else if index == 4 {
            Some(PackType::DataEnd)
        } else if index == 5 {
            Some(PackType::Bind)
        } else if index == 6 {
            Some(PackType::DisConnect)
        } else {
            None
        }
    }

    fn index(&self) -> (i: u32) {
        match self {
            PackType::Heartbeat => 0,
            PackType::Login => 1,
            PackType::Logout => 2,
            PackType::Data => 3,
            PackType::DataEnd => 4,
            PackType::Bind => 5,
            PackType::DisConnect => 6,
        }
    }

    fn from_index(index: u32) -> (k: Option<PackType>) {
        if index == 0 {
            Some(PackType::Heartbeat)
        } else if index == 1 {
            Some(PackType::Login)
        } else if index == 2 {
            Some(PackType::Logout)
        } else if index == 3 {
            Some(PackType::Data)
        } else if index == 4 {
            Some(PackType::DataEnd)
        } else if index == 5 {
            Some(PackType::Bind)
        } else if index == 6 {
            Some(PackType::DisConnect)
        } else {
            None
        }
    }

    proof fn lemma_index_roundtrip(k: PackType) {
    }

    proof fn lemma_from_index_inverse(index: u32) {
    }

    open spec fn spec_kind_count() -> u32 {
        7
    }

    fn kind_count() -> (n: u32) {
        7
    }

    proof fn lemma_index_below_count(index: u32) {
    }
}

/// A frame of the tunnel protocol.
pub type Packet = crate::packet::Packet<PackType>;

/// A frame header of the tunnel protocol.
pub type Header = crate::packet::Header<PackType>;

/// Traffic of one outside user: the user's `ip:port` (which tells the relay
/// and the client which connection the bytes belong to), the host that the
/// user's request names, if any, and the bytes themselves.
#[derive(Debug, Clone, PartialEq)]
pub struct Data {
    pub agent_ip_port: String,
    pub host: Option<String>,
    pub data: Vec<u8>,
}

/// What a `Data` message holds.
pub struct DataModel {
    pub agent_ip_port: Seq<char>,
    pub host: Option<Seq<char>>,
    pub data: Seq<u8>,
}

impl View for Data {
    type V = DataModel;

    open spec fn view(&self) -> DataModel {
        DataModel { agent_ip_port: self.agent_ip_port@, host: self.host.deep_view(), data: self.data@ }
    }
}

/// The packed form of a data message.
pub open spec fn data_model_bytes(d: DataModel) -> Seq<u8> {
    data_bytes(d.agent_ip_port, d.host, d.data)
}

/// The data message that a run of bytes holds.
pub open spec fn data_model_of(bytes: Seq<u8>) -> Option<DataModel> {
    match data_fields(bytes) {
        None => None,
        Some((agent_ip_port, host, data)) => Some(DataModel { agent_ip_port, host, data }),
    }
}

impl Pack for Data {
    open spec fn packable(&self) -> bool {
        true
    }

    open spec fn pack_succeeds(&self) -> bool {
        true
    }

    open spec fn packed(&self) -> Seq<u8> {
        data_model_bytes(self@)
    }

    fn pack(&self) -> (res: Result<Vec<u8>, String>)
        ensures
            res matches Ok(v) && v@ == self.packed(),
    {
        serialize_data_fields(&self.agent_ip_port, &self.host, &self.data)
    }
}

impl UnPack for Data {
    open spec fn unpacked(bytes: Seq<u8>) -> Option<DataModel> {
        data_model_of(bytes)
    }

    fn unpack(encoded: &[u8]) -> (res: Result<Data, String>) {
        let (agent_ip_port, host, data) = deserialize_data_fields(encoded)?;
        Ok(Data { agent_ip_port, host, data })
    }
}

/// A client's claim on a host name: requests for this host go to it.
#[derive(Debug, Clone, PartialEq)]
pub struct Bind {
    pub host: String,
}

impl View for Bind {
    type V = Seq<char>;

    open spec fn view(&self) -> Seq<char> {
        self.host@
    }
}

impl Pack for Bind {
    open spec fn packable(&self) -> bool {
        true
    }

    open spec fn pack_succeeds(&self) -> bool {
        true
    }

    open spec fn packed(&self) -> Seq<u8> {
        str_bytes(self.host@)
    }

    fn pack(&self) -> (res: Result<Vec<u8>, String>)
        ensures
            res matches Ok(v) && v@ == self.packed(),
    {
        serialize_bind_fields(&self.host)
    }
}

impl UnPack for Bind {
    open spec fn unpacked(bytes: Seq<u8>) -> Option<Seq<char>> {
        bind_fields(bytes)
    }

    fn unpack(encoded: &[u8]) -> (res: Result<Bind, String>) {
        let fields = deserialize_bind_fields(encoded)?;
        Ok(Bind { host: fields.0 })
    }
}

/// The lengths that a data message can carry on this machine.
pub open spec fn data_model_fits(d: DataModel) -> bool {
    data_fits(d.agent_ip_port, d.host, d.data)
}

/// Reading back a packed data message gives the message.
pub proof fn law_data_round_trip(d: DataModel)
    requires
        data_model_fits(d),
    ensures
        data_model_of(data_model_bytes(d)) == Some(d),
{
    lemma_data_bytes(d.agent_ip_port, d.host, d.data);
}

/// A data message read from bytes packs back to those bytes.
pub proof fn law_data_canonical(bytes: Seq<u8>)
    requires
        data_model_of(bytes) is Some,
    ensures
        data_model_bytes(data_model_of(bytes).unwrap()) == bytes,
        data_model_fits(data_model_of(bytes).unwrap()),
{
    lemma_data_fields_inverse(bytes);
}

/// Reading back a packed bind message gives the host name.
pub proof fn law_bind_round_trip(host: Seq<char>)
    requires
        encode_utf8(host).len() <= usize::MAX,
    ensures
        bind_fields(str_bytes(host)) == Some(host),
{
    lemma_bind_bytes(host);
}

/// A bind message read from bytes packs back to those bytes.
pub proof fn law_bind_canonical(bytes: Seq<u8>)
    requires
        bind_fields(bytes) is Some,
    ensures
        str_bytes(bind_fields(bytes).unwrap()) == bytes,
{
    lemma_bind_fields_inverse(bytes);
}

/// Each packet kind travels as its position in the declaration: heartbeat `0`,
/// login `1`, logout `2`, data `3`, data-end `4`, bind `5`, disconnect `6`; these
/// indices and no others are read back, each as the kind it was written from.
pub proof fn law_kind_indices_are_declaration_order()
    ensures
        PackType::Heartbeat.spec_index() == 0,
        PackType::Login.spec_index() == 1,
        PackType::Logout.spec_index() == 2,
        PackType::Data.spec_index() == 3,
        PackType::DataEnd.spec_index() == 4,
        PackType::Bind.spec_index() == 5,
        PackType::DisConnect.spec_index() == 6,
        PackType::spec_kind_count() == 7,
        forall|k: PackType| #[trigger] PackType::spec_from_index(k.spec_index()) == Some(k),
        forall|i: u32|
            #![trigger PackType::spec_from_index(i)]
            PackType::spec_from_index(i) matches Some(k) ==> k.spec_index() == i,
        forall|i: u32| #[trigger] PackType::spec_from_index(i) is Some <==> i < 7,
{
}

} // verus!
