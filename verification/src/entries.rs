//! Rows that the tools return, one per registration of a monitoring snapshot.

use vstd::prelude::*;

use crate::codec::{
    at_most, base64_encode, base64_form, hex_form, hex_prefix, is_hex, sha256, sha256_digest,
};
use crate::monitoring::{
    ClientInfo, DataTypeInfo, MethodInfo, ProcessInfo, ServerInfo, TopicInfo, TransportLayer,
    TransportLayerType,
};
use crate::text::{push_signed, signed_decimal};

verus! {

/// Number of hexadecimal characters of a descriptor fingerprint.
pub const FINGERPRINT_CHARS: usize = 16;

/// The text of an optional string.
pub open spec fn opt_text(s: Option<String>) -> Option<Seq<char>> {
    match s {
        Some(t) => Some(t@),
        None => None,
    }
}

/// Type information of a row. The fingerprint is the start of the descriptor's SHA-256 in
/// hexadecimal: two rows with one name and encoding and different fingerprints run
/// incompatible schemas.
#[derive(Debug)]
pub struct DataTypeInformation {
    pub name: String,
    pub encoding: String,
    pub descriptor_len: usize,
    pub descriptor_fingerprint: Option<String>,
    pub descriptor_base64: Option<String>,
}

/// The fingerprint of a descriptor: none where it is empty.
pub open spec fn fingerprint(descriptor: Seq<u8>) -> Option<Seq<char>> {
    if descriptor.len() > 0 {
        Some(at_most(hex_form(sha256(descriptor)), FINGERPRINT_CHARS as int))
    } else {
        None
    }
}

/// `d` is the row of `info`, with the descriptor itself where `include_descriptors` asks for it.
pub open spec fn is_datatype_row(d: DataTypeInformation, info: DataTypeInfo, include_descriptors: bool) -> bool {
    &&& d.name@ == info.name@
    &&& d.encoding@ == info.encoding@
    &&& d.descriptor_len == info.descriptor@.len()
    &&& opt_text(d.descriptor_fingerprint) == fingerprint(info.descriptor@)
    &&& opt_text(d.descriptor_base64) == if include_descriptors && info.descriptor@.len() > 0 {
        Some(base64_form(info.descriptor@))
    } else {
        None
    }
}

/// Type information for a row. A fingerprint, where there is one, is exactly sixteen hexadecimal
/// digits.
pub fn datatype_information(info: &DataTypeInfo, include_descriptors: bool) -> (r: DataTypeInformation)
    ensures
        is_datatype_row(r, *info, include_descriptors),
        r.descriptor_fingerprint matches Some(f) ==> f@.len() == FINGERPRINT_CHARS && forall|i: int|
            0 <= i < f@.len() ==> is_hex(#[trigger] f@[i]),
{
    let descriptor_len: usize = info.descriptor.len();
    let descriptor_fingerprint = if descriptor_len > 0 {
        let digest = sha256_digest(info.descriptor.as_slice());
        Some(hex_prefix(digest.as_slice(), FINGERPRINT_CHARS))
    } else {
        None
    };
    let descriptor_base64 = if include_descriptors && descriptor_len > 0 {
        Some(base64_encode(info.descriptor.as_slice()))
    } else {
        None
    };
    DataTypeInformation {
        name: info.name.clone(),
        encoding: info.encoding.clone(),
        descriptor_len,
        descriptor_fingerprint,
        descriptor_base64,
    }
}

/// One transport layer of a row.
#[derive(Debug)]
pub struct TransportLayerEntry {
    pub layer_type: String,
    pub version: i32,
    pub active: bool,
}

/// The label of a transport kind.
pub open spec fn transport_label(t: TransportLayerType) -> Seq<char> {
    match t {
        TransportLayerType::NoLayer => "none"@,
        TransportLayerType::UdpMulticast => "udp_mc"@,
        TransportLayerType::Shm => "shm"@,
        TransportLayerType::Tcp => "tcp"@,
        TransportLayerType::Unknown(n) => "unknown:"@ + signed_decimal(n as int),
    }
}

/// Labels a transport kind.
pub fn transport_kind(t: &TransportLayerType) -> (r: String)
    ensures
        r@ == transport_label(*t),
{
    match *t {
        TransportLayerType::NoLayer => "none".to_owned(),
        TransportLayerType::UdpMulticast => "udp_mc".to_owned(),
        TransportLayerType::Shm => "shm".to_owned(),
        TransportLayerType::Tcp => "tcp".to_owned(),
        TransportLayerType::Unknown(n) => {
            let mut s = "unknown:".to_owned();
            push_signed(&mut s, n as i64);
            s
        },
    }
}

/// `e` is the row of layer `l`.
pub open spec fn is_layer_row(e: TransportLayerEntry, l: TransportLayer) -> bool {
    &&& e.layer_type@ == transport_label(l.transport_type)
    &&& e.version == l.version
    &&& e.active == l.active
}

/// The row of a layer.
pub fn transport_layer_entry(l: &TransportLayer) -> (r: TransportLayerEntry)
    ensures
        is_layer_row(r, *l),
{
    TransportLayerEntry {
        layer_type: transport_kind(&l.transport_type),
        version: l.version,
        active: l.active,
    }
}

/// Side of a topic row.
#[derive(Debug, Clone, Copy, PartialEq, Eq, Structural)]
pub enum Direction {
    Publisher,
    Subscriber,
}

/// One publisher or subscriber. Rates are kept in millihertz, the unit of the registration.
#[derive(Debug)]
pub struct TopicEntry {
    pub topic_name: String,
    pub direction: Direction,
    pub datatype_information: DataTypeInformation,
    pub host_name: String,
    pub shm_transport_domain: String,
    pub process_id: i32,
    pub process_name: String,
    pub unit_name: String,
    pub topic_id: i64,
    pub connections_local: i32,
    pub connections_external: i32,
    pub message_drops: i32,
    pub registered_data_frequency_mhz: i32,
    pub data_clock: i64,
    pub registration_clock: i32,
    pub transport_layer: Vec<TransportLayerEntry>,
}

/// `e` is the row of registration `t` on side `direction`.
pub open spec fn is_topic_row(
    e: TopicEntry,
    t: TopicInfo,
    direction: Direction,
    include_descriptors: bool,
) -> bool {
    &&& e.topic_name@ == t.topic_name@
    &&& e.direction == direction
    &&& is_datatype_row(e.datatype_information, t.data_type, include_descriptors)
    &&& e.host_name@ == t.host_name@
    &&& e.shm_transport_domain@ == t.shm_transport_domain@
    &&& e.process_id == t.process_id
    &&& e.process_name@ == t.process_name@
    &&& e.unit_name@ == t.unit_name@
    &&& e.topic_id == t.topic_id
    &&& e.connections_local == t.connections_local
    &&& e.connections_external == t.connections_external
    &&& e.message_drops == t.message_drops
    &&& e.registered_data_frequency_mhz == t.data_frequency
    &&& e.data_clock == t.data_clock
    &&& e.registration_clock == t.registration_clock
    &&& e.transport_layer@.len() == t.transport_layers@.len()
    &&& forall|i: int|
        0 <= i < t.transport_layers@.len() ==> is_layer_row(
            #[trigger] e.transport_layer@[i],
            t.transport_layers@[i],
        )
}

/// `e` holds one row per registration of `t`, in order.
pub open spec fn are_topic_rows(
    e: Seq<TopicEntry>,
    t: Seq<TopicInfo>,
    direction: Direction,
    include_descriptors: bool,
) -> bool {
    &&& e.len() == t.len()
    &&& forall|i: int|
        0 <= i < t.len() ==> is_topic_row(#[trigger] e[i], t[i], direction, include_descriptors)
}

/// The row of a registration.
pub fn topic_entry(t: &TopicInfo, direction: Direction, include_descriptors: bool) -> (r: TopicEntry)
    ensures
        is_topic_row(r, *t, direction, include_descriptors),
{
    let mut transport_layer: Vec<TransportLayerEntry> = Vec::new();
    let mut i: usize = 0;
    while i < t.transport_layers.len()
        invariant
            i <= t.transport_layers.len(),
            transport_layer.len() == i,
            forall|k: int|
                0 <= k < i ==> is_layer_row(#[trigger] transport_layer@[k], t.transport_layers@[k]),
        decreases t.transport_layers.len() - i,
    {
        transport_layer.push(transport_layer_entry(&t.transport_layers[i]));
        i += 1;
    }
    TopicEntry {
        topic_name: t.topic_name.clone(),
        direction,
        datatype_information: datatype_information(&t.data_type, include_descriptors),
        host_name: t.host_name.clone(),
        shm_transport_domain: t.shm_transport_domain.clone(),
        process_id: t.process_id,
        process_name: t.process_name.clone(),
        unit_name: t.unit_name.clone(),
        topic_id: t.topic_id,
        connections_local: t.connections_local,
        connections_external: t.connections_external,
        message_drops: t.message_drops,
        registered_data_frequency_mhz: t.data_frequency,
        data_clock: t.data_clock,
        registration_clock: t.registration_clock,
        transport_layer,
    }
}

/// One method of a service row.
#[derive(Debug)]
pub struct MethodEntry {
    pub method_name: String,
    pub request_datatype_information: DataTypeInformation,
    pub response_datatype_information: DataTypeInformation,
    pub call_count: i64,
}

/// `e` is the row of method `m`.
pub open spec fn is_method_row(e: MethodEntry, m: MethodInfo, include_descriptors: bool) -> bool {
    &&& e.method_name@ == m.method_name@
    &&& is_datatype_row(e.request_datatype_information, m.request_type, include_descriptors)
    &&& is_datatype_row(e.response_datatype_information, m.response_type, include_descriptors)
    &&& e.call_count == m.call_count
}

/// `e` holds one row per method of `m`, in order.
pub open spec fn are_method_rows(e: Seq<MethodEntry>, m: Seq<MethodInfo>, include_descriptors: bool) -> bool {
    &&& e.len() == m.len()
    &&& forall|i: int| 0 <= i < m.len() ==> is_method_row(#[trigger] e[i], m[i], include_descriptors)
}

/// The row of a method.
pub fn method_entry(m: &MethodInfo, include_descriptors: bool) -> (r: MethodEntry)
    ensures
        is_method_row(r, *m, include_descriptors),
{
    MethodEntry {
        method_name: m.method_name.clone(),
        request_datatype_information: datatype_information(&m.request_type, include_descriptors),
        response_datatype_information: datatype_information(&m.response_type, include_descriptors),
        call_count: m.call_count,
    }
}

fn method_entries(methods: &Vec<MethodInfo>, include_descriptors: bool) -> (r: Vec<MethodEntry>)
    ensures
        are_method_rows(r@, methods@, include_descriptors),
{
    let mut r: Vec<MethodEntry> = Vec::new();
    let mut i: usize = 0;
    while i < methods.len()
        invariant
            i <= methods.len(),
            r.len() == i,
            forall|k: int|
                0 <= k < i ==> is_method_row(#[trigger] r@[k], methods@[k], include_descriptors),
        decreases methods.len() - i,
    {
        r.push(method_entry(&methods[i], include_descriptors));
        i += 1;
    }
    r
}

/// One service server.
#[derive(Debug)]
pub struct ServiceEntry {
    pub service_name: String,
    pub service_id: i64,
    pub host_name: String,
    pub process_id: i32,
    pub process_name: String,
    pub unit_name: String,
    pub version: u32,
    pub tcp_port_v0: u32,
    pub tcp_port_v1: u32,
    pub methods: Vec<MethodEntry>,
}

/// `e` is the row of server `s`.
pub open spec fn is_service_row(e: ServiceEntry, s: ServerInfo, include_descriptors: bool) -> bool {
    &&& e.service_name@ == s.service_name@
    &&& e.service_id == s.service_id
    &&& e.host_name@ == s.host_name@
    &&& e.process_id == s.process_id
    &&& e.process_name@ == s.process_name@
    &&& e.unit_name@ == s.unit_name@
    &&& e.version == s.version
    &&& e.tcp_port_v0 == s.tcp_port_v0
    &&& e.tcp_port_v1 == s.tcp_port_v1
    &&& are_method_rows(e.methods@, s.methods@, include_descriptors)
}

/// The row of a server.
pub fn service_entry(s: &ServerInfo, include_descriptors: bool) -> (r: ServiceEntry)
    ensures
        is_service_row(r, *s, include_descriptors),
{
    ServiceEntry {
        service_name: s.service_name.clone(),
        service_id: s.service_id,
        host_name: s.host_name.clone(),
        process_id: s.process_id,
        process_name: s.process_name.clone(),
        unit_name: s.unit_name.clone(),
        version: s.version,
        tcp_port_v0: s.tcp_port_v0,
        tcp_port_v1: s.tcp_port_v1,
        methods: method_entries(&s.methods, include_descriptors),
    }
}

/// One service client.
#[derive(Debug)]
pub struct ClientEntry {
    pub service_name: String,
    pub service_id: i64,
    pub host_name: String,
    pub process_id: i32,
    pub process_name: String,
    pub unit_name: String,
    pub version: u32,
    pub methods: Vec<MethodEntry>,
}

/// `e` is the row of client `c`.
pub open spec fn is_client_row(e: ClientEntry, c: ClientInfo, include_descriptors: bool) -> bool {
    &&& e.service_name@ == c.service_name@
    &&& e.service_id == c.service_id
    &&& e.host_name@ == c.host_name@
    &&& e.process_id == c.process_id
    &&& e.process_name@ == c.process_name@
    &&& e.unit_name@ == c.unit_name@
    &&& e.version == c.version
    &&& are_method_rows(e.methods@, c.methods@, include_descriptors)
}

/// The row of a client.
pub fn client_entry(c: &ClientInfo, include_descriptors: bool) -> (r: ClientEntry)
    ensures
        is_client_row(r, *c, include_descriptors),
{
    ClientEntry {
        service_name: c.service_name.clone(),
        service_id: c.service_id,
        host_name: c.host_name.clone(),
        process_id: c.process_id,
        process_name: c.process_name.clone(),
        unit_name: c.unit_name.clone(),
        version: c.version,
        methods: method_entries(&c.methods, include_descriptors),
    }
}

/// One process.
#[derive(Debug)]
pub struct ProcessEntry {
    pub host_name: String,
    pub process_id: i32,
    pub process_name: String,
    pub unit_name: String,
    pub state_severity: i32,
    pub state_severity_level: i32,
    pub state_info: String,
    pub runtime_version: String,
    pub config_file_path: String,
}

/// `e` is the row of process `p`.
pub open spec fn is_process_row(e: ProcessEntry, p: ProcessInfo) -> bool {
    &&& e.host_name@ == p.host_name@
    &&& e.process_id == p.process_id
    &&& e.process_name@ == p.process_name@
    &&& e.unit_name@ == p.unit_name@
    &&& e.state_severity == p.state_severity
    &&& e.state_severity_level == p.state_severity_level
    &&& e.state_info@ == p.state_info@
    &&& e.runtime_version@ == p.runtime_version@
    &&& e.config_file_path@ == p.config_file_path@
}

/// The row of a process.
pub fn process_entry(p: &ProcessInfo) -> (r: ProcessEntry)
    ensures
        is_process_row(r, *p),
{
    ProcessEntry {
        host_name: p.host_name.clone(),
        process_id: p.process_id,
        process_name: p.process_name.clone(),
        unit_name: p.unit_name.clone(),
        state_severity: p.state_severity,
        state_severity_level: p.state_severity_level,
        state_info: p.state_info.clone(),
        runtime_version: p.runtime_version.clone(),
        config_file_path: p.config_file_path.clone(),
    }
}

/// Rows with different fingerprints come from different descriptors, and an empty descriptor is
/// the only one without a fingerprint.
pub proof fn fingerprints_tell_descriptors_apart(
    a: DataTypeInformation,
    b: DataTypeInformation,
    x: DataTypeInfo,
    y: DataTypeInfo,
    include_descriptors: bool,
)
    requires
        is_datatype_row(a, x, include_descriptors),
        is_datatype_row(b, y, include_descriptors),
    ensures
        opt_text(a.descriptor_fingerprint) != opt_text(b.descriptor_fingerprint) ==> x.descriptor@
            != y.descriptor@,
        a.descriptor_fingerprint is None <==> a.descriptor_len == 0,
{
}

} // verus!
