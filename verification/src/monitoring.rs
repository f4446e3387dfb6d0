//! What one eCAL monitoring snapshot and one drained log buffer hold.

use vstd::prelude::*;

verus! {

/// Type, encoding and descriptor of a topic or of one side of a service method.
#[derive(Debug)]
pub struct DataTypeInfo {
    pub name: String,
    pub encoding: String,
    pub descriptor: Vec<u8>,
}

/// Kind of a transport layer.
#[derive(Debug, Clone, Copy, PartialEq, Eq, Structural)]
pub enum TransportLayerType {
    NoLayer,
    UdpMulticast,
    Shm,
    Tcp,
    Unknown(i32),
}

/// One transport layer of an endpoint.
#[derive(Debug)]
pub struct TransportLayer {
    pub transport_type: TransportLayerType,
    pub version: i32,
    pub active: bool,
}

/// A registered publisher or subscriber.
#[derive(Debug)]
pub struct TopicInfo {
    pub registration_clock: i32,
    pub host_name: String,
    pub shm_transport_domain: String,
    pub process_id: i32,
    pub process_name: String,
    pub unit_name: String,
    pub topic_id: i64,
    pub topic_name: String,
    pub data_type: DataTypeInfo,
    pub transport_layers: Vec<TransportLayer>,
    pub connections_local: i32,
    pub connections_external: i32,
    pub message_drops: i32,
    pub data_clock: i64,
    /// Registered rate in millihertz.
    pub data_frequency: i32,
}

/// A registered process.
#[derive(Debug)]
pub struct ProcessInfo {
    pub host_name: String,
    pub shm_transport_domain: String,
    pub process_id: i32,
    pub process_name: String,
    pub unit_name: String,
    pub state_severity: i32,
    pub state_severity_level: i32,
    pub state_info: String,
    pub runtime_version: String,
    pub config_file_path: String,
}

/// One method of a service.
#[derive(Debug)]
pub struct MethodInfo {
    pub method_name: String,
    pub request_type: DataTypeInfo,
    pub response_type: DataTypeInfo,
    pub call_count: i64,
}

/// A registered service server.
#[derive(Debug)]
pub struct ServerInfo {
    pub host_name: String,
    pub process_name: String,
    pub unit_name: String,
    pub process_id: i32,
    pub service_name: String,
    pub service_id: i64,
    pub version: u32,
    pub tcp_port_v0: u32,
    pub tcp_port_v1: u32,
    pub methods: Vec<MethodInfo>,
}

/// A registered service client.
#[derive(Debug)]
pub struct ClientInfo {
    pub host_name: String,
    pub process_name: String,
    pub unit_name: String,
    pub process_id: i32,
    pub service_name: String,
    pub service_id: i64,
    pub version: u32,
    pub methods: Vec<MethodInfo>,
}

/// Everything that is registered at one moment.
#[derive(Debug)]
pub struct MonitoringSnapshot {
    pub processes: Vec<ProcessInfo>,
    pub publishers: Vec<TopicInfo>,
    pub subscribers: Vec<TopicInfo>,
    pub servers: Vec<ServerInfo>,
    pub clients: Vec<ClientInfo>,
}

/// Severity of a log message, as eCAL names it.
#[derive(Debug, Clone, Copy, PartialEq, Eq, Structural)]
pub enum LogLevel {
    NoLevel,
    Info,
    Warning,
    Error,
    Fatal,
    Debug1,
    Debug2,
    Debug3,
    Debug4,
    All,
}

/// One message of the log buffer.
#[derive(Debug)]
pub struct LogMessage {
    pub level: LogLevel,
    /// Microseconds since the epoch.
    pub timestamp: i64,
    pub host_name: String,
    pub process_name: String,
    pub process_id: i32,
    pub thread_name: String,
    pub content: String,
}

} // verus!
