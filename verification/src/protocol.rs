//! The messages between client and server, as plain values. How they are written
//! on the wire is the business of the program around the library.
use vstd::prelude::*;
use vstd::string::*;
use crate::cert::{Crl, DeviceCert, ServerInfo};

verus! {

/// The kinds of messages.
#[derive(Debug, Clone, Copy, PartialEq, Eq, Structural)]
pub enum MsgKind {
    Register,
    Heartbeat,
    Query,
    Response,
    Notify,
    Bye,
    Relay,
    RelayRk,
    RelayBatch,
    KeyQuery,
    ServerInfo,
    Join,
    Auth,
    AuthResp,
    /// Anything else.
    Other,
}

/// A request to join the mesh by an invitation.
#[derive(Debug, Clone)]
pub struct JoinBody {
    pub code: String,
    pub device_id: String,
    pub ik_x: String,
    pub ik_s_pub: String,
    pub requested_ip: Option<String>,
    pub token: Option<String>,
    pub alias: Option<String>,
}

/// A request for a session, with the device's certificate.
#[derive(Debug, Clone)]
pub struct AuthBody {
    pub device_id: String,
    pub cert: DeviceCert,
    pub ek_c: String,
    pub timestamp: u64,
    pub nonce: String,
    pub token: Option<String>,
}

/// The answer to a request for a session.
#[derive(Debug, Clone)]
pub struct AuthRespBody {
    pub ek_s: String,
    pub session_id: String,
    pub crl: Crl,
    pub server_info: ServerInfo,
    pub allocated_ip: String,
}

/// A device makes itself reachable.
#[derive(Debug, Clone)]
pub struct RegisterBody {
    pub ip: String,
    pub relay_rk: Option<String>,
    pub token: Option<String>,
    pub alias: Option<String>,
}

/// A device asks for another, by name where there is one, else by address.
#[derive(Debug, Clone)]
pub struct QueryBody {
    pub ip: String,
    pub name: Option<String>,
}

/// What a device is told of another.
#[derive(Debug, Clone)]
pub struct PeerInfo {
    pub public_key: String,
    pub endpoint: String,
    pub relay_rk: Option<String>,
    pub alias: Option<String>,
    pub ip: Option<String>,
}

/// What an answer carries.
#[derive(Debug, Clone)]
pub enum ResponseData {
    Empty,
    QueryHit {
        req: String,
        ip: String,
        public_key: String,
        endpoint: String,
        relay_rk: Option<String>,
        alias: String,
    },
    QueryMiss { req: String, error: String },
    Join {
        device_id: String,
        allocated_ip: String,
        cert: DeviceCert,
        server_info: ServerInfo,
        crl: Crl,
    },
}

/// An answer.
#[derive(Debug, Clone)]
pub struct ResponseBody {
    pub ok: bool,
    pub data: ResponseData,
    pub error: Option<String>,
}

impl ResponseBody {
    /// A plain yes.
    pub fn ok() -> (r: Self)
        ensures
            r.ok && r.data is Empty && r.error is None,
    {
        ResponseBody { ok: true, data: ResponseData::Empty, error: None }
    }

    /// A yes with something to it.
    pub fn ok_with_data(data: ResponseData) -> (r: Self)
        ensures
            r.ok && r.data == data && r.error is None,
    {
        ResponseBody { ok: true, data, error: None }
    }

    /// A no with its reason.
    pub fn err(msg: &str) -> (r: Self)
        ensures
            !r.ok && r.data is Empty && r.error is Some && r.error->0@ == msg@,
    {
        ResponseBody { ok: false, data: ResponseData::Empty, error: Some(msg.to_owned()) }
    }
}

/// The characters of an optional text.
pub open spec fn opt_view(s: Option<String>) -> Option<Seq<char>> {
    match s {
        Some(t) => Some(t@),
        None => None,
    }
}

/// An optional text as a borrowed one.
pub fn opt_str(s: &Option<String>) -> (r: Option<&str>)
    ensures
        match (r, *s) {
            (Some(a), Some(b)) => a@ == b@,
            (None, None) => true,
            _ => false,
        },
{
    match s {
        Some(t) => Some(t.as_str()),
        None => None,
    }
}

} // verus!
