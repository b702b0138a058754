//! Routing configuration types exchanged with the controller.
//!
//! Enumerations travel as `i32` codes on the wire; `try_from_i32` and
//! `as_i32` convert between the codes and the enumerations.

use vstd::prelude::*;

verus! {

/// How a path pattern is compared with a request path.
#[derive(Clone, Copy, Debug, PartialEq, Eq, Structural)]
pub enum PathMatchType {
    Unspecified,
    Exact,
    Prefix,
    Regex,
}

/// The match type that a wire code stands for, if any.
pub open spec fn path_match_type_of(code: i32) -> Option<PathMatchType> {
    if code == 0 {
        Some(PathMatchType::Unspecified)
    } else if code == 1 {
        Some(PathMatchType::Exact)
    } else if code == 2 {
        Some(PathMatchType::Prefix)
    } else if code == 3 {
        Some(PathMatchType::Regex)
    } else {
        None
    }
}

/// The wire code of a match type.
pub open spec fn path_match_type_code(t: PathMatchType) -> i32 {
    match t {
        PathMatchType::Unspecified => 0,
        PathMatchType::Exact => 1,
        PathMatchType::Prefix => 2,
        PathMatchType::Regex => 3,
    }
}

impl PathMatchType {
    /// Decodes a wire code; `None` for a code that names no match type.
    pub fn try_from_i32(code: i32) -> (t: Option<PathMatchType>)
        ensures
            t == path_match_type_of(code),
    {
        if code == 0 {
            Some(PathMatchType::Unspecified)
        } else if code == 1 {
            Some(PathMatchType::Exact)
        } else if code == 2 {
            Some(PathMatchType::Prefix)
        } else if code == 3 {
            Some(PathMatchType::Regex)
        } else {
            None
        }
    }

    /// The wire code of this match type.
    pub fn as_i32(self) -> (code: i32)
        ensures
            code == path_match_type_code(self),
            path_match_type_of(code) == Some(self),
    {
        match self {
            PathMatchType::Unspecified => 0,
            PathMatchType::Exact => 1,
            PathMatchType::Prefix => 2,
            PathMatchType::Regex => 3,
        }
    }
}

/// Protocol spoken to a backend.
#[derive(Clone, Copy, Debug, PartialEq, Eq, Structural)]
pub enum BackendProtocol {
    Http,
    Https,
    H2c,
    H2,
}

/// The protocol that a wire code stands for, if any.
pub open spec fn backend_protocol_of(code: i32) -> Option<BackendProtocol> {
    if code == 0 {
        Some(BackendProtocol::Http)
    } else if code == 1 {
        Some(BackendProtocol::Https)
    } else if code == 2 {
        Some(BackendProtocol::H2c)
    } else if code == 3 {
        Some(BackendProtocol::H2)
    } else {
        None
    }
}

/// The wire code of a protocol.
pub open spec fn backend_protocol_code(p: BackendProtocol) -> i32 {
    match p {
        BackendProtocol::Http => 0,
        BackendProtocol::Https => 1,
        BackendProtocol::H2c => 2,
        BackendProtocol::H2 => 3,
    }
}

impl BackendProtocol {
    /// Decodes a wire code; `None` for a code that names no protocol.
    pub fn try_from_i32(code: i32) -> (p: Option<BackendProtocol>)
        ensures
            p == backend_protocol_of(code),
    {
        if code == 0 {
            Some(BackendProtocol::Http)
        } else if code == 1 {
            Some(BackendProtocol::Https)
        } else if code == 2 {
            Some(BackendProtocol::H2c)
        } else if code == 3 {
            Some(BackendProtocol::H2)
        } else {
            None
        }
    }

    /// The wire code of this protocol.
    pub fn as_i32(self) -> (code: i32)
        ensures
            code == backend_protocol_code(self),
            backend_protocol_of(code) == Some(self),
    {
        match self {
            BackendProtocol::Http => 0,
            BackendProtocol::Https => 1,
            BackendProtocol::H2c => 2,
            BackendProtocol::H2 => 3,
        }
    }
}

/// An upstream endpoint with its relative weight.
#[derive(Clone, Debug)]
pub struct Backend {
    /// `host:port` or `[ipv6]:port`.
    pub address: String,
    /// Relative weight; 0 counts as 1.
    pub weight: u32,
    /// Wire code of a `BackendProtocol`.
    pub protocol: i32,
}

/// A path pattern and how it is compared.
#[derive(Clone, Debug)]
pub struct PathMatch {
    /// Wire code of a `PathMatchType`.
    pub match_type: i32,
    pub value: String,
}

/// One alternative way for a request to match a rule.
#[derive(Clone, Debug)]
pub struct HttpRouteMatch {
    /// `None` matches every path.
    pub path: Option<PathMatch>,
    pub method: String,
}

/// A set of alternative matches and the backends they lead to.
#[derive(Clone, Debug)]
pub struct HttpRouteRule {
    /// Empty matches every path.
    pub matches: Vec<HttpRouteMatch>,
    pub backends: Vec<Backend>,
    pub timeout_ms: u32,
}

/// An HTTP route: hostnames and rules, identified by `id`.
#[derive(Clone, Debug)]
pub struct HttpRoute {
    pub id: String,
    /// Empty matches every host.
    pub hostnames: Vec<String>,
    pub rules: Vec<HttpRouteRule>,
}

/// A rule of a gRPC route.
#[derive(Clone, Debug)]
pub struct GrpcRouteRule {
    pub backends: Vec<Backend>,
}

/// A gRPC route, identified by `id`.
#[derive(Clone, Debug)]
pub struct GrpcRoute {
    pub id: String,
    pub hostnames: Vec<String>,
    pub rules: Vec<GrpcRouteRule>,
}

/// Full replacement of the routing table.
#[derive(Clone, Debug)]
pub struct UpdateRoutesRequest {
    pub http_routes: Vec<HttpRoute>,
    pub grpc_routes: Vec<GrpcRoute>,
    pub version: u64,
}

/// Answer to an `UpdateRoutesRequest`.
#[derive(Clone, Debug)]
pub struct UpdateRoutesResponse {
    pub success: bool,
    pub error: String,
    pub applied_version: u64,
    pub http_route_count: u32,
    pub grpc_route_count: u32,
}

/// Request for the current routing table.
#[derive(Clone, Debug)]
pub struct GetRoutesRequest {}

/// The current routing table and its version.
#[derive(Clone, Debug)]
pub struct GetRoutesResponse {
    pub http_routes: Vec<HttpRoute>,
    pub grpc_routes: Vec<GrpcRoute>,
    pub version: u64,
}

/// Request for the proxy's health.
#[derive(Clone, Debug)]
pub struct HealthRequest {}

/// The proxy's health and configuration version.
#[derive(Clone, Debug)]
pub struct HealthResponse {
    pub healthy: bool,
    pub status: String,
    pub active_connections: u32,
    pub config_version: u64,
}

} // verus!
