//! The request and response kinds of the coordination protocol, as plain
//! values. Wire framing and the tagged binary encoding live outside the
//! library; every request carries a correlation tag `rf` that its response
//! returns unchanged.

use vstd::prelude::*;

use crate::route_mgr::PathBundle;

verus! {

/// An inbound request. `Unknown` stands for any message kind the dispatcher
/// does not serve, carrying that message's correlation tag.
pub enum Request {
    Ping { rf: u32 },
    RegisterFrontend { http_port: u32, rf: u32 },
    RegisterBackend { http_port: u32, rf: u32 },
    RegisterService { http_port: u32, rf: u32 },
    SetRoutes { bundle: PathBundle, rf: u32 },
    GetRoutes { rf: u32 },
    GetTopicDistChecksum { rf: u32 },
    GetRouteDistChecksum { rf: u32 },
    PickFrontend { rf: u32 },
    LocateTopic { topic: String, rf: u32 },
    ResolveIp { rf: u32 },
    Unknown { rf: u32 },
}

/// The correlation tag a request carries.
pub open spec fn request_rf(req: &Request) -> u32 {
    match *req {
        Request::Ping { rf } => rf,
        Request::RegisterFrontend { rf, .. } => rf,
        Request::RegisterBackend { rf, .. } => rf,
        Request::RegisterService { rf, .. } => rf,
        Request::SetRoutes { rf, .. } => rf,
        Request::GetRoutes { rf } => rf,
        Request::GetTopicDistChecksum { rf } => rf,
        Request::GetRouteDistChecksum { rf } => rf,
        Request::PickFrontend { rf } => rf,
        Request::LocateTopic { rf, .. } => rf,
        Request::ResolveIp { rf } => rf,
        Request::Unknown { rf } => rf,
    }
}

/// One path with the endpoints serving it, split by health.
pub struct RouteGroup {
    pub path: String,
    pub healthy_endpoints: Vec<String>,
    pub unhealthy_endpoints: Vec<String>,
}

/// The typed error kinds a response can carry. Their numbering belongs to the
/// wire protocol outside the library.
#[derive(Clone, Copy, PartialEq, Eq, Structural, Debug)]
pub enum ErrorCode {
    NoError,
    UnknownMsg,
    NotAllowedToRegisterFrontend,
    NotAllowedToRegisterBackend,
    MasterError,
    FailedToPickFrontend,
    FailedToLocateTopic,
}

/// An outbound response. Every request gets exactly one, success or typed
/// error, and never tears the connection down.
pub enum Response {
    Pong { rf: u32 },
    RegisterFrontendRep { rf: u32 },
    RegisterBackendRep { rf: u32 },
    RegisterServiceRep { rf: u32 },
    SetRoutesRep { rf: u32 },
    GetRoutesRep {
        ws_route_groups: Vec<RouteGroup>,
        get_route_groups: Vec<RouteGroup>,
        post_route_groups: Vec<RouteGroup>,
        put_route_groups: Vec<RouteGroup>,
        patch_route_groups: Vec<RouteGroup>,
        delete_route_groups: Vec<RouteGroup>,
        head_route_groups: Vec<RouteGroup>,
        options_route_groups: Vec<RouteGroup>,
        trace_route_groups: Vec<RouteGroup>,
        rf: u32,
    },
    GetTopicDistChecksumRep { checksum: u32, rf: u32 },
    GetRouteDistChecksumRep { checksum: u32, rf: u32 },
    PickFrontendRep { endpoint: String, rf: u32 },
    LocateTopicRep { endpoint: String, rf: u32 },
    ResolveIpRep { ip: String, rf: u32 },
    ErrorRep { code: ErrorCode, desc: String, rf: u32 },
}

/// The correlation tag a response carries back.
pub open spec fn response_rf(r: &Response) -> u32 {
    match *r {
        Response::Pong { rf } => rf,
        Response::RegisterFrontendRep { rf } => rf,
        Response::RegisterBackendRep { rf } => rf,
        Response::RegisterServiceRep { rf } => rf,
        Response::SetRoutesRep { rf } => rf,
        Response::GetRoutesRep { rf, .. } => rf,
        Response::GetTopicDistChecksumRep { rf, .. } => rf,
        Response::GetRouteDistChecksumRep { rf, .. } => rf,
        Response::PickFrontendRep { rf, .. } => rf,
        Response::LocateTopicRep { rf, .. } => rf,
        Response::ResolveIpRep { rf, .. } => rf,
        Response::ErrorRep { rf, .. } => rf,
    }
}

} // verus!
