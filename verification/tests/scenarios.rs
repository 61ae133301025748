use maxwell_master::addr::IpAddr;
use maxwell_master::backend_mgr::BackendMgr;
use maxwell_master::config::{
    BackendConfig, BackendMgrConfig, FrontendConfig, FrontendMgrConfig, ServiceMgrConfig,
};
use maxwell_master::dispatcher::{Handler, Registries};
use maxwell_master::frontend_mgr::FrontendMgr;
use maxwell_master::protocol::{ErrorCode, Request, Response};
use maxwell_master::route_mgr::PathBundle;
use maxwell_master::route_mgr::RouteMgr;
use maxwell_master::selector::HttpHandler;
use maxwell_master::service_mgr::ServiceMgr;
use maxwell_master::strmap::StrMap;
use maxwell_master::text::dec_u32;
use maxwell_master::topic_mgr::TopicMgr;

fn f1() -> FrontendConfig {
    FrontendConfig {
        domain: String::from("f1.example"),
        http_port: 80,
        https_port: 443,
        public_ip: IpAddr::V4(1, 2, 3, 4),
        private_ip: IpAddr::V4(10, 0, 0, 1),
    }
}

fn backend_cfg(id: &str, ip: IpAddr, port: u32) -> BackendConfig {
    BackendConfig { id: String::from(id), private_ip: ip, http_port: port }
}

fn backends(n: u32) -> BackendMgrConfig {
    let mut v = vec![];
    for q in 1..=n {
        v.push(backend_cfg(
            &format!("10.0.1.{}:8080", q),
            IpAddr::V4(10, 0, 1, q as u8),
            8080,
        ));
    }
    BackendMgrConfig { backends: v }
}

fn make_regs(n_backends: u32, with_frontend: bool) -> Registries {
    let frontends = if with_frontend { vec![f1()] } else { vec![] };
    let backend_mgr = BackendMgr::new(&backends(n_backends));
    let checksum = backend_mgr.checksum();
    Registries {
        frontend_mgr: FrontendMgr::new(&FrontendMgrConfig { frontends }),
        backend_mgr,
        service_mgr: ServiceMgr::recover(StrMap::new()),
        route_mgr: RouteMgr::recover(StrMap::new()),
        topic_mgr: TopicMgr::recover(StrMap::new(), StrMap::new(), checksum),
        config: ServiceMgrConfig { stale_threshold: 60, unhealthy_threshold: 10 },
    }
}

fn bundle(get_paths: Vec<&str>, ws_paths: Vec<&str>) -> PathBundle {
    PathBundle {
        ws_paths: ws_paths.into_iter().map(String::from).collect(),
        get_paths: get_paths.into_iter().map(String::from).collect(),
        post_paths: vec![],
        put_paths: vec![],
        patch_paths: vec![],
        delete_paths: vec![],
        head_paths: vec![],
        options_paths: vec![],
        trace_paths: vec![],
    }
}

#[test]
fn register_and_publish_routes() {
    let mut regs = make_regs(2, true);
    let mut conn = Handler::new(1, IpAddr::V4(10, 0, 0, 50));
    match conn.handle_register_service_req(&mut regs, 9000, 1, 1000) {
        Response::RegisterServiceRep { rf } => assert_eq!(rf, 1),
        _ => panic!("expected RegisterServiceRep"),
    }
    match conn.handle_set_routes_req(&mut regs, bundle(vec!["/a"], vec!["/w"]), 2) {
        Response::SetRoutesRep { rf } => assert_eq!(rf, 2),
        _ => panic!("expected SetRoutesRep"),
    }
    let other = Handler::new(2, IpAddr::V4(10, 0, 0, 60));
    match other.handle_get_routes_req(&mut regs, 3, 1005) {
        Response::GetRoutesRep { get_route_groups, ws_route_groups, rf, .. } => {
            assert_eq!(rf, 3);
            assert_eq!(get_route_groups.len(), 1);
            assert_eq!(get_route_groups[0].path.as_str(), "/a");
            assert_eq!(get_route_groups[0].healthy_endpoints.len(), 1);
            assert_eq!(get_route_groups[0].healthy_endpoints[0].as_str(), "10.0.0.50:9000");
            assert_eq!(get_route_groups[0].unhealthy_endpoints.len(), 0);
            assert_eq!(ws_route_groups.len(), 1);
            assert_eq!(ws_route_groups[0].path.as_str(), "/w");
            assert_eq!(ws_route_groups[0].healthy_endpoints[0].as_str(), "10.0.0.50:9000");
        },
        _ => panic!("expected GetRoutesRep"),
    }
}

#[test]
fn staleness_garbage_collection() {
    let mut regs = make_regs(2, true);
    let mut conn = Handler::new(1, IpAddr::V4(10, 0, 0, 50));
    conn.handle_register_service_req(&mut regs, 9000, 1, 1000);
    conn.handle_set_routes_req(&mut regs, bundle(vec!["/a"], vec!["/w"]), 2);
    // 70 seconds later the service is stale: the readout reports empty groups
    // and evicts the id from both registries.
    let other = Handler::new(2, IpAddr::V4(10, 0, 0, 60));
    match other.handle_get_routes_req(&mut regs, 4, 1070) {
        Response::GetRoutesRep { get_route_groups, ws_route_groups, rf, .. } => {
            assert_eq!(rf, 4);
            assert_eq!(get_route_groups.len(), 0);
            assert_eq!(ws_route_groups.len(), 0);
        },
        _ => panic!("expected GetRoutesRep"),
    }
    assert_eq!(regs.route_mgr.reverse_route_group_iter().len(), 0);
    assert!(regs.service_mgr.get(&String::from("10.0.0.50:9000"), 1070, &regs.config).is_none());
}

#[test]
fn topic_placement_is_stable() {
    let mut regs = make_regs(2, true);
    let conn = Handler::new(1, IpAddr::V4(10, 0, 0, 70));
    // hash("t1") is even, so the first of the two ascending backend ids wins.
    let first = match conn.handle_locate_topic_req(&mut regs, String::from("t1"), 5) {
        Response::LocateTopicRep { endpoint, rf } => {
            assert_eq!(rf, 5);
            endpoint
        },
        _ => panic!("expected LocateTopicRep"),
    };
    assert_eq!(first.as_str(), "10.0.1.1:8080");
    // Asking again keeps the stored assignment.
    match conn.handle_locate_topic_req(&mut regs, String::from("t1"), 6) {
        Response::LocateTopicRep { endpoint, rf } => {
            assert_eq!(rf, 6);
            assert_eq!(endpoint.as_str(), first.as_str());
        },
        _ => panic!("expected LocateTopicRep"),
    }
    // A fresh process with the same backend configuration places the topic on
    // the same backend.
    let mut regs2 = make_regs(2, true);
    match conn.handle_locate_topic_req(&mut regs2, String::from("t1"), 7) {
        Response::LocateTopicRep { endpoint, .. } => {
            assert_eq!(endpoint.as_str(), first.as_str());
        },
        _ => panic!("expected LocateTopicRep"),
    }
}

#[test]
fn backend_set_change_invalidates_topics() {
    // A previous run stored an assignment and the two-backend checksum.
    let two = BackendMgr::new(&backends(2));
    let mut topic_store: StrMap<String> = StrMap::new();
    topic_store.insert(String::from("t1"), String::from("10.0.1.1:8080"));
    let mut info: StrMap<String> = StrMap::new();
    info.insert(String::from("backend_checksum"), dec_u32(two.checksum()));
    // Restart with a third backend: the checksum differs, the table is
    // truncated, and the topic is placed afresh on the three-element set.
    let three = BackendMgr::new(&backends(3));
    let checksum3 = three.checksum();
    assert_ne!(two.checksum(), checksum3);
    let mut regs = Registries {
        frontend_mgr: FrontendMgr::new(&FrontendMgrConfig { frontends: vec![f1()] }),
        backend_mgr: three,
        service_mgr: ServiceMgr::recover(StrMap::new()),
        route_mgr: RouteMgr::recover(StrMap::new()),
        topic_mgr: TopicMgr::recover(topic_store, info, checksum3),
        config: ServiceMgrConfig { stale_threshold: 60, unhealthy_threshold: 10 },
    };
    let conn = Handler::new(1, IpAddr::V4(10, 0, 0, 70));
    match conn.handle_locate_topic_req(&mut regs, String::from("t1"), 7) {
        Response::LocateTopicRep { endpoint, .. } => {
            // hash("t1") mod 3 == 2: the third ascending backend id.
            assert_eq!(endpoint.as_str(), "10.0.1.3:8080");
        },
        _ => panic!("expected LocateTopicRep"),
    }
}

#[test]
fn http_pick_by_locality() {
    let regs = make_regs(2, true);
    // A private http caller gets the private address with the http port.
    let private_caller = HttpHandler::new(Some(IpAddr::V4(10, 0, 0, 99)), false);
    let rep = private_caller.pick_frontend(&regs.frontend_mgr);
    assert_eq!(rep.code, ErrorCode::NoError);
    assert_eq!(rep.endpoint.unwrap().as_str(), "10.0.0.1:80");
    // A public https caller gets the domain with the https port.
    let public_caller = HttpHandler::new(Some(IpAddr::V4(8, 8, 8, 8)), true);
    let rep = public_caller.pick_frontend(&regs.frontend_mgr);
    assert_eq!(rep.code, ErrorCode::NoError);
    assert_eq!(rep.endpoint.unwrap().as_str(), "f1.example:443");
    // Every frontend is listed with the caller's endpoint form.
    let listed = public_caller.pick_frontends(&regs.frontend_mgr);
    assert_eq!(listed.endpoints.len(), 1);
    assert_eq!(listed.endpoints[0].as_str(), "f1.example:443");
}

#[test]
fn route_checksum_freshness() {
    let mut regs = make_regs(2, true);
    let mut conn = Handler::new(1, IpAddr::V4(10, 0, 0, 50));
    conn.handle_register_service_req(&mut regs, 9000, 1, 1000);
    conn.handle_set_routes_req(&mut regs, bundle(vec!["/a"], vec![]), 2);
    let other = Handler::new(2, IpAddr::V4(10, 0, 0, 60));
    // Every referenced service healthy: the checksum is stable across calls
    // and wall-clock times.
    let c1 = match other.handle_get_route_dist_checksum_req(&mut regs, 3, 1005, 111) {
        Response::GetRouteDistChecksumRep { checksum, rf } => {
            assert_eq!(rf, 3);
            checksum
        },
        _ => panic!("expected GetRouteDistChecksumRep"),
    };
    let c2 = match other.handle_get_route_dist_checksum_req(&mut regs, 4, 1006, 222) {
        Response::GetRouteDistChecksumRep { checksum, .. } => checksum,
        _ => panic!("expected GetRouteDistChecksumRep"),
    };
    assert_eq!(c1, c2);
    // An unhealthy service makes the checksum change from call to call.
    let c3 = match other.handle_get_route_dist_checksum_req(&mut regs, 5, 1015, 333) {
        Response::GetRouteDistChecksumRep { checksum, .. } => checksum,
        _ => panic!("expected GetRouteDistChecksumRep"),
    };
    let c4 = match other.handle_get_route_dist_checksum_req(&mut regs, 6, 1016, 444) {
        Response::GetRouteDistChecksumRep { checksum, .. } => checksum,
        _ => panic!("expected GetRouteDistChecksumRep"),
    };
    assert_ne!(c3, c4);
}

#[test]
fn empty_frontend_set_fails_pick() {
    let regs = make_regs(2, false);
    let conn = Handler::new(1, IpAddr::V4(10, 0, 0, 50));
    match conn.handle_pick_frontend_req(&regs, 8) {
        Response::ErrorRep { code, rf, .. } => {
            assert_eq!(code, ErrorCode::FailedToPickFrontend);
            assert_eq!(rf, 8);
        },
        _ => panic!("expected ErrorRep"),
    }
}

#[test]
fn ipv6_peer_gets_public_address() {
    let regs = make_regs(2, true);
    let conn = Handler::new(1, IpAddr::V6(0x2001, 0xdb8, 0, 0, 0, 0, 0, 1));
    match conn.handle_pick_frontend_req(&regs, 9) {
        Response::PickFrontendRep { endpoint, rf } => {
            assert_eq!(rf, 9);
            assert_eq!(endpoint.as_str(), "1.2.3.4:80");
        },
        _ => panic!("expected PickFrontendRep"),
    }
}

#[test]
fn registration_is_gated_by_configuration() {
    let regs = make_regs(2, true);
    // The pre-declared frontend id may register.
    let mut allowed = Handler::new(1, IpAddr::V4(10, 0, 0, 1));
    match allowed.handle_register_frontend_req(&regs, 80, 1) {
        Response::RegisterFrontendRep { rf } => assert_eq!(rf, 1),
        _ => panic!("expected RegisterFrontendRep"),
    }
    // An undeclared candidate id is refused.
    let mut refused = Handler::new(2, IpAddr::V4(9, 9, 9, 9));
    match refused.handle_register_frontend_req(&regs, 80, 2) {
        Response::ErrorRep { code, rf, .. } => {
            assert_eq!(code, ErrorCode::NotAllowedToRegisterFrontend);
            assert_eq!(rf, 2);
        },
        _ => panic!("expected ErrorRep"),
    }
    // The same gate holds for backends.
    let mut backend = Handler::new(3, IpAddr::V4(10, 0, 1, 1));
    match backend.handle_register_backend_req(&regs, 8080, 3) {
        Response::RegisterBackendRep { rf } => assert_eq!(rf, 3),
        _ => panic!("expected RegisterBackendRep"),
    }
}

#[test]
fn locate_topic_error_paths() {
    // No backend to pick from: the placement fails with the typed error.
    let mut empty = make_regs(0, true);
    let conn = Handler::new(1, IpAddr::V4(10, 0, 0, 70));
    match conn.handle_locate_topic_req(&mut empty, String::from("t1"), 1) {
        Response::ErrorRep { code, rf, .. } => {
            assert_eq!(code, ErrorCode::FailedToLocateTopic);
            assert_eq!(rf, 1);
        },
        _ => panic!("expected ErrorRep"),
    }
    // A stored assignment pointing at a backend that is not configured fails
    // the lookup with the same error.
    let two = BackendMgr::new(&backends(2));
    let checksum = two.checksum();
    let mut topic_store: StrMap<String> = StrMap::new();
    topic_store.insert(String::from("t1"), String::from("10.0.9.9:8080"));
    let mut info: StrMap<String> = StrMap::new();
    info.insert(String::from("backend_checksum"), dec_u32(checksum));
    let mut regs = Registries {
        frontend_mgr: FrontendMgr::new(&FrontendMgrConfig { frontends: vec![f1()] }),
        backend_mgr: two,
        service_mgr: ServiceMgr::recover(StrMap::new()),
        route_mgr: RouteMgr::recover(StrMap::new()),
        topic_mgr: TopicMgr::recover(topic_store, info, checksum),
        config: ServiceMgrConfig { stale_threshold: 60, unhealthy_threshold: 10 },
    };
    match conn.handle_locate_topic_req(&mut regs, String::from("t1"), 2) {
        Response::ErrorRep { code, rf, .. } => {
            assert_eq!(code, ErrorCode::FailedToLocateTopic);
            assert_eq!(rf, 2);
        },
        _ => panic!("expected ErrorRep"),
    }
}

#[test]
fn undeclared_backend_registration_is_refused() {
    let regs = make_regs(2, true);
    let mut refused = Handler::new(1, IpAddr::V4(9, 9, 9, 9));
    match refused.handle_register_backend_req(&regs, 8080, 7) {
        Response::ErrorRep { code, rf, .. } => {
            assert_eq!(code, ErrorCode::NotAllowedToRegisterBackend);
            assert_eq!(rf, 7);
        },
        _ => panic!("expected ErrorRep"),
    }
}

#[test]
fn dispatch_covers_every_kind() {
    let mut regs = make_regs(2, true);
    let mut conn = Handler::new(1, IpAddr::V4(10, 0, 0, 50));
    match conn.handle_external_msg(&mut regs, Request::Ping { rf: 1 }) {
        Response::Pong { rf } => assert_eq!(rf, 1),
        _ => panic!("expected Pong"),
    }
    match conn.handle_external_msg(&mut regs, Request::ResolveIp { rf: 2 }) {
        Response::ResolveIpRep { ip, rf } => {
            assert_eq!(rf, 2);
            assert_eq!(ip.as_str(), "10.0.0.50");
        },
        _ => panic!("expected ResolveIpRep"),
    }
    let expected = regs.backend_mgr.checksum();
    match conn.handle_external_msg(&mut regs, Request::GetTopicDistChecksum { rf: 3 }) {
        Response::GetTopicDistChecksumRep { checksum, rf } => {
            assert_eq!(rf, 3);
            assert_eq!(checksum, expected);
        },
        _ => panic!("expected GetTopicDistChecksumRep"),
    }
    match conn.handle_external_msg(&mut regs, Request::Unknown { rf: 4 }) {
        Response::ErrorRep { code, rf, .. } => {
            assert_eq!(code, ErrorCode::UnknownMsg);
            assert_eq!(rf, 4);
        },
        _ => panic!("expected ErrorRep"),
    }
    // Routes offered over a connection that never registered are refused.
    let fresh = Handler::new(5, IpAddr::V4(10, 0, 0, 51));
    match fresh.handle_set_routes_req(&mut regs, bundle(vec!["/a"], vec![]), 5) {
        Response::ErrorRep { code, rf, .. } => {
            assert_eq!(code, ErrorCode::MasterError);
            assert_eq!(rf, 5);
        },
        _ => panic!("expected ErrorRep"),
    }
}
