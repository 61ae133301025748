use maxwell_master::addr::IpAddr;
use maxwell_master::backend_mgr::BackendMgr;
use maxwell_master::config::{
    BackendConfig, BackendMgrConfig, FrontendConfig, FrontendMgrConfig, ServiceMgrConfig,
};
use maxwell_master::frontend_mgr::FrontendMgr;
use maxwell_master::node::Service;
use maxwell_master::route_mgr::{PathBundle, RouteMgr};
use maxwell_master::service_mgr::ServiceMgr;
use maxwell_master::strmap::StrMap;
use maxwell_master::topic_mgr::TopicMgr;

fn thresholds() -> ServiceMgrConfig {
    ServiceMgrConfig { stale_threshold: 60, unhealthy_threshold: 10 }
}

fn backend_cfg(id: &str, ip: IpAddr, port: u32) -> BackendConfig {
    BackendConfig { id: String::from(id), private_ip: ip, http_port: port }
}

fn two_backends() -> BackendMgrConfig {
    BackendMgrConfig {
        backends: vec![
            backend_cfg("10.0.1.1:8080", IpAddr::V4(10, 0, 1, 1), 8080),
            backend_cfg("10.0.1.2:8080", IpAddr::V4(10, 0, 1, 2), 8080),
        ],
    }
}

#[test]
fn service_mgr_test_basic() {
    let service_mgr = ServiceMgr::recover(StrMap::new());
    let config = thresholds();
    let now = 10000;
    let input_service = Service::new(IpAddr::V4(127, 0, 0, 1), 10000, now);
    let id = input_service.id.clone();
    let mut service_mgr = service_mgr;
    let output_service = service_mgr.get(&id, now, &config);
    assert!(output_service.is_none());
    service_mgr.add(input_service);
    let output_node = service_mgr.get(&id, now, &config);
    assert!(output_node.is_some());
}

#[test]
fn service_version_moves_only_on_endpoint_change() {
    let mut m = ServiceMgr::recover(StrMap::new());
    let v0 = m.version();
    m.add(Service::new(IpAddr::V4(10, 0, 0, 50), 9000, 100));
    let v1 = m.version();
    assert_eq!(v1, v0.wrapping_add(1));
    // Same private endpoint again: record overwritten, version untouched.
    m.add(Service::new(IpAddr::V4(10, 0, 0, 50), 9000, 200));
    assert_eq!(m.version(), v1);
    // A changed endpoint moves it.
    m.add(Service {
        id: String::from("10.0.0.50:9000"),
        private_ip: IpAddr::V4(10, 0, 0, 51),
        http_port: 9000,
        active_at: 300,
    });
    assert_eq!(m.version(), v1.wrapping_add(1));
}

#[test]
fn service_health_boundaries() {
    let config = thresholds();
    let svc = Service::new(IpAddr::V4(10, 0, 0, 50), 9000, 1000);
    // Exactly at the unhealthy threshold the service is still healthy.
    assert!(svc.is_healthy(1010, &config));
    assert!(!svc.is_healthy(1011, &config));
    // Exactly at the stale threshold the service is not yet stale.
    assert!(!svc.is_stale(1060, &config));
    assert!(svc.is_stale(1061, &config));
}

#[test]
fn stale_service_is_evicted_on_get() {
    let config = thresholds();
    let mut m = ServiceMgr::recover(StrMap::new());
    m.add(Service::new(IpAddr::V4(10, 0, 0, 50), 9000, 1000));
    let id = String::from("10.0.0.50:9000");
    let v = m.version();
    // 70 seconds later the record is stale: the lookup evicts it and moves the
    // version.
    assert!(m.get(&id, 1070, &config).is_none());
    assert_eq!(m.version(), v.wrapping_add(1));
    assert!(m.get(&id, 1070, &config).is_none());
    assert_eq!(m.version(), v.wrapping_add(1));
}

#[test]
fn service_recover_sees_persisted_records() {
    let mut store: StrMap<Service> = StrMap::new();
    let svc = Service::new(IpAddr::V4(10, 0, 0, 50), 9000, 1000);
    store.insert(svc.id.clone(), svc);
    let mut m = ServiceMgr::recover(store);
    let got = m.get(&String::from("10.0.0.50:9000"), 1005, &thresholds());
    assert!(got.is_some());
    assert_eq!(got.unwrap().http_port, 9000);
}

#[test]
fn frontend_pick_is_none_only_when_empty() {
    let empty = FrontendMgr::new(&FrontendMgrConfig { frontends: vec![] });
    assert!(empty.pick().is_none());
    let one = FrontendMgr::new(&FrontendMgrConfig {
        frontends: vec![FrontendConfig {
            domain: String::from("f1.example"),
            http_port: 80,
            https_port: 443,
            public_ip: IpAddr::V4(1, 2, 3, 4),
            private_ip: IpAddr::V4(10, 0, 0, 1),
        }],
    });
    let picked = one.pick().expect("one frontend to pick from");
    assert_eq!(picked.id.as_str(), "10.0.0.1:80");
}

#[test]
fn backend_checksum_is_pure_and_sensitive() {
    let a = BackendMgr::new(&two_backends());
    let b = BackendMgr::new(&two_backends());
    assert_eq!(a.checksum(), b.checksum());
    let mut three = two_backends();
    three.backends.push(backend_cfg("10.0.1.3:8080", IpAddr::V4(10, 0, 1, 3), 8080));
    let c = BackendMgr::new(&three);
    assert_ne!(a.checksum(), c.checksum());
}

#[test]
fn backend_pick_is_deterministic() {
    let a = BackendMgr::new(&two_backends());
    let b = BackendMgr::new(&two_backends());
    let pa = a.pick_with(7).expect("non-empty set");
    let pb = b.pick_with(7).expect("non-empty set");
    assert_eq!(pa.id.as_str(), pb.id.as_str());
    // The pick walks the ascending id list at hash mod len.
    assert_eq!(a.pick_with(0).unwrap().id.as_str(), "10.0.1.1:8080");
    assert_eq!(a.pick_with(1).unwrap().id.as_str(), "10.0.1.2:8080");
    assert_eq!(a.pick_with(2).unwrap().id.as_str(), "10.0.1.1:8080");
    let none = BackendMgr::new(&BackendMgrConfig { backends: vec![] });
    assert!(none.pick_with(5).is_none());
}

fn bundle(get_paths: Vec<&str>, ws_paths: Vec<&str>) -> PathBundle {
    PathBundle {
        ws_paths: ws_paths.into_iter().map(String::from).collect(),
        get_paths: get_paths.into_iter().map(String::from).collect(),
        post_paths: vec![],
        put_paths: vec![],
        patch_paths: vec![],
        delete_paths: vec![],
        head_paths: vec![],
        options_paths: vec![],
        trace_paths: vec![],
    }
}

#[test]
fn route_version_moves_only_on_observable_change() {
    let mut m = RouteMgr::recover(StrMap::new());
    assert_eq!(m.version(), 0);
    m.set_reverse_route_group(String::from("s1"), bundle(vec!["/a"], vec!["/w"]));
    assert_eq!(m.version(), 1);
    // The same path sets again, in another order: no observable change, no
    // version move.
    m.set_reverse_route_group(String::from("s1"), bundle(vec!["/a"], vec!["/w"]));
    assert_eq!(m.version(), 1);
    // A different bundle moves it.
    m.set_reverse_route_group(String::from("s1"), bundle(vec!["/a", "/b"], vec!["/w"]));
    assert_eq!(m.version(), 2);
    // Removing a present id moves it; removing an absent one does not.
    m.remove_reverse_route_group(&String::from("s1"));
    assert_eq!(m.version(), 3);
    m.remove_reverse_route_group(&String::from("s1"));
    assert_eq!(m.version(), 3);
}

#[test]
fn route_recover_sees_persisted_bundles() {
    let mut store: StrMap<PathBundle> = StrMap::new();
    store.insert(String::from("s1"), bundle(vec!["/a"], vec![]));
    let m = RouteMgr::recover(store);
    let entries = m.reverse_route_group_iter();
    assert_eq!(entries.len(), 1);
    assert_eq!(entries[0].0.as_str(), "s1");
    assert_eq!(entries[0].1.get_paths.len(), 1);
    assert_eq!(entries[0].1.get_paths[0].as_str(), "/a");
}

#[test]
fn topic_assign_then_locate() {
    let mut m = TopicMgr::recover(StrMap::new(), StrMap::new(), 42);
    assert!(m.locate(&String::from("t1")).is_none());
    m.assign(String::from("t1"), String::from("10.0.1.1:8080"));
    let got = m.locate(&String::from("t1")).expect("assigned topic to be located");
    assert_eq!(got.as_str(), "10.0.1.1:8080");
    // The cache answers the repeated lookup with the same assignment.
    let again = m.locate(&String::from("t1")).expect("assigned topic to be located");
    assert_eq!(again.as_str(), "10.0.1.1:8080");
}

#[test]
fn topic_table_truncated_once_on_checksum_change() {
    let mut m = TopicMgr::recover(StrMap::new(), StrMap::new(), 42);
    m.assign(String::from("t1"), String::from("10.0.1.1:8080"));
    // Same checksum: nothing is truncated.
    m.check(42);
    assert!(m.locate(&String::from("t1")).is_some());
    // A changed checksum truncates every assignment.
    m.check(43);
    assert!(m.locate(&String::from("t1")).is_none());
    // Running the check again with the same value truncates nothing more: a
    // fresh assignment survives it.
    m.assign(String::from("t2"), String::from("10.0.1.2:8080"));
    m.check(43);
    assert!(m.locate(&String::from("t2")).is_some());
}
