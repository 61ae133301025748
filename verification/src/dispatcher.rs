//! The per-connection request dispatcher: one handler per connection holds who
//! the peer registered as, translates each inbound request into registry
//! operations against the shared registries, and composes exactly one response,
//! success or typed error.

use vstd::prelude::*;

use crate::addr::{ip_text, ip_to_text, is_private_v4, IpAddr};
use crate::backend_mgr::BackendMgr;
use crate::clock::{now_millis, now_seconds};
use crate::config::ServiceMgrConfig;
use crate::frontend_mgr::FrontendMgr;
use crate::node::{
    healthy_at, node_id_text, stale_at, with_backend_active_at, with_frontend_active_at, Backend,
    Frontend, NodeType, Service,
};
use crate::protocol::{request_rf, response_rf, ErrorCode, Request, Response};
use crate::route_join::{accumulate, collect_groups, gmap_of, groups_match, groups_wf, joined, serving, service_endpoint, verb_paths, Verb};
use crate::route_mgr::{bundle_same, path_set, PathBundle, RouteMgr};
use crate::protocol::RouteGroup;
use crate::service_mgr::{bump, with_active_at, ServiceMgr};
use crate::strmap::StrMap;
use crate::checksum::{crc32_of, crc32_str};
use crate::text::{dec_digits, dec_u32, dec_u64, endpoint, endpoint_text};
use crate::topic_hash::{topic_hash, topic_hash_of};
use crate::topic_mgr::TopicMgr;

verus! {

/// The process-wide registries, shared by every connection, plus the health
/// thresholds they are read under.
pub struct Registries {
    pub frontend_mgr: FrontendMgr,
    pub backend_mgr: BackendMgr,
    pub service_mgr: ServiceMgr,
    pub route_mgr: RouteMgr,
    pub topic_mgr: TopicMgr,
    pub config: ServiceMgrConfig,
}

impl Registries {
    pub open spec fn wf(&self) -> bool {
        &&& self.frontend_mgr.wf()
        &&& self.backend_mgr.wf()
        &&& self.service_mgr.wf()
        &&& self.route_mgr.wf()
        &&& self.topic_mgr.wf()
    }
}

/// A frontend map after a heartbeat refresh of one id: a present record gets
/// the new time, an absent id changes nothing.
pub open spec fn frontends_activated(
    m0: Map<Seq<char>, Frontend>,
    m1: Map<Seq<char>, Frontend>,
    id: Seq<char>,
    now: u32,
) -> bool {
    if m0.contains_key(id) {
        m1 == m0.insert(id, with_frontend_active_at(m0[id], now))
    } else {
        m1 == m0
    }
}

/// A backend map after a heartbeat refresh of one id.
pub open spec fn backends_activated(
    m0: Map<Seq<char>, Backend>,
    m1: Map<Seq<char>, Backend>,
    id: Seq<char>,
    now: u32,
) -> bool {
    if m0.contains_key(id) {
        m1 == m0.insert(id, with_backend_active_at(m0[id], now))
    } else {
        m1 == m0
    }
}

/// A service map after a heartbeat refresh of one id.
pub open spec fn services_activated(
    m0: Map<Seq<char>, Service>,
    m1: Map<Seq<char>, Service>,
    id: Seq<char>,
    now: u32,
) -> bool {
    if m0.contains_key(id) {
        m1 == m0.insert(id, with_active_at(m0[id], now))
    } else {
        m1 == m0
    }
}

/// The registries observably untouched: same frontends, backends, services,
/// routes, topics, versions and checksum.
pub open spec fn regs_unchanged(a: &Registries, b: &Registries) -> bool {
    &&& frontends_unchanged(a, b)
    &&& backends_unchanged(a, b)
    &&& services_unchanged(a, b)
    &&& routes_unchanged(a, b)
    &&& topics_unchanged(a, b)
}

pub open spec fn frontends_unchanged(a: &Registries, b: &Registries) -> bool {
    b.frontend_mgr.frontends() == a.frontend_mgr.frontends()
}

pub open spec fn backends_unchanged(a: &Registries, b: &Registries) -> bool {
    &&& b.backend_mgr.backends() == a.backend_mgr.backends()
    &&& b.backend_mgr.sorted_ids() == a.backend_mgr.sorted_ids()
    &&& b.backend_mgr.checksum_spec() == a.backend_mgr.checksum_spec()
}

pub open spec fn services_unchanged(a: &Registries, b: &Registries) -> bool {
    &&& b.service_mgr.services() == a.service_mgr.services()
    &&& b.service_mgr.version_spec() == a.service_mgr.version_spec()
}

pub open spec fn routes_unchanged(a: &Registries, b: &Registries) -> bool {
    &&& b.route_mgr.routes() == a.route_mgr.routes()
    &&& b.route_mgr.version_spec() == a.route_mgr.version_spec()
    &&& b.route_mgr.id_seq() == a.route_mgr.id_seq()
}

pub open spec fn topics_unchanged(a: &Registries, b: &Registries) -> bool {
    &&& b.topic_mgr.topics() == a.topic_mgr.topics()
    &&& b.topic_mgr.info_view() == a.topic_mgr.info_view()
}

/// The per-connection state: a stable connection id, the peer address the
/// transport observed, and what the peer registered as.
pub struct Handler {
    pub id: u32,
    pub peer_ip: IpAddr,
    pub node_type: NodeType,
    pub node_id: Option<String>,
}

/// The error text for a frontend id that configuration does not allow.
pub open spec fn not_allowed_frontend_text(id: Seq<char>) -> Seq<char> {
    "Not allowed to register this frontend: "@ + id
}

/// The error text for a backend id that configuration does not allow.
pub open spec fn not_allowed_backend_text(id: Seq<char>) -> Seq<char> {
    "Not allowed to register this backend: "@ + id
}

/// The error text for routes offered over a connection that never registered.
pub open spec fn no_node_text() -> Seq<char> {
    "The related service has not registered"@
}

/// The error text for a frontend pick from an empty set.
pub open spec fn no_frontend_text() -> Seq<char> {
    "Failed to find an available frontend."@
}

/// The error text for a request kind the dispatcher does not serve.
pub open spec fn unknown_msg_text() -> Seq<char> {
    "Received unknown msg"@
}

/// The error text for a stored topic whose backend is gone.
pub open spec fn no_backend_for_topic_text(topic: Seq<char>, backend_id: Seq<char>) -> Seq<char> {
    "Failed to find the backend: topic: "@ + topic + ", backend_id: "@ + backend_id
}

/// The error text for a topic placement with no backend to pick from.
pub open spec fn no_backend_text(topic: Seq<char>) -> Seq<char> {
    "Failed to find an available backend: topic: "@ + topic
}

impl Handler {
    /// A fresh connection: peer known, identity not yet registered.
    pub fn new(id: u32, peer_ip: IpAddr) -> (h: Self)
        ensures
            h.id == id,
            h.peer_ip == peer_ip,
            h.node_type == NodeType::Unknown,
            h.node_id is None,
    {
        Handler { id, peer_ip, node_type: NodeType::Unknown, node_id: None }
    }

    /// Refreshes the heartbeat of the registry record this connection
    /// registered as; a connection without an identity touches nothing.
    pub fn activate_node(&self, regs: &mut Registries, now: u32)
        requires
            old(regs).wf(),
        ensures
            final(regs).wf(),
            final(regs).config == old(regs).config,
            routes_unchanged(old(regs), final(regs)),
            topics_unchanged(old(regs), final(regs)),
            backends_unchanged(old(regs), final(regs)) || (self.node_type == NodeType::Backend
                && self.node_id is Some),
            frontends_unchanged(old(regs), final(regs)) || (self.node_type == NodeType::Frontend
                && self.node_id is Some),
            services_unchanged(old(regs), final(regs)) || (self.node_type == NodeType::Service
                && self.node_id is Some),
            match self.node_id {
                Some(id) => {
                    &&& (self.node_type == NodeType::Frontend ==> frontends_activated(
                        old(regs).frontend_mgr.frontends(),
                        final(regs).frontend_mgr.frontends(),
                        id@,
                        now,
                    ))
                    &&& (self.node_type == NodeType::Backend ==> backends_activated(
                        old(regs).backend_mgr.backends(),
                        final(regs).backend_mgr.backends(),
                        id@,
                        now,
                    ))
                    &&& (self.node_type == NodeType::Service ==> services_activated(
                        old(regs).service_mgr.services(),
                        final(regs).service_mgr.services(),
                        id@,
                        now,
                    ))
                    &&& (self.node_type == NodeType::Unknown ==> regs_unchanged(
                        old(regs),
                        final(regs),
                    ))
                },
                None => regs_unchanged(old(regs), final(regs)),
            },
    {
        match &self.node_id {
            Some(id) => {
                match self.node_type {
                    NodeType::Frontend => regs.frontend_mgr.activate(id, now),
                    NodeType::Backend => regs.backend_mgr.activate(id, now),
                    NodeType::Service => regs.service_mgr.activate(id, now),
                    NodeType::Unknown => {},
                }
            },
            None => {},
        }
    }

    /// Serves a ping: refreshes the heartbeat of the registered identity and
    /// answers with a pong carrying the tag back.
    pub fn handle_ping_req(&self, regs: &mut Registries, rf: u32, now: u32) -> (r: Response)
        requires
            old(regs).wf(),
        ensures
            final(regs).wf(),
            final(regs).config == old(regs).config,
            r == (Response::Pong { rf }),
            routes_unchanged(old(regs), final(regs)),
            topics_unchanged(old(regs), final(regs)),
            match self.node_id {
                Some(id) => {
                    &&& (self.node_type == NodeType::Service ==> services_activated(
                        old(regs).service_mgr.services(),
                        final(regs).service_mgr.services(),
                        id@,
                        now,
                    ))
                    &&& (self.node_type != NodeType::Service ==> services_unchanged(
                        old(regs),
                        final(regs),
                    ))
                },
                None => regs_unchanged(old(regs), final(regs)),
            },
    {
        self.activate_node(regs, now);
        Response::Pong { rf }
    }

    /// Serves a frontend registration: the candidate id is the peer address
    /// with the advertised port; the connection records it as its identity
    /// either way, and only a pre-declared id is acknowledged.
    pub fn handle_register_frontend_req(
        &mut self,
        regs: &Registries,
        http_port: u32,
        rf: u32,
    ) -> (r: Response)
        requires
            regs.wf(),
        ensures
            final(self).id == old(self).id,
            final(self).peer_ip == old(self).peer_ip,
            final(self).node_type == NodeType::Frontend,
            (final(self).node_id matches Some(id) && id@ == node_id_text(
                old(self).peer_ip,
                http_port,
            )),
            ({
                let candidate = node_id_text(old(self).peer_ip, http_port);
                if regs.frontend_mgr.frontends().contains_key(candidate) {
                    r == (Response::RegisterFrontendRep { rf })
                } else {
                    r matches Response::ErrorRep { code, desc, rf: rfo } && code
                        == ErrorCode::NotAllowedToRegisterFrontend && desc@
                        == not_allowed_frontend_text(candidate) && rfo == rf
                }
            }),
    {
        let candidate = crate::node::build_node_id(&self.peer_ip, http_port);
        self.node_type = NodeType::Frontend;
        self.node_id = Some(candidate.clone());
        match regs.frontend_mgr.get(&candidate) {
            Some(_f) => Response::RegisterFrontendRep { rf },
            None => {
                proof {
                    reveal_strlit("Not allowed to register this frontend: ");
                }
                let mut desc = String::from_str("Not allowed to register this frontend: ");
                desc.append(candidate.as_str());
                Response::ErrorRep {
                    code: ErrorCode::NotAllowedToRegisterFrontend,
                    desc,
                    rf,
                }
            },
        }
    }

    /// Serves a backend registration, symmetric to the frontend one.
    pub fn handle_register_backend_req(
        &mut self,
        regs: &Registries,
        http_port: u32,
        rf: u32,
    ) -> (r: Response)
        requires
            regs.wf(),
        ensures
            final(self).id == old(self).id,
            final(self).peer_ip == old(self).peer_ip,
            final(self).node_type == NodeType::Backend,
            (final(self).node_id matches Some(id) && id@ == node_id_text(
                old(self).peer_ip,
                http_port,
            )),
            ({
                let candidate = node_id_text(old(self).peer_ip, http_port);
                if regs.backend_mgr.backends().contains_key(candidate) {
                    r == (Response::RegisterBackendRep { rf })
                } else {
                    r matches Response::ErrorRep { code, desc, rf: rfo } && code
                        == ErrorCode::NotAllowedToRegisterBackend && desc@
                        == not_allowed_backend_text(candidate) && rfo == rf
                }
            }),
    {
        let candidate = crate::node::build_node_id(&self.peer_ip, http_port);
        self.node_type = NodeType::Backend;
        self.node_id = Some(candidate.clone());
        match regs.backend_mgr.get(&candidate) {
            Some(_b) => Response::RegisterBackendRep { rf },
            None => {
                proof {
                    reveal_strlit("Not allowed to register this backend: ");
                }
                let mut desc = String::from_str("Not allowed to register this backend: ");
                desc.append(candidate.as_str());
                Response::ErrorRep {
                    code: ErrorCode::NotAllowedToRegisterBackend,
                    desc,
                    rf,
                }
            },
        }
    }

    /// Serves a service registration: a service built from the peer address,
    /// the advertised port and the current time is upserted, and the
    /// connection records the id as its identity.
    pub fn handle_register_service_req(
        &mut self,
        regs: &mut Registries,
        http_port: u32,
        rf: u32,
        now: u32,
    ) -> (r: Response)
        requires
            old(regs).wf(),
        ensures
            final(regs).wf(),
            final(regs).config == old(regs).config,
            r == (Response::RegisterServiceRep { rf }),
            final(self).id == old(self).id,
            final(self).peer_ip == old(self).peer_ip,
            final(self).node_type == NodeType::Service,
            (final(self).node_id matches Some(id) && id@ == node_id_text(
                old(self).peer_ip,
                http_port,
            )),
            frontends_unchanged(old(regs), final(regs)),
            backends_unchanged(old(regs), final(regs)),
            routes_unchanged(old(regs), final(regs)),
            topics_unchanged(old(regs), final(regs)),
            ({
                let idt = node_id_text(old(self).peer_ip, http_port);
                let m0 = old(regs).service_mgr.services();
                let m1 = final(regs).service_mgr.services();
                &&& m1.contains_key(idt)
                &&& m1[idt].id@ == idt
                &&& m1[idt].private_ip == old(self).peer_ip
                &&& m1[idt].http_port == http_port
                &&& m1[idt].active_at == now
                &&& forall|k: Seq<char>|
                    k != idt ==> (#[trigger] m1.contains_key(k) <==> m0.contains_key(k))
                &&& forall|k: Seq<char>|
                    k != idt && #[trigger] m1.contains_key(k) ==> m1[k] == m0[k]
                &&& final(regs).service_mgr.version_spec() == (if m0.contains_key(idt) && m0[
                    idt
                ].private_ip == old(self).peer_ip && m0[idt].http_port == http_port {
                    old(regs).service_mgr.version_spec()
                } else {
                    bump(old(regs).service_mgr.version_spec())
                })
            }),
    {
        let service = Service::new(self.peer_ip, http_port, now);
        self.node_type = NodeType::Service;
        self.node_id = Some(service.id.clone());
        regs.service_mgr.add(service);
        Response::RegisterServiceRep { rf }
    }

    /// Serves a routes offer: a connection with a registered identity has its
    /// bundle published under that id; one without gets the typed error.
    pub fn handle_set_routes_req(
        &self,
        regs: &mut Registries,
        bundle: PathBundle,
        rf: u32,
    ) -> (r: Response)
        requires
            old(regs).wf(),
        ensures
            final(regs).wf(),
            final(regs).config == old(regs).config,
            frontends_unchanged(old(regs), final(regs)),
            backends_unchanged(old(regs), final(regs)),
            services_unchanged(old(regs), final(regs)),
            topics_unchanged(old(regs), final(regs)),
            match self.node_id {
                Some(id) => {
                    let unchanged = old(regs).route_mgr.routes().contains_key(id@)
                        && crate::route_mgr::bundle_equiv(
                        &old(regs).route_mgr.routes()[id@],
                        &bundle,
                    );
                    &&& r == (Response::SetRoutesRep { rf })
                    &&& (if unchanged {
                        final(regs).route_mgr.routes() == old(regs).route_mgr.routes()
                            && final(regs).route_mgr.version_spec() == old(regs).route_mgr.version_spec()
                    } else {
                        final(regs).route_mgr.routes() == old(regs).route_mgr.routes().insert(
                            id@,
                            bundle,
                        ) && final(regs).route_mgr.version_spec() == bump(
                            old(regs).route_mgr.version_spec(),
                        )
                    })
                },
                None => {
                    &&& routes_unchanged(old(regs), final(regs))
                    &&& r matches Response::ErrorRep { code, desc, rf: rfo } && code
                        == ErrorCode::MasterError && desc@ == no_node_text() && rfo == rf
                },
            },
    {
        match &self.node_id {
            Some(id) => {
                regs.route_mgr.set_reverse_route_group(id.clone(), bundle);
                Response::SetRoutesRep { rf }
            },
            None => {
                proof {
                    reveal_strlit("The related service has not registered");
                }
                Response::ErrorRep {
                    code: ErrorCode::MasterError,
                    desc: String::from_str("The related service has not registered"),
                    rf,
                }
            },
        }
    }

    /// Serves a topic-distribution checksum request: the precomputed
    /// backend-set checksum, read-only.
    pub fn handle_get_topic_dist_checksum_req(&self, regs: &Registries, rf: u32) -> (r: Response)
        ensures
            r == (Response::GetTopicDistChecksumRep {
                checksum: regs.backend_mgr.checksum_spec(),
                rf,
            }),
    {
        Response::GetTopicDistChecksumRep { checksum: regs.backend_mgr.checksum(), rf }
    }

    /// Serves a frontend pick: one frontend drawn at random, steered by peer
    /// locality: a private IPv4 peer gets the private address, every other
    /// peer (IPv6 included) the public one. An empty set gets the typed error.
    pub fn handle_pick_frontend_req(&self, regs: &Registries, rf: u32) -> (r: Response)
        requires
            regs.wf(),
        ensures
            regs.frontend_mgr.id_seq().len() == 0 ==> (r matches Response::ErrorRep {
                code,
                desc,
                rf: rfo,
            } && code == ErrorCode::FailedToPickFrontend && desc@ == no_frontend_text() && rfo
                == rf),
            regs.frontend_mgr.id_seq().len() > 0 ==> (r matches Response::PickFrontendRep {
                endpoint,
                rf: rfo,
            } && rfo == rf && exists|i: int|
                0 <= i < regs.frontend_mgr.id_seq().len() && endpoint@ == picked_endpoint(
                    regs.frontend_mgr.frontends()[regs.frontend_mgr.id_seq()[i]],
                    self.peer_ip,
                )),
    {
        match regs.frontend_mgr.pick() {
            Some(frontend) => {
                let ip = if ip_is_private_v4_ref(&self.peer_ip) {
                    &frontend.private_ip
                } else {
                    &frontend.public_ip
                };
                let ipt = ip_to_text(ip);
                let ep = endpoint(ipt.as_str(), frontend.http_port);
                Response::PickFrontendRep { endpoint: ep, rf }
            },
            None => {
                proof {
                    reveal_strlit("Failed to find an available frontend.");
                }
                Response::ErrorRep {
                    code: ErrorCode::FailedToPickFrontend,
                    desc: String::from_str("Failed to find an available frontend."),
                    rf,
                }
            },
        }
    }

    /// Serves a topic location. A stored assignment is answered from the
    /// registry; an unassigned topic is deterministically placed on the
    /// backend at `hash(topic) mod backend-count`, stored, and answered; an
    /// empty backend set, or a stored assignment whose backend is gone, gets
    /// the typed error.
    pub fn handle_locate_topic_req(
        &self,
        regs: &mut Registries,
        topic: String,
        rf: u32,
    ) -> (r: Response)
        requires
            old(regs).wf(),
        ensures
            final(regs).wf(),
            final(regs).config == old(regs).config,
            frontends_unchanged(old(regs), final(regs)),
            backends_unchanged(old(regs), final(regs)),
            services_unchanged(old(regs), final(regs)),
            routes_unchanged(old(regs), final(regs)),
            final(regs).topic_mgr.info_view() == old(regs).topic_mgr.info_view(),
            ({
                let topics0 = old(regs).topic_mgr.topics();
                let bm = &old(regs).backend_mgr;
                if topics0.contains_key(topic@) {
                    let bid = topics0[topic@];
                    &&& final(regs).topic_mgr.topics() == topics0
                    &&& (if bm.backends().contains_key(bid) {
                        r matches Response::LocateTopicRep { endpoint, rf: rfo } && endpoint@
                            == endpoint_text(
                            ip_text(bm.backends()[bid].private_ip),
                            bm.backends()[bid].http_port as nat,
                        ) && rfo == rf
                    } else {
                        r matches Response::ErrorRep { code, desc, rf: rfo } && code
                            == ErrorCode::FailedToLocateTopic && desc@ == no_backend_for_topic_text(
                            topic@,
                            bid,
                        ) && rfo == rf
                    })
                } else if bm.sorted_ids().len() == 0 {
                    &&& final(regs).topic_mgr.topics() == topics0
                    &&& r matches Response::ErrorRep { code, desc, rf: rfo } && code
                        == ErrorCode::FailedToLocateTopic && desc@ == no_backend_text(topic@)
                        && rfo == rf
                } else {
                    let bid = bm.sorted_ids()[(topic_hash(topic@) as int) % (
                    bm.sorted_ids().len() as int)];
                    &&& final(regs).topic_mgr.topics() == topics0.insert(topic@, bid)
                    &&& r matches Response::LocateTopicRep { endpoint, rf: rfo } && endpoint@
                        == endpoint_text(
                        ip_text(bm.backends()[bid].private_ip),
                        bm.backends()[bid].http_port as nat,
                    ) && rfo == rf
                }
            }),
    {
        let located = regs.topic_mgr.locate(&topic);
        match located {
            Some(backend_id) => {
                match regs.backend_mgr.get(&backend_id) {
                    Some(backend) => {
                        let ep = backend.private_endpoint();
                        Response::LocateTopicRep { endpoint: ep, rf }
                    },
                    None => {
                        proof {
                            reveal_strlit("Failed to find the backend: topic: ");
                            reveal_strlit(", backend_id: ");
                        }
                        let mut desc = String::from_str("Failed to find the backend: topic: ");
                        desc.append(topic.as_str());
                        desc.append(", backend_id: ");
                        desc.append(backend_id.as_str());
                        Response::ErrorRep { code: ErrorCode::FailedToLocateTopic, desc, rf }
                    },
                }
            },
            None => {
                let h = topic_hash_of(topic.as_str());
                match regs.backend_mgr.pick_with(h) {
                    Some(backend) => {
                        let ep = backend.private_endpoint();
                        regs.topic_mgr.assign(topic, backend.id);
                        Response::LocateTopicRep { endpoint: ep, rf }
                    },
                    None => {
                        proof {
                            reveal_strlit("Failed to find an available backend: topic: ");
                        }
                        let mut desc = String::from_str(
                            "Failed to find an available backend: topic: ",
                        );
                        desc.append(topic.as_str());
                        Response::ErrorRep { code: ErrorCode::FailedToLocateTopic, desc, rf }
                    },
                }
            },
        }
    }

    /// Serves an address resolution: the peer's observed IP address as text.
    pub fn handle_resolve_ip_req(&self, rf: u32) -> (r: Response)
        ensures
            (r matches Response::ResolveIpRep { ip, rf: rfo } && ip@ == ip_text(self.peer_ip)
                && rfo == rf),
    {
        Response::ResolveIpRep { ip: ip_to_text(&self.peer_ip), rf }
    }
}

/// The endpoint a picked frontend is reported under, by peer locality.
pub open spec fn picked_endpoint(f: Frontend, peer: IpAddr) -> Seq<char> {
    if is_private_v4(peer) {
        endpoint_text(ip_text(f.private_ip), f.http_port as nat)
    } else {
        endpoint_text(ip_text(f.public_ip), f.http_port as nat)
    }
}

/// Decides IPv4 private locality of the peer.
fn ip_is_private_v4_ref(ip: &IpAddr) -> (r: bool)
    ensures
        r == is_private_v4(*ip),
{
    crate::addr::ip_is_private_v4(ip)
}



/// The nine per-verb route group lists of one readout.
pub struct RouteGroupLists {
    pub ws: Vec<RouteGroup>,
    pub get: Vec<RouteGroup>,
    pub post: Vec<RouteGroup>,
    pub put: Vec<RouteGroup>,
    pub patch: Vec<RouteGroup>,
    pub delete: Vec<RouteGroup>,
    pub head: Vec<RouteGroup>,
    pub options: Vec<RouteGroup>,
    pub trace: Vec<RouteGroup>,
}

/// One readout performed at time `now` against the registries as they stood:
/// the nine lists present the join of every published bundle with its
/// service's health, and every id whose service was gone or stale is evicted
/// from both the service registry and the route registry, each eviction moving
/// the owning version counter once. This is also the readout invariant: after
/// the pass, every id the route registry still lists is backed by a present,
/// non-stale service, and every other listed id is gone from both registries.
pub open spec fn readout_ok(
    o: &Registries,
    f: &Registries,
    lists: &RouteGroupLists,
    now: u32,
) -> bool {
    let entries = route_entries(&o.route_mgr);
    let services0 = o.service_mgr.services();
    let routes0 = o.route_mgr.routes();
    let uth = o.config.unhealthy_threshold;
    let sth = o.config.stale_threshold;
    &&& groups_match(lists.ws@, joined(entries, services0, now, uth, sth, Verb::Ws))
    &&& groups_match(lists.get@, joined(entries, services0, now, uth, sth, Verb::Get))
    &&& groups_match(lists.post@, joined(entries, services0, now, uth, sth, Verb::Post))
    &&& groups_match(lists.put@, joined(entries, services0, now, uth, sth, Verb::Put))
    &&& groups_match(lists.patch@, joined(entries, services0, now, uth, sth, Verb::Patch))
    &&& groups_match(lists.delete@, joined(entries, services0, now, uth, sth, Verb::Delete))
    &&& groups_match(lists.head@, joined(entries, services0, now, uth, sth, Verb::Head))
    &&& groups_match(lists.options@, joined(entries, services0, now, uth, sth, Verb::Options))
    &&& groups_match(lists.trace@, joined(entries, services0, now, uth, sth, Verb::Trace))
    &&& forall|k: Seq<char>|
        (#[trigger] f.service_mgr.services().contains_key(k)) <==> (services0.contains_key(k)
            && !evicted_in(entries, services0, now, sth, k))
    &&& forall|k: Seq<char>|
        #[trigger] f.service_mgr.services().contains_key(k) ==> f.service_mgr.services()[k]
            == services0[k]
    &&& f.service_mgr.version_spec() == bump_n(
        o.service_mgr.version_spec(),
        stale_count(entries, services0, now, sth),
    )
    &&& forall|k: Seq<char>|
        (#[trigger] f.route_mgr.routes().contains_key(k)) <==> (routes0.contains_key(k) && serving(
            services0,
            k,
            now,
            sth,
        ))
    &&& forall|k: Seq<char>|
        #[trigger] f.route_mgr.routes().contains_key(k) ==> f.route_mgr.routes()[k] == routes0[k]
    &&& f.route_mgr.version_spec() == bump_n(
        o.route_mgr.version_spec(),
        dead_seq(entries, services0, now, sth).len(),
    )
}

/// Performs the route readout join: scans
/// the published entries, folds each served bundle into the nine group maps,
/// and garbage-collects every id whose service was gone or stale from both
/// registries.
pub fn read_routes(regs: &mut Registries, now: u32) -> (lists: RouteGroupLists)
    requires
        old(regs).wf(),
    ensures
        final(regs).wf(),
        final(regs).config == old(regs).config,
        frontends_unchanged(old(regs), final(regs)),
        backends_unchanged(old(regs), final(regs)),
        topics_unchanged(old(regs), final(regs)),
        readout_ok(old(regs), final(regs), &lists, now),
{
        proof {
            regs.route_mgr.lemma_ids();
        }
        let ghost entries0 = route_entries(&regs.route_mgr);
        let ghost services0 = regs.service_mgr.services();
        let ghost routes0 = regs.route_mgr.routes();
        let ghost ids0 = regs.route_mgr.id_seq();
        let ghost v0 = regs.service_mgr.version_spec();
        let ghost rv0 = regs.route_mgr.version_spec();
        let ghost uth = regs.config.unhealthy_threshold;
        let ghost sth = regs.config.stale_threshold;

        let entries = regs.route_mgr.reverse_route_group_iter();
        proof {
            assert(entries@.len() == entries0.len());
            assert forall|q: int| 0 <= q < entries0.len() implies entries@[q].0@ == entries0[q].0
                && bundle_same(&entries@[q].1, &entries0[q].1) && entries0[q].0 == ids0[q] by {
                assert(entries0[q] == (ids0[q], routes0[ids0[q]]));
                assert(entries@[q].0@ == ids0[q]);
            }
            assert forall|i2: int, j2: int|
                0 <= i2 < j2 < entries0.len() implies (#[trigger] entries0[i2]).0 != (
                #[trigger] entries0[j2]).0 by {
                assert(entries0[i2].0 == ids0[i2]);
                assert(entries0[j2].0 == ids0[j2]);
            }
        }
        let mut stale: Vec<String> = Vec::new();
        let mut g_ws: StrMap<RouteGroup> = StrMap::new();
        let mut g_get: StrMap<RouteGroup> = StrMap::new();
        let mut g_post: StrMap<RouteGroup> = StrMap::new();
        let mut g_put: StrMap<RouteGroup> = StrMap::new();
        let mut g_patch: StrMap<RouteGroup> = StrMap::new();
        let mut g_delete: StrMap<RouteGroup> = StrMap::new();
        let mut g_head: StrMap<RouteGroup> = StrMap::new();
        let mut g_options: StrMap<RouteGroup> = StrMap::new();
        let mut g_trace: StrMap<RouteGroup> = StrMap::new();
        let n = entries.len();
        let mut i: usize = 0;
        proof {
            assert(entries0.take(0) =~= Seq::<(Seq<char>, PathBundle)>::empty());
            assert(stale.deep_view() =~= Seq::<Seq<char>>::empty());
        }
        while i < n
            invariant
                n == entries@.len(),
                entries@.len() == entries0.len(),
                i <= n,
                forall|q: int|
                    0 <= q < entries0.len() ==> (#[trigger] entries@[q]).0@ == entries0[q].0
                        && bundle_same(&entries@[q].1, &entries0[q].1),
                forall|i2: int, j2: int|
                    0 <= i2 < j2 < entries0.len() ==> (#[trigger] entries0[i2]).0 != (
                    #[trigger] entries0[j2]).0,
                regs.config == old(regs).config,
                uth == old(regs).config.unhealthy_threshold,
                sth == old(regs).config.stale_threshold,
                services0 == old(regs).service_mgr.services(),
                v0 == old(regs).service_mgr.version_spec(),
                entries0 == route_entries(&old(regs).route_mgr),
                frontends_unchanged(old(regs), regs),
                backends_unchanged(old(regs), regs),
                topics_unchanged(old(regs), regs),
                routes_unchanged(old(regs), regs),
                regs.frontend_mgr.wf(),
                regs.backend_mgr.wf(),
                regs.route_mgr.wf(),
                regs.topic_mgr.wf(),
                regs.service_mgr.wf(),
                forall|k: Seq<char>|
                    (#[trigger] regs.service_mgr.services().contains_key(k)) <==> (
                    services0.contains_key(k) && !evicted_in(
                        entries0.take(i as int),
                        services0,
                        now,
                        sth,
                        k,
                    )),
                forall|k: Seq<char>|
                    #[trigger] regs.service_mgr.services().contains_key(k)
                        ==> regs.service_mgr.services()[k] == services0[k],
                regs.service_mgr.version_spec() == bump_n(
                    v0,
                    stale_count(entries0.take(i as int), services0, now, sth),
                ),
                stale.deep_view() == dead_seq(entries0.take(i as int), services0, now, sth),
                g_ws.wf(),
                groups_wf(g_ws@),
                gmap_of(g_ws@) == joined(entries0.take(i as int), services0, now, uth, sth, Verb::Ws),
                g_get.wf(),
                groups_wf(g_get@),
                gmap_of(g_get@) == joined(
                    entries0.take(i as int),
                    services0,
                    now,
                    uth,
                    sth,
                    Verb::Get,
                ),
                g_post.wf(),
                groups_wf(g_post@),
                gmap_of(g_post@) == joined(
                    entries0.take(i as int),
                    services0,
                    now,
                    uth,
                    sth,
                    Verb::Post,
                ),
                g_put.wf(),
                groups_wf(g_put@),
                gmap_of(g_put@) == joined(
                    entries0.take(i as int),
                    services0,
                    now,
                    uth,
                    sth,
                    Verb::Put,
                ),
                g_patch.wf(),
                groups_wf(g_patch@),
                gmap_of(g_patch@) == joined(
                    entries0.take(i as int),
                    services0,
                    now,
                    uth,
                    sth,
                    Verb::Patch,
                ),
                g_delete.wf(),
                groups_wf(g_delete@),
                gmap_of(g_delete@) == joined(
                    entries0.take(i as int),
                    services0,
                    now,
                    uth,
                    sth,
                    Verb::Delete,
                ),
                g_head.wf(),
                groups_wf(g_head@),
                gmap_of(g_head@) == joined(
                    entries0.take(i as int),
                    services0,
                    now,
                    uth,
                    sth,
                    Verb::Head,
                ),
                g_options.wf(),
                groups_wf(g_options@),
                gmap_of(g_options@) == joined(
                    entries0.take(i as int),
                    services0,
                    now,
                    uth,
                    sth,
                    Verb::Options,
                ),
                g_trace.wf(),
                groups_wf(g_trace@),
                gmap_of(g_trace@) == joined(
                    entries0.take(i as int),
                    services0,
                    now,
                    uth,
                    sth,
                    Verb::Trace,
                ),
            decreases n - i,
        {
            let ghost pre = entries0.take(i as int);
            let ghost post = entries0.take(i as int + 1);
            let ghost idv = entries0[i as int].0;
            proof {
                assert(post.drop_last() =~= pre);
                assert(post.last() == entries0[i as int]);
                assert(!contains_id(pre, idv)) by {
                    if contains_id(pre, idv) {
                        let q = choose|q: int| 0 <= q < pre.len() && (#[trigger] pre[q]).0 == idv;
                        assert(entries0[q].0 == idv);
                        assert(entries0[i as int].0 == idv);
                    }
                }
                assert forall|k: Seq<char>| evicted_in(pre, services0, now, sth, k)
                    implies #[trigger] evicted_in(post, services0, now, sth, k) by {
                    let q = choose|q: int| 0 <= q < pre.len() && (#[trigger] pre[q]).0 == k;
                    assert(post[q].0 == k);
                }
            }
            let id = &entries[i].0;
            proof {
                assert(id@ == idv);
            }
            let got = regs.service_mgr.get(id, now, &regs.config);
            match got {
                None => {
                    let ghost old_stale = stale.deep_view();
                    stale.push(id.clone());
                    proof {
                        assert(!serving(services0, idv, now, sth));
                        assert(stale.deep_view() =~= old_stale.push(idv));
                        assert(dead_seq(post, services0, now, sth) =~= dead_seq(
                            pre,
                            services0,
                            now,
                            sth,
                        ).push(idv));
                        assert(joined(post, services0, now, uth, sth, Verb::Ws) == joined(
                            pre,
                            services0,
                            now,
                            uth,
                            sth,
                            Verb::Ws,
                        ));
                        assert(joined(post, services0, now, uth, sth, Verb::Get) == joined(
                            pre,
                            services0,
                            now,
                            uth,
                            sth,
                            Verb::Get,
                        ));
                        assert(joined(post, services0, now, uth, sth, Verb::Post) == joined(
                            pre,
                            services0,
                            now,
                            uth,
                            sth,
                            Verb::Post,
                        ));
                        assert(joined(post, services0, now, uth, sth, Verb::Put) == joined(
                            pre,
                            services0,
                            now,
                            uth,
                            sth,
                            Verb::Put,
                        ));
                        assert(joined(post, services0, now, uth, sth, Verb::Patch) == joined(
                            pre,
                            services0,
                            now,
                            uth,
                            sth,
                            Verb::Patch,
                        ));
                        assert(joined(post, services0, now, uth, sth, Verb::Delete) == joined(
                            pre,
                            services0,
                            now,
                            uth,
                            sth,
                            Verb::Delete,
                        ));
                        assert(joined(post, services0, now, uth, sth, Verb::Head) == joined(
                            pre,
                            services0,
                            now,
                            uth,
                            sth,
                            Verb::Head,
                        ));
                        assert(joined(post, services0, now, uth, sth, Verb::Options) == joined(
                            pre,
                            services0,
                            now,
                            uth,
                            sth,
                            Verb::Options,
                        ));
                        assert(joined(post, services0, now, uth, sth, Verb::Trace) == joined(
                            pre,
                            services0,
                            now,
                            uth,
                            sth,
                            Verb::Trace,
                        ));
                        if services0.contains_key(idv) {
                            assert(stale_count(post, services0, now, sth) == stale_count(
                                pre,
                                services0,
                                now,
                                sth,
                            ) + 1);
                            assert forall|k: Seq<char>|
                                (#[trigger] regs.service_mgr.services().contains_key(k)) <==> (
                                services0.contains_key(k) && !evicted_in(
                                    post,
                                    services0,
                                    now,
                                    sth,
                                    k,
                                )) by {
                                if k == idv {
                                    assert(contains_id(post, idv));
                                } else if evicted_in(post, services0, now, sth, k) && !evicted_in(
                                    pre,
                                    services0,
                                    now,
                                    sth,
                                    k,
                                ) {
                                    let q = choose|q: int|
                                        0 <= q < post.len() && (#[trigger] post[q]).0 == k;
                                    assert(q == i as int);
                                }
                            }
                        } else {
                            assert(stale_count(post, services0, now, sth) == stale_count(
                                pre,
                                services0,
                                now,
                                sth,
                            ));
                            assert forall|k: Seq<char>|
                                (#[trigger] regs.service_mgr.services().contains_key(k)) <==> (
                                services0.contains_key(k) && !evicted_in(
                                    post,
                                    services0,
                                    now,
                                    sth,
                                    k,
                                )) by {
                                if evicted_in(post, services0, now, sth, k) && !evicted_in(
                                    pre,
                                    services0,
                                    now,
                                    sth,
                                    k,
                                ) {
                                    let q = choose|q: int|
                                        0 <= q < post.len() && (#[trigger] post[q]).0 == k;
                                    assert(q == i as int);
                                }
                            }
                        }
                    }
                },
                Some(svc) => {
                    proof {
                        assert(services0.contains_key(idv));
                        assert(svc == services0[idv]);
                        assert(serving(services0, idv, now, sth));
                        assert(dead_seq(post, services0, now, sth) =~= dead_seq(
                            pre,
                            services0,
                            now,
                            sth,
                        ));
                        assert(stale_count(post, services0, now, sth) == stale_count(
                            pre,
                            services0,
                            now,
                            sth,
                        ));
                        assert forall|k: Seq<char>|
                            evicted_in(post, services0, now, sth, k) implies evicted_in(
                            pre,
                            services0,
                            now,
                            sth,
                            k,
                        ) by {
                            let q = choose|q: int| 0 <= q < post.len() && (#[trigger] post[q]).0 == k;
                            if q == i as int {
                                assert(!stale_at(services0[idv].active_at, now, sth));
                            } else {
                                assert(pre[q].0 == k);
                            }
                        }
                    }
                    let healthy = svc.is_healthy(now, &regs.config);
                    let ep = svc.private_endpoint();
                    proof {
                        assert(ep@ == service_endpoint(services0[idv]));
                        assert(bundle_same(&entries@[i as int].1, &entries0[i as int].1));
                    }
                    accumulate(&mut g_ws, &entries[i].1.ws_paths, &ep, healthy);
                    accumulate(&mut g_get, &entries[i].1.get_paths, &ep, healthy);
                    accumulate(&mut g_post, &entries[i].1.post_paths, &ep, healthy);
                    accumulate(&mut g_put, &entries[i].1.put_paths, &ep, healthy);
                    accumulate(&mut g_patch, &entries[i].1.patch_paths, &ep, healthy);
                    accumulate(&mut g_delete, &entries[i].1.delete_paths, &ep, healthy);
                    accumulate(&mut g_head, &entries[i].1.head_paths, &ep, healthy);
                    accumulate(&mut g_options, &entries[i].1.options_paths, &ep, healthy);
                    accumulate(&mut g_trace, &entries[i].1.trace_paths, &ep, healthy);
                    proof {
                        let pb0 = entries0[i as int].1;
                        let pbx = entries@[i as int].1;
                        assert(path_set(pbx.ws_paths) =~= path_set(verb_paths(pb0, Verb::Ws)));
                        assert(path_set(pbx.get_paths) =~= path_set(verb_paths(pb0, Verb::Get)));
                        assert(path_set(pbx.post_paths) =~= path_set(
                            verb_paths(pb0, Verb::Post),
                        ));
                        assert(path_set(pbx.put_paths) =~= path_set(verb_paths(pb0, Verb::Put)));
                        assert(path_set(pbx.patch_paths) =~= path_set(
                            verb_paths(pb0, Verb::Patch),
                        ));
                        assert(path_set(pbx.delete_paths) =~= path_set(
                            verb_paths(pb0, Verb::Delete),
                        ));
                        assert(path_set(pbx.head_paths) =~= path_set(
                            verb_paths(pb0, Verb::Head),
                        ));
                        assert(path_set(pbx.options_paths) =~= path_set(
                            verb_paths(pb0, Verb::Options),
                        ));
                        assert(path_set(pbx.trace_paths) =~= path_set(
                            verb_paths(pb0, Verb::Trace),
                        ));
                    }
                },
            }
            i = i + 1;
        }
        proof {
            assert(entries0.take(n as int) =~= entries0);
            lemma_dead_seq_props(entries0, services0, now, sth);
            old(regs).route_mgr.lemma_ids();
            assert forall|q: int|
                0 <= q < dead_seq(entries0, services0, now, sth).len() implies routes0.contains_key(
                #[trigger] dead_seq(entries0, services0, now, sth)[q],
            ) by {
                let k = dead_seq(entries0, services0, now, sth)[q];
                let w = choose|w: int| 0 <= w < entries0.len() && (#[trigger] entries0[w]).0 == k;
                assert(entries0[w].0 == old(regs).route_mgr.id_seq()[w]);
                assert(old(regs).route_mgr.id_seq().contains(k));
            }
        }
        let ghost services1 = regs.service_mgr.services();
        let ghost sv1 = regs.service_mgr.version_spec();
        let ghost ds = dead_seq(entries0, services0, now, sth);
        let m = stale.len();
        let mut j: usize = 0;
        proof {
            assert(ds.take(0) =~= Seq::<Seq<char>>::empty());
        }
        while j < m
            invariant
                m == stale@.len(),
                stale.deep_view() == ds,
                ds == dead_seq(entries0, services0, now, sth),
                j <= m,
                ds.no_duplicates(),
                forall|q: int|
                    0 <= q < ds.len() ==> contains_id(entries0, #[trigger] ds[q]) && !serving(
                        services0,
                        ds[q],
                        now,
                        sth,
                    ),
                forall|q: int| 0 <= q < ds.len() ==> routes0.contains_key(#[trigger] ds[q]),
                forall|i2: int, j2: int|
                    0 <= i2 < j2 < entries0.len() ==> (#[trigger] entries0[i2]).0 != (
                    #[trigger] entries0[j2]).0,
                regs.config == old(regs).config,
                entries0 == route_entries(&old(regs).route_mgr),
                routes0 == old(regs).route_mgr.routes(),
                rv0 == old(regs).route_mgr.version_spec(),
                frontends_unchanged(old(regs), regs),
                backends_unchanged(old(regs), regs),
                topics_unchanged(old(regs), regs),
                regs.frontend_mgr.wf(),
                regs.backend_mgr.wf(),
                regs.route_mgr.wf(),
                regs.topic_mgr.wf(),
                regs.service_mgr.wf(),
                regs.service_mgr.services() == services1,
                regs.service_mgr.version_spec() == sv1,
                forall|k: Seq<char>|
                    (#[trigger] services1.contains_key(k)) <==> (services0.contains_key(k)
                        && !evicted_in(entries0, services0, now, sth, k)),
                forall|k: Seq<char>|
                    (#[trigger] regs.route_mgr.routes().contains_key(k)) <==> (
                    routes0.contains_key(k) && !ds.take(j as int).contains(k)),
                forall|k: Seq<char>|
                    #[trigger] regs.route_mgr.routes().contains_key(k)
                        ==> regs.route_mgr.routes()[k] == routes0[k],
                regs.route_mgr.version_spec() == bump_n(rv0, j as nat),
            decreases m - j,
        {
            let sid = &stale[j];
            proof {
                assert(stale.deep_view()[j as int] == stale@[j as int]@);
                assert(sid@ == ds[j as int]);
                assert(!services1.contains_key(sid@)) by {
                    if services0.contains_key(sid@) {
                        assert(evicted_in(entries0, services0, now, sth, sid@));
                    }
                }
                assert(routes0.contains_key(sid@));
                assert(!ds.take(j as int).contains(sid@)) by {
                    if ds.take(j as int).contains(sid@) {
                        let q = choose|q: int|
                            0 <= q < j && #[trigger] ds.take(j as int)[q] == sid@;
                        assert(ds[q] == sid@);
                        assert(ds[j as int] == sid@);
                    }
                }
                assert(regs.route_mgr.routes().contains_key(sid@));
            }
            let ghost sm_pre = regs.service_mgr.services();
            regs.service_mgr.remove(sid);
            proof {
                assert(regs.service_mgr.services() =~= sm_pre);
            }
            let ghost rm_pre = regs.route_mgr.routes();
            regs.route_mgr.remove_reverse_route_group(sid);
            proof {
                assert forall|k: Seq<char>|
                    #[trigger] ds.take(j as int + 1).contains(k) <==> (ds.take(
                    j as int,
                ).contains(k) || k == ds[j as int]) by {
                    if ds.take(j as int + 1).contains(k) {
                        let q = choose|q: int|
                            0 <= q < j + 1 && #[trigger] ds.take(j as int + 1)[q] == k;
                        if q < j {
                            assert(ds.take(j as int)[q] == k);
                        } else {
                            assert(ds[j as int] == k);
                        }
                    }
                    if ds.take(j as int).contains(k) {
                        let q = choose|q: int| 0 <= q < j && #[trigger] ds.take(j as int)[q] == k;
                        assert(ds.take(j as int + 1)[q] == k);
                    }
                    if k == ds[j as int] {
                        assert(ds.take(j as int + 1)[j as int] == k);
                    }
                }
                assert(regs.route_mgr.routes() == rm_pre.remove(sid@));
                assert forall|k: Seq<char>|
                    (#[trigger] regs.route_mgr.routes().contains_key(k)) <==> (
                    routes0.contains_key(k) && !ds.take(j as int + 1).contains(k)) by {
                    assert(regs.route_mgr.routes().contains_key(k) <==> rm_pre.contains_key(k) && k
                        != sid@);
                }
            }
            j = j + 1;
        }
        proof {
            assert(ds.take(m as int) =~= ds);
            old(regs).route_mgr.lemma_ids();
            assert forall|k: Seq<char>|
                (#[trigger] regs.route_mgr.routes().contains_key(k)) <==> (routes0.contains_key(k)
                    && serving(services0, k, now, sth)) by {
                if routes0.contains_key(k) && !serving(services0, k, now, sth) {
                    assert(old(regs).route_mgr.id_seq().contains(k));
                    let q = choose|q: int|
                        0 <= q < old(regs).route_mgr.id_seq().len() && #[trigger] old(
                            regs,
                        ).route_mgr.id_seq()[q] == k;
                    assert(entries0[q].0 == k);
                    assert(contains_id(entries0, k));
                    assert(ds.contains(k));
                }
                if regs.route_mgr.routes().contains_key(k) {
                    assert(!ds.contains(k));
                    if !serving(services0, k, now, sth) {
                        assert(routes0.contains_key(k));
                    }
                }
                if routes0.contains_key(k) && serving(services0, k, now, sth) {
                    assert(!ds.contains(k)) by {
                        if ds.contains(k) {
                            let q = choose|q: int| 0 <= q < ds.len() && ds[q] == k;
                        }
                    }
                }
            }
        }
        RouteGroupLists {
            ws: collect_groups(&g_ws),
            get: collect_groups(&g_get),
            post: collect_groups(&g_post),
            put: collect_groups(&g_put),
            patch: collect_groups(&g_patch),
            delete: collect_groups(&g_delete),
            head: collect_groups(&g_head),
            options: collect_groups(&g_options),
            trace: collect_groups(&g_trace),
        }
    }

impl Handler {
    /// Serves a routes readout: the join of every published bundle with its
    /// service's health, with stale ids garbage-collected from both registries
    /// (see `readout_ok`).
    pub fn handle_get_routes_req(&self, regs: &mut Registries, rf: u32, now: u32) -> (r: Response)
        requires
            old(regs).wf(),
        ensures
            final(regs).wf(),
            final(regs).config == old(regs).config,
            frontends_unchanged(old(regs), final(regs)),
            backends_unchanged(old(regs), final(regs)),
            topics_unchanged(old(regs), final(regs)),
            (r matches Response::GetRoutesRep {
                ws_route_groups,
                get_route_groups,
                post_route_groups,
                put_route_groups,
                patch_route_groups,
                delete_route_groups,
                head_route_groups,
                options_route_groups,
                trace_route_groups,
                rf: rfo,
            } && rfo == rf && readout_ok(
                old(regs),
                final(regs),
                &(RouteGroupLists {
                    ws: ws_route_groups,
                    get: get_route_groups,
                    post: post_route_groups,
                    put: put_route_groups,
                    patch: patch_route_groups,
                    delete: delete_route_groups,
                    head: head_route_groups,
                    options: options_route_groups,
                    trace: trace_route_groups,
                }),
                now,
            )),
    {
        let lists = read_routes(regs, now);
        Response::GetRoutesRep {
            ws_route_groups: lists.ws,
            get_route_groups: lists.get,
            post_route_groups: lists.post,
            put_route_groups: lists.put,
            patch_route_groups: lists.patch,
            delete_route_groups: lists.delete,
            head_route_groups: lists.head,
            options_route_groups: lists.options,
            trace_route_groups: lists.trace,
            rf,
        }
    }
}


/// The entry's service is present, fresh and healthy.
pub open spec fn entry_ok(
    services: Map<Seq<char>, Service>,
    id: Seq<char>,
    now: u32,
    unhealthy_threshold: u32,
    stale_threshold: u32,
) -> bool {
    serving(services, id, now, stale_threshold) && healthy_at(
        services[id].active_at,
        now,
        unhealthy_threshold,
    )
}

/// The place of the first entry whose service is gone, stale or unhealthy.
pub open spec fn first_bad(
    entries: Seq<(Seq<char>, PathBundle)>,
    services: Map<Seq<char>, Service>,
    now: u32,
    unhealthy_threshold: u32,
    stale_threshold: u32,
) -> Option<int>
    decreases entries.len(),
{
    if entries.len() == 0 {
        None
    } else if !entry_ok(services, entries[0].0, now, unhealthy_threshold, stale_threshold) {
        Some(0)
    } else {
        match first_bad(
            entries.drop_first(),
            services,
            now,
            unhealthy_threshold,
            stale_threshold,
        ) {
            None => None,
            Some(i) => Some(i + 1),
        }
    }
}

/// A scan that found every entry fine names no first bad place.
pub proof fn lemma_first_bad_none(
    entries: Seq<(Seq<char>, PathBundle)>,
    services: Map<Seq<char>, Service>,
    now: u32,
    unhealthy_threshold: u32,
    stale_threshold: u32,
)
    requires
        forall|q: int|
            0 <= q < entries.len() ==> entry_ok(
                services,
                (#[trigger] entries[q]).0,
                now,
                unhealthy_threshold,
                stale_threshold,
            ),
    ensures
        first_bad(entries, services, now, unhealthy_threshold, stale_threshold) is None,
    decreases entries.len(),
{
    if entries.len() > 0 {
        assert(entries[0].0 == entries[0].0);
        assert forall|q: int| 0 <= q < entries.drop_first().len() implies entry_ok(
            services,
            (#[trigger] entries.drop_first()[q]).0,
            now,
            unhealthy_threshold,
            stale_threshold,
        ) by {
            assert(entries.drop_first()[q] == entries[q + 1]);
        }
        lemma_first_bad_none(
            entries.drop_first(),
            services,
            now,
            unhealthy_threshold,
            stale_threshold,
        );
    }
}

/// A scan that found the entries fine up to a bad one names that place first.
pub proof fn lemma_first_bad_at(
    entries: Seq<(Seq<char>, PathBundle)>,
    services: Map<Seq<char>, Service>,
    now: u32,
    unhealthy_threshold: u32,
    stale_threshold: u32,
    i: int,
)
    requires
        0 <= i < entries.len(),
        forall|q: int|
            0 <= q < i ==> entry_ok(
                services,
                (#[trigger] entries[q]).0,
                now,
                unhealthy_threshold,
                stale_threshold,
            ),
        !entry_ok(services, entries[i].0, now, unhealthy_threshold, stale_threshold),
    ensures
        first_bad(entries, services, now, unhealthy_threshold, stale_threshold) == Some(i),
    decreases i,
{
    if i == 0 {
    } else {
        assert(entries[0].0 == entries[0].0);
        assert forall|q: int| 0 <= q < i - 1 implies entry_ok(
            services,
            (#[trigger] entries.drop_first()[q]).0,
            now,
            unhealthy_threshold,
            stale_threshold,
        ) by {
            assert(entries.drop_first()[q] == entries[q + 1]);
        }
        assert(entries.drop_first()[i - 1] == entries[i]);
        lemma_first_bad_at(
            entries.drop_first(),
            services,
            now,
            unhealthy_threshold,
            stale_threshold,
            i - 1,
        );
    }
}

/// The freshness seed: the route version and either the constant one, while
/// every referenced service was healthy, or the present millisecond time.
pub open spec fn seed_text(version: u32, all_healthy: bool, now_ms: u64) -> Seq<char> {
    dec_digits(version as nat) + seq![','] + (if all_healthy {
        dec_digits(1)
    } else {
        dec_digits(now_ms as nat)
    })
}

impl Handler {
    /// Serves a route-distribution checksum request: scans the published ids
    /// until the first one whose service is gone, stale or unhealthy,
    /// garbage-collects a gone or stale finding from both registries, and
    /// digests `"<route_version>,<1 or now-in-millis>"` — a stable checksum
    /// while the fleet is healthy, an always-changing one otherwise.
    pub fn handle_get_route_dist_checksum_req(
        &self,
        regs: &mut Registries,
        rf: u32,
        now: u32,
        now_ms: u64,
    ) -> (r: Response)
        requires
            old(regs).wf(),
        ensures
            final(regs).wf(),
            final(regs).config == old(regs).config,
            frontends_unchanged(old(regs), final(regs)),
            backends_unchanged(old(regs), final(regs)),
            topics_unchanged(old(regs), final(regs)),
            ({
                let entries = route_entries(&old(regs).route_mgr);
                let services0 = old(regs).service_mgr.services();
                let routes0 = old(regs).route_mgr.routes();
                let uth = old(regs).config.unhealthy_threshold;
                let sth = old(regs).config.stale_threshold;
                match first_bad(entries, services0, now, uth, sth) {
                    None => {
                        &&& services_unchanged(old(regs), final(regs))
                        &&& routes_unchanged(old(regs), final(regs))
                        &&& r == (Response::GetRouteDistChecksumRep {
                            checksum: crc32_of(
                                seed_text(old(regs).route_mgr.version_spec(), true, now_ms),
                            ),
                            rf,
                        })
                    },
                    Some(i) => {
                        let id = entries[i].0;
                        if serving(services0, id, now, sth) {
                            // present but unhealthy: nothing is collected
                            &&& services_unchanged(old(regs), final(regs))
                            &&& routes_unchanged(old(regs), final(regs))
                            &&& r == (Response::GetRouteDistChecksumRep {
                                checksum: crc32_of(
                                    seed_text(old(regs).route_mgr.version_spec(), false, now_ms),
                                ),
                                rf,
                            })
                        } else {
                            &&& final(regs).service_mgr.services() == services0.remove(id)
                            &&& final(regs).service_mgr.version_spec() == (
                            if services0.contains_key(id) {
                                bump(old(regs).service_mgr.version_spec())
                            } else {
                                old(regs).service_mgr.version_spec()
                            })
                            &&& final(regs).route_mgr.routes() == routes0.remove(id)
                            &&& final(regs).route_mgr.version_spec() == bump(
                                old(regs).route_mgr.version_spec(),
                            )
                            &&& r == (Response::GetRouteDistChecksumRep {
                                checksum: crc32_of(
                                    seed_text(final(regs).route_mgr.version_spec(), false, now_ms),
                                ),
                                rf,
                            })
                        }
                    },
                }
            }),
    {
        proof {
            regs.route_mgr.lemma_ids();
        }
        let ghost entries0 = route_entries(&regs.route_mgr);
        let ghost services0 = regs.service_mgr.services();
        let ghost routes0 = regs.route_mgr.routes();
        let ghost ids0 = regs.route_mgr.id_seq();
        let ghost uth = regs.config.unhealthy_threshold;
        let ghost sth = regs.config.stale_threshold;
        let entries = regs.route_mgr.reverse_route_group_iter();
        proof {
            assert forall|q: int| 0 <= q < entries0.len() implies (#[trigger] entries@[q]).0@
                == entries0[q].0 && entries0[q].0 == ids0[q] by {
                assert(entries0[q] == (ids0[q], routes0[ids0[q]]));
            }
            assert forall|i2: int, j2: int|
                0 <= i2 < j2 < entries0.len() implies (#[trigger] entries0[i2]).0 != (
                #[trigger] entries0[j2]).0 by {
                assert(entries0[i2].0 == ids0[i2]);
                assert(entries0[j2].0 == ids0[j2]);
            }
        }
        let n = entries.len();
        let mut i: usize = 0;
        let mut all_healthy: bool = true;
        let mut collected: Option<String> = None;
        while i < n
            invariant_except_break
                all_healthy,
                collected is None,
                n == entries@.len(),
                entries@.len() == entries0.len(),
                i <= n,
                forall|q: int|
                    0 <= q < entries0.len() ==> (#[trigger] entries@[q]).0@ == entries0[q].0,
                forall|i2: int, j2: int|
                    0 <= i2 < j2 < entries0.len() ==> (#[trigger] entries0[i2]).0 != (
                    #[trigger] entries0[j2]).0,
                services0 == old(regs).service_mgr.services(),
                routes0 == old(regs).route_mgr.routes(),
                entries0 == route_entries(&old(regs).route_mgr),
                ids0 == old(regs).route_mgr.id_seq(),
                uth == old(regs).config.unhealthy_threshold,
                sth == old(regs).config.stale_threshold,
                regs.config == old(regs).config,
                regs_unchanged(old(regs), regs),
                regs.wf(),
                old(regs).wf(),
                forall|q: int|
                    0 <= q < i ==> entry_ok(
                        services0,
                        (#[trigger] entries0[q]).0,
                        now,
                        uth,
                        sth,
                    ),
            ensures
                regs.config == old(regs).config,
                old(regs).wf(),
                regs.frontend_mgr.wf(),
                regs.backend_mgr.wf(),
                regs.route_mgr.wf(),
                regs.topic_mgr.wf(),
                regs.service_mgr.wf(),
                frontends_unchanged(old(regs), regs),
                backends_unchanged(old(regs), regs),
                topics_unchanged(old(regs), regs),
                routes_unchanged(old(regs), regs),
                services0 == old(regs).service_mgr.services(),
                routes0 == old(regs).route_mgr.routes(),
                entries0 == route_entries(&old(regs).route_mgr),
                ids0 == old(regs).route_mgr.id_seq(),
                uth == old(regs).config.unhealthy_threshold,
                sth == old(regs).config.stale_threshold,
                ({
                    if all_healthy {
                        &&& forall|q: int|
                            0 <= q < entries0.len() ==> entry_ok(
                                services0,
                                (#[trigger] entries0[q]).0,
                                now,
                                uth,
                                sth,
                            )
                        &&& collected is None
                        &&& services_unchanged(old(regs), regs)
                    } else {
                        &&& i < n
                        &&& first_bad(entries0, services0, now, uth, sth) == Some(i as int)
                        &&& ({
                            let id = entries0[i as int].0;
                            if serving(services0, id, now, sth) {
                                collected is None && services_unchanged(old(regs), regs)
                            } else {
                                &&& (collected matches Some(c) && c@ == id)
                                &&& regs.service_mgr.services() == services0.remove(id)
                                &&& regs.service_mgr.version_spec() == (
                                if services0.contains_key(id) {
                                    bump(old(regs).service_mgr.version_spec())
                                } else {
                                    old(regs).service_mgr.version_spec()
                                })
                            }
                        })
                    }
                }),
            decreases n - i,
        {
            let ghost idv = entries0[i as int].0;
            let id = &entries[i].0;
            proof {
                assert(id@ == idv);
            }
            let got = regs.service_mgr.get(id, now, &regs.config);
            match got {
                Some(svc) => {
                    proof {
                        assert(svc == services0[idv]);
                    }
                    if !svc.is_healthy(now, &regs.config) {
                        all_healthy = false;
                        proof {
                            lemma_first_bad_at(entries0, services0, now, uth, sth, i as int);
                        }
                        break ;
                    }
                    proof {
                        assert(entry_ok(services0, idv, now, uth, sth));
                    }
                },
                None => {
                    all_healthy = false;
                    collected = Some(id.clone());
                    proof {
                        assert(!serving(services0, idv, now, sth));
                        assert(!entry_ok(services0, idv, now, uth, sth));
                        lemma_first_bad_at(entries0, services0, now, uth, sth, i as int);
                    }
                    break ;
                },
            }
            i = i + 1;
        }
        proof {
            if all_healthy {
                lemma_first_bad_none(entries0, services0, now, uth, sth);
            }
        }
        match &collected {
            Some(sid) => {
                let ghost sm_pre = regs.service_mgr.services();
                regs.service_mgr.remove(sid);
                proof {
                    assert(regs.service_mgr.services() =~= sm_pre);
                    assert(regs.service_mgr.services() == services0.remove(sid@));
                    assert(routes0.contains_key(sid@)) by {
                        let fb = first_bad(entries0, services0, now, uth, sth);
                        let b = fb->0;
                        assert(entries0[b] == (ids0[b], routes0[ids0[b]]));
                        old(regs).route_mgr.lemma_ids();
                        assert(ids0.contains(sid@));
                    }
                }
                regs.route_mgr.remove_reverse_route_group(sid);
            },
            None => {},
        }
        let version = regs.route_mgr.version();
        proof {
            reveal_strlit(",");
            assert(","@ =~= seq![',']);
        }
        let mut seed = dec_u32(version);
        seed.append(",");
        if all_healthy {
            let one = dec_u64(1);
            seed.append(one.as_str());
        } else {
            let ms = dec_u64(now_ms);
            seed.append(ms.as_str());
        }
        proof {
            assert(seed@ =~= seed_text(version, all_healthy, now_ms));
        }
        let checksum = crc32_str(seed.as_str());
        Response::GetRouteDistChecksumRep { checksum, rf }
    }

    /// Serves one inbound request: dispatches it by kind, reads the clock for
    /// the handlers that need the time, and returns exactly one response that
    /// carries the request's correlation tag back. A kind the dispatcher does
    /// not serve gets the typed unknown-message error and changes nothing.
    pub fn handle_external_msg(&mut self, regs: &mut Registries, req: Request) -> (r: Response)
        requires
            old(regs).wf(),
        ensures
            final(regs).wf(),
            final(self).peer_ip == old(self).peer_ip,
            final(self).id == old(self).id,
            response_rf(&r) == request_rf(&req),
            req is Ping ==> r is Pong,
            req is RegisterFrontend ==> (r is RegisterFrontendRep || r is ErrorRep),
            req is RegisterBackend ==> (r is RegisterBackendRep || r is ErrorRep),
            req is RegisterService ==> r is RegisterServiceRep,
            req is SetRoutes ==> (r is SetRoutesRep || r is ErrorRep),
            req is GetRoutes ==> r is GetRoutesRep,
            req is GetTopicDistChecksum ==> r == (Response::GetTopicDistChecksumRep {
                checksum: old(regs).backend_mgr.checksum_spec(),
                rf: request_rf(&req),
            }),
            req is GetRouteDistChecksum ==> r is GetRouteDistChecksumRep,
            req is PickFrontend ==> (r is PickFrontendRep || r is ErrorRep),
            req is LocateTopic ==> (r is LocateTopicRep || r is ErrorRep),
            req is ResolveIp ==> (r matches Response::ResolveIpRep { ip, rf: rfo } && ip@
                == ip_text(old(self).peer_ip)),
            req is Unknown ==> (r matches Response::ErrorRep { code, desc, rf: rfo } && code
                == ErrorCode::UnknownMsg && desc@ == unknown_msg_text()) && regs_unchanged(
                old(regs),
                final(regs),
            ),
    {
        match req {
            Request::Ping { rf } => self.handle_ping_req(regs, rf, now_seconds()),
            Request::RegisterFrontend { http_port, rf } => self.handle_register_frontend_req(
                &*regs,
                http_port,
                rf,
            ),
            Request::RegisterBackend { http_port, rf } => self.handle_register_backend_req(
                &*regs,
                http_port,
                rf,
            ),
            Request::RegisterService { http_port, rf } => {
                let now = now_seconds();
                self.handle_register_service_req(regs, http_port, rf, now)
            },
            Request::SetRoutes { bundle, rf } => self.handle_set_routes_req(regs, bundle, rf),
            Request::GetRoutes { rf } => {
                let now = now_seconds();
                self.handle_get_routes_req(regs, rf, now)
            },
            Request::GetTopicDistChecksum { rf } => self.handle_get_topic_dist_checksum_req(
                &*regs,
                rf,
            ),
            Request::GetRouteDistChecksum { rf } => {
                let now = now_seconds();
                let now_ms = now_millis();
                self.handle_get_route_dist_checksum_req(regs, rf, now, now_ms)
            },
            Request::PickFrontend { rf } => self.handle_pick_frontend_req(&*regs, rf),
            Request::LocateTopic { topic, rf } => self.handle_locate_topic_req(regs, topic, rf),
            Request::ResolveIp { rf } => self.handle_resolve_ip_req(rf),
            Request::Unknown { rf } => {
                proof {
                    reveal_strlit("Received unknown msg");
                }
                Response::ErrorRep {
                    code: ErrorCode::UnknownMsg,
                    desc: String::from_str("Received unknown msg"),
                    rf,
                }
            },
        }
    }
}


/// After one readout pass, every id the route registry listed either is backed
/// by a present, non-stale service and stays listed in both registries, or is
/// gone from both.
pub proof fn lemma_readout_invariant(
    o: &Registries,
    f: &Registries,
    lists: &RouteGroupLists,
    now: u32,
)
    requires
        o.wf(),
        readout_ok(o, f, lists, now),
    ensures
        forall|k: Seq<char>|
            #[trigger] o.route_mgr.routes().contains_key(k) ==> {
                let sth = o.config.stale_threshold;
                if serving(o.service_mgr.services(), k, now, sth) {
                    f.route_mgr.routes().contains_key(k) && f.service_mgr.services().contains_key(
                        k,
                    )
                } else {
                    !f.route_mgr.routes().contains_key(k) && !f.service_mgr.services().contains_key(
                        k,
                    )
                }
            },
{
    let entries = route_entries(&o.route_mgr);
    let services0 = o.service_mgr.services();
    let sth = o.config.stale_threshold;
    o.route_mgr.lemma_ids();
    assert forall|k: Seq<char>| #[trigger]
        o.route_mgr.routes().contains_key(k) && !serving(services0, k, now, sth) implies
        !f.route_mgr.routes().contains_key(k) && !f.service_mgr.services().contains_key(k) by {
        assert(o.route_mgr.id_seq().contains(k));
        let q = choose|q: int|
            0 <= q < o.route_mgr.id_seq().len() && #[trigger] o.route_mgr.id_seq()[q] == k;
        let idq = o.route_mgr.id_seq()[q];
        assert(entries[q] == (idq, o.route_mgr.routes()[idq]));
        assert(contains_id(entries, k));
        if services0.contains_key(k) {
            assert(evicted_in(entries, services0, now, sth, k));
        }
    }
    assert forall|k: Seq<char>| #[trigger]
        o.route_mgr.routes().contains_key(k) && serving(services0, k, now, sth) implies
        f.route_mgr.routes().contains_key(k) && f.service_mgr.services().contains_key(k) by {
        assert(services0.contains_key(k));
        if evicted_in(entries, services0, now, sth, k) {
            assert(stale_at(services0[k].active_at, now, sth));
        }
    }
}

/// The published entries in publication order: each id with its bundle.
pub open spec fn route_entries(rm: &RouteMgr) -> Seq<(Seq<char>, PathBundle)> {
    Seq::new(rm.id_seq().len(), |i: int| (rm.id_seq()[i], rm.routes()[rm.id_seq()[i]]))
}

/// An id appears among the entries.
pub open spec fn contains_id(entries: Seq<(Seq<char>, PathBundle)>, k: Seq<char>) -> bool {
    exists|i: int| 0 <= i < entries.len() && (#[trigger] entries[i]).0 == k
}

/// Reading these entries evicts the id: its record was present but stale.
pub open spec fn evicted_in(
    entries: Seq<(Seq<char>, PathBundle)>,
    services: Map<Seq<char>, Service>,
    now: u32,
    stale_threshold: u32,
    k: Seq<char>,
) -> bool {
    contains_id(entries, k) && services.contains_key(k) && stale_at(
        services[k].active_at,
        now,
        stale_threshold,
    )
}

/// How many entries hold a present but stale service.
pub open spec fn stale_count(
    entries: Seq<(Seq<char>, PathBundle)>,
    services: Map<Seq<char>, Service>,
    now: u32,
    stale_threshold: u32,
) -> nat
    decreases entries.len(),
{
    if entries.len() == 0 {
        0
    } else {
        stale_count(entries.drop_last(), services, now, stale_threshold) + (if services.contains_key(
            entries.last().0,
        ) && stale_at(services[entries.last().0].active_at, now, stale_threshold) {
            1nat
        } else {
            0nat
        })
    }
}

/// The ids whose service is gone or stale, in entry order.
pub open spec fn dead_seq(
    entries: Seq<(Seq<char>, PathBundle)>,
    services: Map<Seq<char>, Service>,
    now: u32,
    stale_threshold: u32,
) -> Seq<Seq<char>>
    decreases entries.len(),
{
    if entries.len() == 0 {
        Seq::empty()
    } else {
        dead_seq(entries.drop_last(), services, now, stale_threshold) + (if !serving(
            services,
            entries.last().0,
            now,
            stale_threshold,
        ) {
            seq![entries.last().0]
        } else {
            Seq::empty()
        })
    }
}

/// `n` wrapping increments of a version counter.
pub open spec fn bump_n(v: u32, n: nat) -> u32
    decreases n,
{
    if n == 0 {
        v
    } else {
        bump(bump_n(v, (n - 1) as nat))
    }
}

/// Every id of a dead sequence names an entry whose service is gone or stale,
/// and under distinct entry ids no id twice.
pub proof fn lemma_dead_seq_props(
    entries: Seq<(Seq<char>, PathBundle)>,
    services: Map<Seq<char>, Service>,
    now: u32,
    stale_threshold: u32,
)
    requires
        forall|i: int, j: int|
            0 <= i < j < entries.len() ==> (#[trigger] entries[i]).0 != (#[trigger] entries[j]).0,
    ensures
        dead_seq(entries, services, now, stale_threshold).no_duplicates(),
        forall|q: int|
            0 <= q < dead_seq(entries, services, now, stale_threshold).len() ==> contains_id(
                entries,
                #[trigger] dead_seq(entries, services, now, stale_threshold)[q],
            ) && !serving(
                services,
                dead_seq(entries, services, now, stale_threshold)[q],
                now,
                stale_threshold,
            ),
        forall|k: Seq<char>|
            contains_id(entries, k) && !serving(services, k, now, stale_threshold) ==> dead_seq(
                entries,
                services,
                now,
                stale_threshold,
            ).contains(k),
    decreases entries.len(),
{
    if entries.len() > 0 {
        let pre = entries.drop_last();
        lemma_dead_seq_props(pre, services, now, stale_threshold);
        let ds_pre = dead_seq(pre, services, now, stale_threshold);
        let ds = dead_seq(entries, services, now, stale_threshold);
        let lastid = entries.last().0;
        assert forall|k: Seq<char>|
            contains_id(entries, k) && !serving(services, k, now, stale_threshold) implies ds.contains(
            k,
        ) by {
            let i = choose|i: int| 0 <= i < entries.len() && (#[trigger] entries[i]).0 == k;
            if i < entries.len() - 1 {
                assert(pre[i].0 == k);
                assert(contains_id(pre, k));
                assert(ds_pre.contains(k));
                let q = choose|q: int| 0 <= q < ds_pre.len() && ds_pre[q] == k;
                assert(ds[q] == k);
            } else {
                assert(k == lastid);
                assert(ds[ds.len() - 1] == k);
            }
        }
        assert forall|q: int| 0 <= q < ds_pre.len() implies contains_id(entries, ds_pre[q])
            && ds_pre[q] != lastid by {
            let i = choose|i: int| 0 <= i < pre.len() && (#[trigger] pre[i]).0 == ds_pre[q];
            assert(entries[i].0 == ds_pre[q]);
            assert(entries[entries.len() - 1].0 == lastid);
        }
        if !serving(services, lastid, now, stale_threshold) {
            assert(ds =~= ds_pre.push(lastid));
            assert(entries[entries.len() - 1].0 == lastid);
            assert(contains_id(entries, lastid));
            assert forall|q: int| 0 <= q < ds.len() implies contains_id(entries, ds[q]) && !serving(
                services,
                ds[q],
                now,
                stale_threshold,
            ) by {
                if q < ds_pre.len() {
                    assert(ds[q] == ds_pre[q]);
                } else {
                    assert(ds[q] == lastid);
                }
            }
        } else {
            assert(ds =~= ds_pre);
            assert forall|q: int| 0 <= q < ds.len() implies contains_id(entries, ds[q]) && !serving(
                services,
                ds[q],
                now,
                stale_threshold,
            ) by {
                assert(ds[q] == ds_pre[q]);
            }
        }
    }
}

} // verus!
