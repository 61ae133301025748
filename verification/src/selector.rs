//! The HTTP frontend selector: the request surface parallel to the duplex
//! connection. Peers are steered to a frontend endpoint by a three-way
//! locality classification and the connection scheme.

use vstd::prelude::*;

use crate::addr::{addr_type_of, detect_addr_type, ip_text, ip_to_text, AddrType, IpAddr};
use crate::dispatcher::{
    no_frontend_text, read_routes, readout_ok, Registries, RouteGroupLists,
};
use crate::frontend_mgr::FrontendMgr;
use crate::node::Frontend;
use crate::protocol::{ErrorCode, RouteGroup};
use crate::text::{endpoint, endpoint_text};

verus! {

/// The reply to a single frontend pick.
pub struct AssignFrontendRep {
    pub code: ErrorCode,
    pub desc: Option<String>,
    pub endpoint: Option<String>,
}

/// The reply listing every frontend's endpoint.
pub struct GetFrontendsRep {
    pub code: ErrorCode,
    pub desc: Option<String>,
    pub endpoints: Vec<String>,
}

/// The reply to a route readout over the HTTP surface.
pub struct GetRoutesRep {
    pub code: ErrorCode,
    pub desc: Option<String>,
    pub ws_route_groups: Vec<RouteGroup>,
    pub get_route_groups: Vec<RouteGroup>,
    pub post_route_groups: Vec<RouteGroup>,
    pub put_route_groups: Vec<RouteGroup>,
    pub patch_route_groups: Vec<RouteGroup>,
    pub delete_route_groups: Vec<RouteGroup>,
    pub head_route_groups: Vec<RouteGroup>,
    pub options_route_groups: Vec<RouteGroup>,
    pub trace_route_groups: Vec<RouteGroup>,
}

/// Which pair a frontend is reported as, by locality and scheme: loopback and
/// public callers over https get the domain with the https port; private
/// callers, and loopback or http callers besides, get an IP with the http
/// port — the private IP unless the caller is public.
pub open spec fn selector_endpoint(t: AddrType, https: bool, f: Frontend) -> Seq<char> {
    match t {
        AddrType::Loopback => if https {
            endpoint_text(f.domain@, f.https_port as nat)
        } else {
            endpoint_text(ip_text(f.private_ip), f.http_port as nat)
        },
        AddrType::Private => endpoint_text(ip_text(f.private_ip), f.http_port as nat),
        AddrType::Public => if https {
            endpoint_text(f.domain@, f.https_port as nat)
        } else {
            endpoint_text(ip_text(f.public_ip), f.http_port as nat)
        },
    }
}

/// The per-request state of the HTTP surface: the caller's locality and
/// whether it came over https.
pub struct HttpHandler {
    pub addr_type: AddrType,
    pub is_https: bool,
}

impl HttpHandler {
    /// Classifies the caller; one whose address the transport could not give
    /// counts as public.
    pub fn new(peer: Option<IpAddr>, is_https: bool) -> (h: Self)
        ensures
            h.addr_type == (match peer {
                Some(ip) => addr_type_of(ip),
                None => AddrType::Public,
            }),
            h.is_https == is_https,
    {
        let addr_type = match peer {
            Some(ip) => detect_addr_type(&ip),
            None => AddrType::Public,
        };
        HttpHandler { addr_type, is_https }
    }

    /// Builds the endpoint a frontend is reported as to this caller.
    pub fn build_endpoint(&self, frontend: &Frontend) -> (r: String)
        ensures
            r@ == selector_endpoint(self.addr_type, self.is_https, *frontend),
    {
        match self.addr_type {
            AddrType::Loopback => {
                if self.is_https {
                    endpoint(frontend.domain.as_str(), frontend.https_port)
                } else {
                    let t = ip_to_text(&frontend.private_ip);
                    endpoint(t.as_str(), frontend.http_port)
                }
            },
            AddrType::Private => {
                let t = ip_to_text(&frontend.private_ip);
                endpoint(t.as_str(), frontend.http_port)
            },
            AddrType::Public => {
                if self.is_https {
                    endpoint(frontend.domain.as_str(), frontend.https_port)
                } else {
                    let t = ip_to_text(&frontend.public_ip);
                    endpoint(t.as_str(), frontend.http_port)
                }
            },
        }
    }

    /// Picks one frontend at random and reports its endpoint for this caller;
    /// an empty set gets the typed error.
    pub fn pick_frontend(&self, frontend_mgr: &FrontendMgr) -> (r: AssignFrontendRep)
        requires
            frontend_mgr.wf(),
        ensures
            frontend_mgr.id_seq().len() == 0 ==> r.code == ErrorCode::FailedToPickFrontend
                && r.endpoint is None && (r.desc matches Some(d) && d@ == no_frontend_text()),
            frontend_mgr.id_seq().len() > 0 ==> (r.code == ErrorCode::NoError && r.desc is None && (
            r.endpoint matches Some(ep) && exists|i: int|
                0 <= i < frontend_mgr.id_seq().len() && ep@ == selector_endpoint(
                    self.addr_type,
                    self.is_https,
                    frontend_mgr.frontends()[frontend_mgr.id_seq()[i]],
                ))),
    {
        match frontend_mgr.pick() {
            Some(frontend) => {
                let ep = self.build_endpoint(&frontend);
                AssignFrontendRep { code: ErrorCode::NoError, desc: None, endpoint: Some(ep) }
            },
            None => {
                proof {
                    reveal_strlit("Failed to find an available frontend.");
                }
                AssignFrontendRep {
                    code: ErrorCode::FailedToPickFrontend,
                    desc: Some(String::from_str("Failed to find an available frontend.")),
                    endpoint: None,
                }
            },
        }
    }

    /// Reports every frontend's endpoint for this caller, in registration
    /// order.
    pub fn pick_frontends(&self, frontend_mgr: &FrontendMgr) -> (r: GetFrontendsRep)
        requires
            frontend_mgr.wf(),
        ensures
            r.code == ErrorCode::NoError,
            r.desc is None,
            r.endpoints@.len() == frontend_mgr.id_seq().len(),
            forall|i: int|
                0 <= i < r.endpoints@.len() ==> r.endpoints.deep_view()[i] == selector_endpoint(
                    self.addr_type,
                    self.is_https,
                    frontend_mgr.frontends()[frontend_mgr.id_seq()[i]],
                ),
    {
        proof {
            frontend_mgr.lemma_ids();
        }
        let all = frontend_mgr.iter();
        let n = all.len();
        let mut endpoints: Vec<String> = Vec::new();
        let mut i: usize = 0;
        while i < n
            invariant
                frontend_mgr.wf(),
                n == all@.len(),
                all@.len() == frontend_mgr.id_seq().len(),
                forall|j: int|
                    0 <= j < all@.len() ==> all@[j] == frontend_mgr.frontends()[frontend_mgr.id_seq()[j]],
                i <= n,
                endpoints@.len() == i,
                forall|j: int|
                    0 <= j < i ==> endpoints.deep_view()[j] == selector_endpoint(
                        self.addr_type,
                        self.is_https,
                        frontend_mgr.frontends()[frontend_mgr.id_seq()[j]],
                    ),
            decreases n - i,
        {
            proof {
                assert(frontend_mgr.id_seq().contains(frontend_mgr.id_seq()[i as int]));
                frontend_mgr.lemma_ids();
                assert(frontend_mgr.frontends().contains_key(frontend_mgr.id_seq()[i as int]));
                assert(all@[i as int] == frontend_mgr.frontends()[frontend_mgr.id_seq()[i as int]]);
            }
            let ghost old_eps = endpoints@;
            let ghost old_dv = endpoints.deep_view();
            let ep = self.build_endpoint(&all[i]);
            let ghost epv = ep@;
            endpoints.push(ep);
            proof {
                assert forall|j: int| 0 <= j < i + 1 implies endpoints.deep_view()[j]
                    == selector_endpoint(
                    self.addr_type,
                    self.is_https,
                    frontend_mgr.frontends()[frontend_mgr.id_seq()[j]],
                ) by {
                    assert(endpoints.deep_view()[j] == endpoints@[j]@);
                    if j < i {
                        assert(endpoints@[j] == old_eps[j]);
                        assert(old_dv[j] == old_eps[j]@);
                        assert(old_eps[j]@ == selector_endpoint(
                            self.addr_type,
                            self.is_https,
                            frontend_mgr.frontends()[frontend_mgr.id_seq()[j]],
                        ));
                    } else {
                        assert(endpoints@[j]@ == epv);
                        assert(epv == selector_endpoint(
                            self.addr_type,
                            self.is_https,
                            all@[i as int],
                        ));
                        assert(all@[i as int] == frontend_mgr.frontends()[frontend_mgr.id_seq()[
                            i as int
                        ]]);
                    }
                }
            }
            i = i + 1;
        }
        GetFrontendsRep { code: ErrorCode::NoError, desc: None, endpoints }
    }

    /// Performs the route readout over the HTTP surface: the same join and the
    /// same garbage collection as the duplex request (see `readout_ok`).
    pub fn get_routes(&self, regs: &mut Registries, now: u32) -> (r: GetRoutesRep)
        requires
            old(regs).wf(),
        ensures
            final(regs).wf(),
            final(regs).config == old(regs).config,
            crate::dispatcher::frontends_unchanged(old(regs), final(regs)),
            crate::dispatcher::backends_unchanged(old(regs), final(regs)),
            crate::dispatcher::topics_unchanged(old(regs), final(regs)),
            r.code == ErrorCode::NoError,
            r.desc is None,
            readout_ok(
                old(regs),
                final(regs),
                &(RouteGroupLists {
                    ws: r.ws_route_groups,
                    get: r.get_route_groups,
                    post: r.post_route_groups,
                    put: r.put_route_groups,
                    patch: r.patch_route_groups,
                    delete: r.delete_route_groups,
                    head: r.head_route_groups,
                    options: r.options_route_groups,
                    trace: r.trace_route_groups,
                }),
                now,
            ),
    {
        let lists = read_routes(regs, now);
        GetRoutesRep {
            code: ErrorCode::NoError,
            desc: None,
            ws_route_groups: lists.ws,
            get_route_groups: lists.get,
            post_route_groups: lists.post,
            put_route_groups: lists.put,
            patch_route_groups: lists.patch,
            delete_route_groups: lists.delete,
            head_route_groups: lists.head,
            options_route_groups: lists.options,
            trace_route_groups: lists.trace,
        }
    }
}

} // verus!
