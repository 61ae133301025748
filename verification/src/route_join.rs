//! The route readout join: folding every published path bundle together with
//! the health of its service into per-path route groups, one map per verb
//! class.

use vstd::prelude::*;

use crate::addr::ip_text;
use crate::node::{healthy_at, stale_at, Service};
use crate::protocol::RouteGroup;
use crate::route_mgr::{path_set, PathBundle};
use crate::strmap::StrMap;
use crate::text::endpoint_text;

verus! {

/// The private endpoint a service publishes: `"<private_ip>:<http_port>"`.
pub open spec fn service_endpoint(s: Service) -> Seq<char> {
    endpoint_text(ip_text(s.private_ip), s.http_port as nat)
}

/// Per path, the healthy and the unhealthy endpoint lists.
pub type GroupMap = Map<Seq<char>, (Seq<Seq<char>>, Seq<Seq<char>>)>;

/// One served bundle folded into the groups of one verb class: every path of
/// the set gains the service's endpoint on its health side, other paths keep
/// their groups.
pub open spec fn extend_groups(
    m: GroupMap,
    pset: Set<Seq<char>>,
    ep: Seq<char>,
    healthy: bool,
) -> GroupMap {
    Map::new(
        |p: Seq<char>| m.contains_key(p) || pset.contains(p),
        |p: Seq<char>|
            {
                let prior = if m.contains_key(p) {
                    m[p]
                } else {
                    (Seq::<Seq<char>>::empty(), Seq::<Seq<char>>::empty())
                };
                if pset.contains(p) {
                    if healthy {
                        (prior.0.push(ep), prior.1)
                    } else {
                        (prior.0, prior.1.push(ep))
                    }
                } else {
                    prior
                }
            },
    )
}

/// An id is served: its service is present and not yet stale.
pub open spec fn serving(
    services: Map<Seq<char>, Service>,
    id: Seq<char>,
    now: u32,
    stale_threshold: u32,
) -> bool {
    services.contains_key(id) && !stale_at(services[id].active_at, now, stale_threshold)
}

/// The nine verb classes of a bundle.
#[derive(Clone, Copy, PartialEq, Eq, Structural, Debug)]
pub enum Verb {
    Ws,
    Get,
    Post,
    Put,
    Patch,
    Delete,
    Head,
    Options,
    Trace,
}

/// The path list a bundle holds for a verb class.
pub open spec fn verb_paths(pb: PathBundle, v: Verb) -> Vec<String> {
    match v {
        Verb::Ws => pb.ws_paths,
        Verb::Get => pb.get_paths,
        Verb::Post => pb.post_paths,
        Verb::Put => pb.put_paths,
        Verb::Patch => pb.patch_paths,
        Verb::Delete => pb.delete_paths,
        Verb::Head => pb.head_paths,
        Verb::Options => pb.options_paths,
        Verb::Trace => pb.trace_paths,
    }
}

/// The joined readout of one verb class over the published entries: served
/// bundles contribute their endpoint to each of their paths, entries whose
/// service is gone or stale contribute nothing.
pub open spec fn joined(
    entries: Seq<(Seq<char>, PathBundle)>,
    services: Map<Seq<char>, Service>,
    now: u32,
    unhealthy_threshold: u32,
    stale_threshold: u32,
    v: Verb,
) -> GroupMap
    decreases entries.len(),
{
    if entries.len() == 0 {
        Map::empty()
    } else {
        let prev = joined(
            entries.drop_last(),
            services,
            now,
            unhealthy_threshold,
            stale_threshold,
            v,
        );
        let id = entries.last().0;
        let pb = entries.last().1;
        if serving(services, id, now, stale_threshold) {
            extend_groups(
                prev,
                path_set(verb_paths(pb, v)),
                service_endpoint(services[id]),
                healthy_at(services[id].active_at, now, unhealthy_threshold),
            )
        } else {
            prev
        }
    }
}

/// The groups held by an accumulator, as plain endpoint lists.
pub open spec fn gmap_of(m: Map<Seq<char>, RouteGroup>) -> GroupMap {
    m.map_values(
        |g: RouteGroup| (g.healthy_endpoints.deep_view(), g.unhealthy_endpoints.deep_view()),
    )
}

/// Every group record carries the path it is stored under.
pub open spec fn groups_wf(m: Map<Seq<char>, RouteGroup>) -> bool {
    forall|p: Seq<char>| #[trigger] m.contains_key(p) ==> m[p].path@ == p
}

/// A group list presents a group map: one group per path, carrying exactly the
/// map's endpoint lists, in some order.
pub open spec fn groups_match(gs: Seq<RouteGroup>, m: GroupMap) -> bool {
    &&& forall|i: int, j: int| 0 <= i < j < gs.len() ==> gs[i].path@ != gs[j].path@
    &&& forall|i: int|
        0 <= i < gs.len() ==> #[trigger] m.contains_key(gs[i].path@)
            && gs[i].healthy_endpoints.deep_view() == m[gs[i].path@].0
            && gs[i].unhealthy_endpoints.deep_view() == m[gs[i].path@].1
    &&& forall|p: Seq<char>|
        #[trigger] m.contains_key(p) ==> exists|i: int| 0 <= i < gs.len() && gs[i].path@ == p
}

impl RouteGroup {
    /// A copy carrying the same path and the same endpoint texts.
    pub fn duplicate(&self) -> (r: Self)
        ensures
            r.path@ == self.path@,
            r.healthy_endpoints.deep_view() == self.healthy_endpoints.deep_view(),
            r.unhealthy_endpoints.deep_view() == self.unhealthy_endpoints.deep_view(),
    {
        RouteGroup {
            path: self.path.clone(),
            healthy_endpoints: crate::route_mgr::clone_paths(&self.healthy_endpoints),
            unhealthy_endpoints: crate::route_mgr::clone_paths(&self.unhealthy_endpoints),
        }
    }
}

/// The path at `i` appears among the earlier places of the list.
fn path_in_prefix(paths: &Vec<String>, i: usize) -> (r: bool)
    requires
        i < paths@.len(),
    ensures
        r == paths.deep_view().take(i as int).contains(paths.deep_view()[i as int]),
{
    let mut j: usize = 0;
    while j < i
        invariant
            i < paths@.len(),
            j <= i,
            forall|q: int| 0 <= q < j ==> paths.deep_view()[q] != paths.deep_view()[i as int],
        decreases i - j,
    {
        proof {
            assert(paths.deep_view()[j as int] == paths@[j as int]@);
            assert(paths.deep_view()[i as int] == paths@[i as int]@);
        }
        if paths[j].eq(&paths[i]) {
            proof {
                assert(paths.deep_view().take(i as int)[j as int] == paths.deep_view()[j as int]);
            }
            return true;
        }
        j = j + 1;
    }
    proof {
        if paths.deep_view().take(i as int).contains(paths.deep_view()[i as int]) {
            let q = choose|q: int|
                0 <= q < i && #[trigger] paths.deep_view().take(i as int)[q] == paths.deep_view()[
                    i as int
                ];
            assert(paths.deep_view()[q] == paths.deep_view()[i as int]);
        }
    }
    false
}

/// Folds one served bundle's paths of one verb class into the accumulator:
/// each distinct path gains the endpoint on the matching health side.
pub fn accumulate(
    groups: &mut StrMap<RouteGroup>,
    paths: &Vec<String>,
    endpoint: &String,
    healthy: bool,
)
    requires
        old(groups).wf(),
        groups_wf(old(groups)@),
    ensures
        final(groups).wf(),
        groups_wf(final(groups)@),
        gmap_of(final(groups)@) == extend_groups(
            gmap_of(old(groups)@),
            path_set(*paths),
            endpoint@,
            healthy,
        ),
{
    let n = paths.len();
    let mut i: usize = 0;
    proof {
        assert(paths.deep_view().take(0) =~= Seq::<Seq<char>>::empty());
        assert(gmap_of(groups@) =~= extend_groups(
            gmap_of(groups@),
            paths.deep_view().take(0).to_set(),
            endpoint@,
            healthy,
        ));
    }
    while i < n
        invariant
            n == paths@.len(),
            i <= n,
            groups.wf(),
            groups_wf(groups@),
            gmap_of(groups@) == extend_groups(
                gmap_of(old(groups)@),
                paths.deep_view().take(i as int).to_set(),
                endpoint@,
                healthy,
            ),
        decreases n - i,
    {
        let ghost pre = gmap_of(groups@);
        let ghost pre_set = paths.deep_view().take(i as int).to_set();
        let ghost post_set = paths.deep_view().take(i as int + 1).to_set();
        proof {
            assert(paths.deep_view()[i as int] == paths@[i as int]@);
            assert(paths.deep_view().take(i as int + 1)[i as int] == paths.deep_view()[i as int]);
            assert(post_set.contains(paths.deep_view()[i as int]));
            assert forall|p: Seq<char>| post_set.contains(p) implies pre_set.contains(p) || p
                == paths.deep_view()[i as int] by {
                let q = choose|q: int|
                    0 <= q < i + 1 && #[trigger] paths.deep_view().take(i as int + 1)[q] == p;
                if q < i {
                    assert(paths.deep_view().take(i as int)[q] == p);
                }
            }
            assert forall|p: Seq<char>| pre_set.contains(p) implies post_set.contains(p) by {
                let q = choose|q: int|
                    0 <= q < i && #[trigger] paths.deep_view().take(i as int)[q] == p;
                assert(paths.deep_view().take(i as int + 1)[q] == p);
            }
        }
        if path_in_prefix(paths, i) {
            proof {
                assert(pre_set.contains(paths.deep_view()[i as int]));
                assert(pre_set =~= post_set);
                assert(gmap_of(groups@) =~= extend_groups(
                    gmap_of(old(groups)@),
                    post_set,
                    endpoint@,
                    healthy,
                ));
            }
        } else {
            let p = &paths[i];
            let updated: RouteGroup = match groups.get(p) {
                Some(g) => {
                    let mut g2 = g.duplicate();
                    if healthy {
                        g2.healthy_endpoints.push(endpoint.clone());
                    } else {
                        g2.unhealthy_endpoints.push(endpoint.clone());
                    }
                    g2
                },
                None => {
                    let mut hs: Vec<String> = Vec::new();
                    let mut us: Vec<String> = Vec::new();
                    if healthy {
                        hs.push(endpoint.clone());
                    } else {
                        us.push(endpoint.clone());
                    }
                    let g = RouteGroup {
                        path: p.clone(),
                        healthy_endpoints: hs,
                        unhealthy_endpoints: us,
                    };
                    proof {
                        if healthy {
                            assert(g.healthy_endpoints.deep_view() =~= Seq::<
                                Seq<char>,
                            >::empty().push(endpoint@));
                            assert(g.unhealthy_endpoints.deep_view() =~= Seq::<Seq<char>>::empty());
                        } else {
                            assert(g.unhealthy_endpoints.deep_view() =~= Seq::<
                                Seq<char>,
                            >::empty().push(endpoint@));
                            assert(g.healthy_endpoints.deep_view() =~= Seq::<Seq<char>>::empty());
                        }
                    }
                    g
                },
            };
            let ghost gv = (
                updated.healthy_endpoints.deep_view(),
                updated.unhealthy_endpoints.deep_view(),
            );
            let ghost pv = paths.deep_view()[i as int];
            let ghost gmap0 = gmap_of(old(groups)@);
            proof {
                assert(!pre_set.contains(pv));
                assert(pre.contains_key(pv) <==> gmap0.contains_key(pv));
                assert(pre.contains_key(pv) ==> pre[pv] == gmap0[pv]);
                let prior = if gmap0.contains_key(pv) {
                    gmap0[pv]
                } else {
                    (Seq::<Seq<char>>::empty(), Seq::<Seq<char>>::empty())
                };
                assert(gv == (if healthy {
                    (prior.0.push(endpoint@), prior.1)
                } else {
                    (prior.0, prior.1.push(endpoint@))
                }));
            }
            let ghost pre_groups = groups@;
            groups.insert(p.clone(), updated);
            proof {
                assert(groups@ == pre_groups.insert(pv, updated));
                assert(gmap_of(groups@) =~= extend_groups(gmap0, post_set, endpoint@, healthy)) by {
                    let lhs = gmap_of(groups@);
                    let rhs = extend_groups(gmap0, post_set, endpoint@, healthy);
                    assert forall|q: Seq<char>| #[trigger] lhs.contains_key(q) implies rhs.contains_key(q)
                        && lhs[q] == rhs[q] by {
                        if q == pv {
                            assert(groups@[pv] == updated);
                            assert(lhs[q] == gv);
                            assert(post_set.contains(pv));
                            assert(rhs[q] == gv);
                        } else {
                            assert(pre_groups.contains_key(q));
                            assert(pre.contains_key(q));
                            assert(groups@[q] == pre_groups[q]);
                            assert(lhs[q] == pre[q]);
                            assert(pre_set.contains(q) <==> post_set.contains(q));
                            assert(rhs.contains_key(q));
                            let prior = if gmap0.contains_key(q) {
                                gmap0[q]
                            } else {
                                (Seq::<Seq<char>>::empty(), Seq::<Seq<char>>::empty())
                            };
                            if pre_set.contains(q) {
                                assert(pre[q] == (if healthy {
                                    (prior.0.push(endpoint@), prior.1)
                                } else {
                                    (prior.0, prior.1.push(endpoint@))
                                }));
                                assert(rhs[q] == (if healthy {
                                    (prior.0.push(endpoint@), prior.1)
                                } else {
                                    (prior.0, prior.1.push(endpoint@))
                                }));
                            } else {
                                assert(pre[q] == prior);
                                assert(rhs[q] == prior);
                            }
                        }
                    }
                    assert forall|q: Seq<char>| #[trigger] rhs.contains_key(q) implies lhs.contains_key(
                        q,
                    ) by {
                        assert(gmap0.contains_key(q) || post_set.contains(q));
                        if gmap0.contains_key(q) {
                            assert(pre.contains_key(q));
                            assert(pre_groups.contains_key(q));
                        } else if q != pv {
                            assert(pre_set.contains(q));
                            assert(pre.contains_key(q));
                            assert(pre_groups.contains_key(q));
                        }
                        assert(groups@.contains_key(q));
                    }
                }
            }
        }
        i = i + 1;
    }
    proof {
        assert(paths.deep_view().take(n as int) =~= paths.deep_view());
        assert(paths.deep_view().take(n as int).to_set() =~= path_set(*paths));
    }
}

/// Hands the accumulated groups out as a list, one group per path.
pub fn collect_groups(groups: &StrMap<RouteGroup>) -> (r: Vec<RouteGroup>)
    requires
        groups.wf(),
        groups_wf(groups@),
    ensures
        groups_match(r@, gmap_of(groups@)),
{
    proof {
        groups.lemma_dom();
        groups.lemma_no_dup_keys();
    }
    let n = groups.len();
    let mut r: Vec<RouteGroup> = Vec::new();
    let mut i: usize = 0;
    while i < n
        invariant
            groups.wf(),
            groups_wf(groups@),
            n == groups.key_seq().len(),
            i <= n,
            r@.len() == i,
            forall|j: int| 0 <= j < i ==> r@[j].path@ == groups.key_seq()[j],
            forall|j: int|
                0 <= j < i ==> groups@.contains_key(groups.key_seq()[j])
                    && r@[j].healthy_endpoints.deep_view() == gmap_of(groups@)[groups.key_seq()[j]].0
                    && r@[j].unhealthy_endpoints.deep_view() == gmap_of(groups@)[groups.key_seq()[j]].1,
        decreases n - i,
    {
        let g = groups.val_at(i).duplicate();
        proof {
            assert(groups@[groups.key_seq()[i as int]].path@ == groups.key_seq()[i as int]);
        }
        r.push(g);
        i = i + 1;
    }
    proof {
        groups.lemma_dom();
        groups.lemma_no_dup_keys();
        assert forall|i2: int| 0 <= i2 < r@.len() implies #[trigger] gmap_of(
            groups@,
        ).contains_key(r@[i2].path@) && r@[i2].healthy_endpoints.deep_view() == gmap_of(groups@)[
            r@[i2].path@
        ].0 && r@[i2].unhealthy_endpoints.deep_view() == gmap_of(groups@)[r@[i2].path@].1 by {
            assert(r@[i2].path@ == groups.key_seq()[i2]);
            assert(groups@.contains_key(groups.key_seq()[i2]));
        }
        assert forall|p: Seq<char>| #[trigger] gmap_of(groups@).contains_key(p) implies exists|j: int|
            0 <= j < r@.len() && r@[j].path@ == p by {
            assert(groups@.contains_key(p));
            assert(groups.key_seq().contains(p));
            let j = choose|j: int|
                0 <= j < groups.key_seq().len() && #[trigger] groups.key_seq()[j] == p;
            assert(r@[j].path@ == p);
        }
        assert forall|i2: int, j2: int| 0 <= i2 < j2 < r@.len() implies r@[i2].path@ != r@[j2].path@
            by {
            assert(r@[i2].path@ == groups.key_seq()[i2]);
            assert(r@[j2].path@ == groups.key_seq()[j2]);
        }
    }
    r
}

} // verus!
