//! The route registry: per-service verb-scoped path bundles with write-through
//! persistence and a version counter that moves exactly when the published
//! routes observably change.

use vstd::prelude::*;

use crate::service_mgr::bump;
use crate::strmap::StrMap;

verus! {

/// One service's verb-scoped path sets. The wire carries lists; the sets are
/// the lists read without order and without repetition.
pub struct PathBundle {
    pub ws_paths: Vec<String>,
    pub get_paths: Vec<String>,
    pub post_paths: Vec<String>,
    pub put_paths: Vec<String>,
    pub patch_paths: Vec<String>,
    pub delete_paths: Vec<String>,
    pub head_paths: Vec<String>,
    pub options_paths: Vec<String>,
    pub trace_paths: Vec<String>,
}

/// The path set a list denotes.
pub open spec fn path_set(v: Vec<String>) -> Set<Seq<char>> {
    v.deep_view().to_set()
}

/// Two bundles carry the same texts in the same places: all nine lists agree
/// character for character.
pub open spec fn bundle_same(a: &PathBundle, b: &PathBundle) -> bool {
    &&& a.ws_paths.deep_view() == b.ws_paths.deep_view()
    &&& a.get_paths.deep_view() == b.get_paths.deep_view()
    &&& a.post_paths.deep_view() == b.post_paths.deep_view()
    &&& a.put_paths.deep_view() == b.put_paths.deep_view()
    &&& a.patch_paths.deep_view() == b.patch_paths.deep_view()
    &&& a.delete_paths.deep_view() == b.delete_paths.deep_view()
    &&& a.head_paths.deep_view() == b.head_paths.deep_view()
    &&& a.options_paths.deep_view() == b.options_paths.deep_view()
    &&& a.trace_paths.deep_view() == b.trace_paths.deep_view()
}

/// Two bundles denote the same routes: all nine path sets agree.
pub open spec fn bundle_equiv(a: &PathBundle, b: &PathBundle) -> bool {
    &&& path_set(a.ws_paths) == path_set(b.ws_paths)
    &&& path_set(a.get_paths) == path_set(b.get_paths)
    &&& path_set(a.post_paths) == path_set(b.post_paths)
    &&& path_set(a.put_paths) == path_set(b.put_paths)
    &&& path_set(a.patch_paths) == path_set(b.patch_paths)
    &&& path_set(a.delete_paths) == path_set(b.delete_paths)
    &&& path_set(a.head_paths) == path_set(b.head_paths)
    &&& path_set(a.options_paths) == path_set(b.options_paths)
    &&& path_set(a.trace_paths) == path_set(b.trace_paths)
}

impl PathBundle {
    /// An equal copy.
    pub fn duplicate(&self) -> (r: Self)
        ensures
            bundle_same(&r, self),
            bundle_equiv(&r, self),
    {
        let r = PathBundle {
            ws_paths: clone_paths(&self.ws_paths),
            get_paths: clone_paths(&self.get_paths),
            post_paths: clone_paths(&self.post_paths),
            put_paths: clone_paths(&self.put_paths),
            patch_paths: clone_paths(&self.patch_paths),
            delete_paths: clone_paths(&self.delete_paths),
            head_paths: clone_paths(&self.head_paths),
            options_paths: clone_paths(&self.options_paths),
            trace_paths: clone_paths(&self.trace_paths),
        };
        r
    }
}

/// A copy of a path list whose texts are the same.
pub fn clone_paths(v: &Vec<String>) -> (r: Vec<String>)
    ensures
        r.deep_view() == v.deep_view(),
{
    let n = v.len();
    let mut r: Vec<String> = Vec::new();
    let mut i: usize = 0;
    while i < n
        invariant
            n == v@.len(),
            i <= n,
            r@.len() == i,
            forall|j: int| 0 <= j < i ==> r.deep_view()[j] == v.deep_view()[j],
        decreases n - i,
    {
        let ghost old_vec = r@;
        let s = v[i].clone();
        let ghost sv = s@;
        r.push(s);
        proof {
            assert(sv == v.deep_view()[i as int]);
            assert forall|j: int| 0 <= j < i + 1 implies r.deep_view()[j] == v.deep_view()[j] by {
                assert(r.deep_view()[j] == r@[j]@);
                if j < i {
                    assert(r@[j] == old_vec[j]);
                }
            }
        }
        i = i + 1;
    }
    proof {
        assert(r.deep_view() =~= v.deep_view());
    }
    r
}

/// Decides whether a path is in a list.
pub fn contains_path(v: &Vec<String>, p: &String) -> (r: bool)
    ensures
        r == path_set(*v).contains(p@),
{
    let n = v.len();
    let mut i: usize = 0;
    while i < n
        invariant
            n == v@.len(),
            i <= n,
            forall|j: int| 0 <= j < i ==> v.deep_view()[j] != p@,
        decreases n - i,
    {
        proof {
            assert(v.deep_view()[i as int] == v@[i as int]@);
        }
        if v[i].eq(p) {
            proof {
                assert(v.deep_view().contains(p@));
            }
            return true;
        }
        i = i + 1;
    }
    proof {
        if v.deep_view().to_set().contains(p@) {
            assert(v.deep_view().contains(p@));
        }
    }
    false
}

/// Decides whether two path lists denote the same set.
pub fn path_set_eq(a: &Vec<String>, b: &Vec<String>) -> (r: bool)
    ensures
        r == (path_set(*a) == path_set(*b)),
{
    let na = a.len();
    let mut i: usize = 0;
    while i < na
        invariant
            na == a@.len(),
            i <= na,
            forall|j: int| 0 <= j < i ==> path_set(*b).contains(a.deep_view()[j]),
        decreases na - i,
    {
        if !contains_path(b, &a[i]) {
            proof {
                assert(a.deep_view()[i as int] == a@[i as int]@);
                assert(path_set(*a).contains(a.deep_view()[i as int]));
            }
            return false;
        }
        proof {
            assert(a.deep_view()[i as int] == a@[i as int]@);
        }
        i = i + 1;
    }
    let nb = b.len();
    let mut q: usize = 0;
    while q < nb
        invariant
            nb == b@.len(),
            na == a@.len(),
            q <= nb,
            forall|j: int| 0 <= j < na ==> path_set(*b).contains(a.deep_view()[j]),
            forall|j: int| 0 <= j < q ==> path_set(*a).contains(b.deep_view()[j]),
        decreases nb - q,
    {
        if !contains_path(a, &b[q]) {
            proof {
                assert(b.deep_view()[q as int] == b@[q as int]@);
                assert(path_set(*b).contains(b.deep_view()[q as int]));
            }
            return false;
        }
        proof {
            assert(b.deep_view()[q as int] == b@[q as int]@);
        }
        q = q + 1;
    }
    proof {
        assert(path_set(*a) =~= path_set(*b)) by {
            assert forall|p: Seq<char>| path_set(*a).contains(p) implies path_set(
                *b,
            ).contains(p) by {
                assert(a.deep_view().contains(p));
                let j = choose|j: int| 0 <= j < a.deep_view().len() && a.deep_view()[j] == p;
                assert(path_set(*b).contains(a.deep_view()[j]));
            }
            assert forall|p: Seq<char>| path_set(*b).contains(p) implies path_set(
                *a,
            ).contains(p) by {
                assert(b.deep_view().contains(p));
                let j = choose|j: int| 0 <= j < b.deep_view().len() && b.deep_view()[j] == p;
                assert(path_set(*a).contains(b.deep_view()[j]));
            }
        }
    }
    true
}

/// Decides whether two bundles denote the same routes.
pub fn bundle_eq(a: &PathBundle, b: &PathBundle) -> (r: bool)
    ensures
        r == bundle_equiv(a, b),
{
    path_set_eq(&a.ws_paths, &b.ws_paths) && path_set_eq(&a.get_paths, &b.get_paths)
        && path_set_eq(&a.post_paths, &b.post_paths) && path_set_eq(&a.put_paths, &b.put_paths)
        && path_set_eq(&a.patch_paths, &b.patch_paths) && path_set_eq(
        &a.delete_paths,
        &b.delete_paths,
    ) && path_set_eq(&a.head_paths, &b.head_paths) && path_set_eq(
        &a.options_paths,
        &b.options_paths,
    ) && path_set_eq(&a.trace_paths, &b.trace_paths)
}

pub struct RouteMgr {
    cache: StrMap<PathBundle>,
    store: StrMap<PathBundle>,
    version: u32,
}

impl RouteMgr {
    /// The published bundles, by service id.
    pub closed spec fn routes(&self) -> Map<Seq<char>, PathBundle> {
        self.cache@
    }

    /// What the durable route table holds.
    pub closed spec fn store_view(&self) -> Map<Seq<char>, PathBundle> {
        self.store@
    }

    /// The service ids in publication order.
    pub closed spec fn id_seq(&self) -> Seq<Seq<char>> {
        self.cache.key_seq()
    }

    /// The current version counter.
    pub closed spec fn version_spec(&self) -> u32 {
        self.version
    }

    pub closed spec fn wf(&self) -> bool {
        &&& self.cache.wf()
        &&& self.store.wf()
        &&& self.cache@.dom() == self.store@.dom()
        &&& forall|k: Seq<char>|
            #[trigger] self.cache@.contains_key(k) ==> bundle_same(&self.cache@[k], &self.store@[k])
    }

    /// Ids list exactly the published services, each once.
    pub proof fn lemma_ids(&self)
        requires
            self.wf(),
        ensures
            self.id_seq().no_duplicates(),
            forall|k: Seq<char>| self.routes().contains_key(k) <==> self.id_seq().contains(k),
    {
        self.cache.lemma_dom();
        self.cache.lemma_no_dup_keys();
    }

    /// The registry and its durable table hold the same bundles: a fresh
    /// registry recovered from the same table (see `recover`) observes exactly
    /// the routes of this one.
    pub proof fn lemma_persist_round_trip(&self)
        requires
            self.wf(),
        ensures
            self.store_view().dom() == self.routes().dom(),
            forall|k: Seq<char>|
                #[trigger] self.routes().contains_key(k) ==> bundle_same(
                    &self.routes()[k],
                    &self.store_view()[k],
                ),
    {
    }

    /// Rebuilds the registry from its durable table; the version starts at
    /// zero.
    pub fn recover(store: StrMap<PathBundle>) -> (m: Self)
        requires
            store.wf(),
        ensures
            m.wf(),
            m.version_spec() == 0,
            forall|k: Seq<char>| m.routes().contains_key(k) <==> store@.contains_key(k),
            forall|k: Seq<char>|
                #[trigger] m.routes().contains_key(k) ==> bundle_same(&m.routes()[k], &store@[k]),
    {
        let mut cache: StrMap<PathBundle> = StrMap::new();
        let n = store.len();
        let mut i: usize = 0;
        while i < n
            invariant
                store.wf(),
                n == store.key_seq().len(),
                i <= n,
                cache.wf(),
                forall|k: Seq<char>|
                    #[trigger] cache@.contains_key(k) <==> store.key_seq().take(i as int).contains(
                        k,
                    ),
                forall|k: Seq<char>|
                    #[trigger] cache@.contains_key(k) ==> store@.contains_key(k) && bundle_same(
                        &cache@[k],
                        &store@[k],
                    ),
            decreases n - i,
        {
            let k = store.key_at(i).clone();
            let v = store.val_at(i).duplicate();
            proof {
                store.lemma_dom();
                assert(store.key_seq().contains(store.key_seq()[i as int]));
            }
            cache.insert(k, v);
            proof {
                let ks = store.key_seq();
                assert forall|q: Seq<char>|
                    #[trigger] cache@.contains_key(q) <==> ks.take(i as int + 1).contains(q) by {
                    if cache@.contains_key(q) {
                        if q == ks[i as int] {
                            assert(ks.take(i as int + 1)[i as int] == q);
                        } else {
                            let j = choose|j: int| 0 <= j < i && ks.take(i as int)[j] == q;
                            assert(ks.take(i as int + 1)[j] == q);
                        }
                    }
                }
            }
            i = i + 1;
        }
        proof {
            store.lemma_dom();
            assert(store.key_seq().take(n as int) =~= store.key_seq());
        }
        let m = RouteMgr { cache, store, version: 0 };
        proof {
            assert(m.cache@.dom() =~= m.store@.dom()) by {
                m.cache.lemma_dom();
                m.store.lemma_dom();
            }
        }
        m
    }

    /// Compare-and-swap publication: a new id or an observably different
    /// bundle is stored and moves the version; an equivalent bundle is a
    /// no-op, the version holding still.
    pub fn set_reverse_route_group(&mut self, service_id: String, pb: PathBundle)
        requires
            old(self).wf(),
        ensures
            final(self).wf(),
            ({
                let unchanged = old(self).routes().contains_key(service_id@) && bundle_equiv(
                    &old(self).routes()[service_id@],
                    &pb,
                );
                if unchanged {
                    final(self).routes() == old(self).routes() && final(self).version_spec()
                        == old(self).version_spec()
                } else {
                    final(self).routes() == old(self).routes().insert(service_id@, pb)
                        && final(self).version_spec() == bump(old(self).version_spec())
                }
            }),
            final(self).version_spec() == old(self).version_spec() ==> final(self).routes()
                == old(self).routes(),
    {
        let unchanged: bool = match self.cache.get(&service_id) {
            Some(cur) => bundle_eq(cur, &pb),
            None => false,
        };
        if !unchanged {
            let dup = pb.duplicate();
            let id2 = service_id.clone();
            self.cache.insert(service_id, pb);
            self.store.insert(id2, dup);
            self.version = self.version.wrapping_add(1);
            proof {
                assert(self.cache@.dom() =~= self.store@.dom());
            }
        }
    }

    /// Withdraws a service's routes; a present id moves the version, an absent
    /// one is a no-op.
    pub fn remove_reverse_route_group(&mut self, service_id: &String)
        requires
            old(self).wf(),
        ensures
            final(self).wf(),
            final(self).routes() == old(self).routes().remove(service_id@),
            final(self).version_spec() == (if old(self).routes().contains_key(service_id@) {
                bump(old(self).version_spec())
            } else {
                old(self).version_spec()
            }),
            final(self).version_spec() == old(self).version_spec() ==> final(self).routes()
                == old(self).routes(),
    {
        if self.cache.remove(service_id) {
            self.store.remove(service_id);
            self.version = self.version.wrapping_add(1);
            proof {
                assert(self.cache@.dom() =~= self.store@.dom());
            }
        } else {
            proof {
                assert(self.cache@ =~= old(self).cache@);
            }
        }
    }

    /// A snapshot of the published pairs, in publication order.
    pub fn reverse_route_group_iter(&self) -> (r: Vec<(String, PathBundle)>)
        requires
            self.wf(),
        ensures
            r@.len() == self.id_seq().len(),
            forall|i: int| 0 <= i < r@.len() ==> r@[i].0@ == self.id_seq()[i],
            forall|i: int|
                0 <= i < r@.len() ==> self.routes().contains_key(r@[i].0@) && bundle_same(
                    &r@[i].1,
                    &self.routes()[r@[i].0@],
                ),
    {
        let n = self.cache.len();
        let mut r: Vec<(String, PathBundle)> = Vec::new();
        let mut i: usize = 0;
        while i < n
            invariant
                self.wf(),
                n == self.id_seq().len(),
                i <= n,
                r@.len() == i,
                forall|j: int| 0 <= j < i ==> r@[j].0@ == self.id_seq()[j],
                forall|j: int|
                    0 <= j < i ==> self.routes().contains_key(r@[j].0@) && bundle_same(
                        &r@[j].1,
                        &self.routes()[r@[j].0@],
                    ),
            decreases n - i,
        {
            let k = self.cache.key_at(i).clone();
            let v = self.cache.val_at(i).duplicate();
            proof {
                self.cache.lemma_dom();
                assert(self.id_seq().contains(self.id_seq()[i as int]));
            }
            r.push((k, v));
            i = i + 1;
        }
        r
    }

    /// The current version counter.
    pub fn version(&self) -> (v: u32)
        ensures
            v == self.version_spec(),
    {
        self.version
    }
}

} // verus!
