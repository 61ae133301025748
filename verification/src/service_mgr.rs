//! The service registry: dynamically registered services with write-through
//! persistence, heartbeat tracking, staleness eviction on read, and a version
//! counter that moves exactly when the registered set or a private endpoint
//! changes.

use vstd::prelude::*;

use crate::checksum::crc32_str;
use crate::clock::now_millis;
use crate::config::ServiceMgrConfig;
use crate::node::{stale_at, Service};
use crate::strmap::StrMap;
use crate::text::dec_u64;

verus! {

/// A version counter moves by one, on the wrapping 32-bit counter.
pub open spec fn bump(v: u32) -> u32 {
    vstd::wrapping::u32_specs::wrapping_add(v, 1)
}

/// The stored record and the offered one advertise the same private endpoint.
pub open spec fn same_endpoint(a: Service, b: Service) -> bool {
    a.private_ip == b.private_ip && a.http_port == b.http_port
}

/// The record with its heartbeat refreshed.
pub open spec fn with_active_at(s: Service, now: u32) -> Service {
    Service { id: s.id, private_ip: s.private_ip, http_port: s.http_port, active_at: now }
}

pub struct ServiceMgr {
    cache: StrMap<Service>,
    store: StrMap<Service>,
    version: u32,
}

impl ServiceMgr {
    /// The registered services, by id.
    pub closed spec fn services(&self) -> Map<Seq<char>, Service> {
        self.cache@
    }

    /// What the durable service table holds.
    pub closed spec fn store_view(&self) -> Map<Seq<char>, Service> {
        self.store@
    }

    /// The ids in registration order.
    pub closed spec fn id_seq(&self) -> Seq<Seq<char>> {
        self.cache.key_seq()
    }

    /// The current version counter.
    pub closed spec fn version_spec(&self) -> u32 {
        self.version
    }

    /// Every id maps to a record carrying that id, and the in-memory registry
    /// and the durable table agree.
    pub closed spec fn wf(&self) -> bool {
        &&& self.cache.wf()
        &&& self.store.wf()
        &&& self.cache@ == self.store@
        &&& forall|k: Seq<char>|
            #[trigger] self.cache@.contains_key(k) ==> self.cache@[k].id@ == k
    }

    /// Ids list exactly the registered services, each once.
    pub proof fn lemma_ids(&self)
        requires
            self.wf(),
        ensures
            self.id_seq().no_duplicates(),
            forall|k: Seq<char>| self.services().contains_key(k) <==> self.id_seq().contains(k),
            forall|k: Seq<char>|
                #[trigger] self.services().contains_key(k) ==> self.services()[k].id@ == k,
    {
        self.cache.lemma_dom();
        self.cache.lemma_no_dup_keys();
    }

    /// The registry and its durable table hold the same records: a fresh
    /// registry recovered from the same table (see `recover`) observes exactly
    /// the services of this one.
    pub proof fn lemma_persist_round_trip(&self)
        requires
            self.wf(),
        ensures
            self.store_view() == self.services(),
    {
    }

    /// Rebuilds the registry from its durable table, warming the whole cache.
    /// The version counter is seeded from a timestamp digest.
    pub fn recover(store: StrMap<Service>) -> (m: Self)
        requires
            store.wf(),
            forall|k: Seq<char>| #[trigger] store@.contains_key(k) ==> store@[k].id@ == k,
        ensures
            m.wf(),
            m.services() == store@,
    {
        let ms = now_millis();
        let seed = dec_u64(ms);
        let version = crc32_str(seed.as_str());
        let mut cache: StrMap<Service> = StrMap::new();
        let n = store.len();
        let mut i: usize = 0;
        while i < n
            invariant
                store.wf(),
                forall|k: Seq<char>| #[trigger] store@.contains_key(k) ==> store@[k].id@ == k,
                n == store.key_seq().len(),
                i <= n,
                cache.wf(),
                forall|k: Seq<char>|
                    #[trigger] cache@.contains_key(k) <==> store.key_seq().take(i as int).contains(
                        k,
                    ),
                forall|k: Seq<char>|
                    #[trigger] cache@.contains_key(k) ==> store@.contains_key(k) && cache@[k]
                        == store@[k],
            decreases n - i,
        {
            let ghost prev = cache@;
            let k = store.key_at(i).clone();
            let v = store.val_at(i).duplicate();
            proof {
                store.lemma_dom();
                assert(store.key_seq().contains(store.key_seq()[i as int]));
            }
            cache.insert(k, v);
            proof {
                let ks = store.key_seq();
                assert forall|q: Seq<char>|
                    #[trigger] cache@.contains_key(q) <==> ks.take(i as int + 1).contains(q) by {
                    if cache@.contains_key(q) {
                        if q == k@ {
                            assert(ks.take(i as int + 1)[i as int] == q);
                        } else {
                            let j = choose|j: int| 0 <= j < i && ks.take(i as int)[j] == q;
                            assert(ks.take(i as int + 1)[j] == q);
                        }
                    } else {
                        assert(!ks.take(i as int + 1).contains(q));
                        if ks.take(i as int + 1).contains(q) {
                        }
                    }
                }
            }
            i = i + 1;
        }
        proof {
            store.lemma_dom();
            assert(store.key_seq().take(n as int) =~= store.key_seq());
            assert(cache@ =~= store@);
        }
        ServiceMgr { cache, store, version }
    }

    /// Idempotent upsert by id. A new id or a changed private endpoint moves
    /// the version; re-announcing the same endpoint does not.
    pub fn add(&mut self, service: Service)
        requires
            old(self).wf(),
        ensures
            final(self).wf(),
            final(self).services() == old(self).services().insert(service.id@, service),
            final(self).version_spec() == (if old(self).services().contains_key(service.id@)
                && same_endpoint(old(self).services()[service.id@], service) {
                old(self).version_spec()
            } else {
                bump(old(self).version_spec())
            }),
    {
        let id = service.id.clone();
        let id2 = service.id.clone();
        let dup = service.duplicate();
        let changed: bool = match self.cache.get(&id) {
            Some(cur) => cur.private_ip != service.private_ip || cur.http_port
                != service.http_port,
            None => true,
        };
        self.cache.insert(id, service);
        self.store.insert(id2, dup);
        if changed {
            self.version = self.version.wrapping_add(1);
        }
    }

    /// Removes a service; a present id moves the version, an absent one is a
    /// no-op.
    pub fn remove(&mut self, id: &String)
        requires
            old(self).wf(),
        ensures
            final(self).wf(),
            final(self).services() == old(self).services().remove(id@),
            final(self).version_spec() == (if old(self).services().contains_key(id@) {
                bump(old(self).version_spec())
            } else {
                old(self).version_spec()
            }),
    {
        if self.cache.remove(id) {
            self.store.remove(id);
            self.version = self.version.wrapping_add(1);
        } else {
            proof {
                assert(self.store@ =~= old(self).store@.remove(id@));
            }
        }
    }

    /// Refreshes the heartbeat of a present service and re-persists it; the
    /// version does not move.
    pub fn activate(&mut self, id: &String, now: u32)
        requires
            old(self).wf(),
        ensures
            final(self).wf(),
            final(self).version_spec() == old(self).version_spec(),
            old(self).services().contains_key(id@) ==> final(self).services() == old(self).services().insert(id@, with_active_at(old(self).services()[id@], now)),
            !old(self).services().contains_key(id@) ==> final(self).services() == old(self).services(),
    {
        let upd: Option<Service> = match self.cache.get(id) {
            Some(cur) => Some(
                Service {
                    id: cur.id.clone(),
                    private_ip: cur.private_ip,
                    http_port: cur.http_port,
                    active_at: now,
                },
            ),
            None => None,
        };
        match upd {
            Some(u) => {
                let d = u.duplicate();
                self.cache.insert(id.clone(), u);
                self.store.insert(id.clone(), d);
            },
            None => {},
        }
    }

    /// Looks a service up. An id whose record has gone stale is evicted from
    /// the registry and the durable table as a side effect, and the version
    /// moves; otherwise nothing changes.
    pub fn get(&mut self, id: &String, now: u32, config: &ServiceMgrConfig) -> (r: Option<Service>)
        requires
            old(self).wf(),
        ensures
            final(self).wf(),
            ({
                let had = old(self).services().contains_key(id@);
                let was_stale = had && stale_at(
                    old(self).services()[id@].active_at,
                    now,
                    config.stale_threshold,
                );
                if !had {
                    r is None && final(self).services() == old(self).services() && final(self).version_spec() == old(self).version_spec()
                } else if was_stale {
                    r is None && final(self).services() == old(self).services().remove(id@)
                        && final(self).version_spec() == bump(old(self).version_spec())
                } else {
                    r == Some(old(self).services()[id@]) && final(self).services() == old(self).services() && final(self).version_spec() == old(self).version_spec()
                }
            }),
    {
        let found: Option<(bool, Service)> = match self.cache.get(id) {
            Some(cur) => Some((cur.is_stale(now, config), cur.duplicate())),
            None => None,
        };
        match found {
            Some((true, _cur)) => {
                self.cache.remove(id);
                self.store.remove(id);
                self.version = self.version.wrapping_add(1);
                None
            },
            Some((false, cur)) => Some(cur),
            None => None,
        }
    }

    /// A snapshot of all services, in registration order.
    pub fn iter(&self) -> (r: Vec<Service>)
        requires
            self.wf(),
        ensures
            r@.len() == self.id_seq().len(),
            forall|i: int|
                0 <= i < r@.len() ==> r@[i] == self.services()[self.id_seq()[i]],
    {
        let n = self.cache.len();
        let mut r: Vec<Service> = Vec::new();
        let mut i: usize = 0;
        while i < n
            invariant
                self.wf(),
                n == self.id_seq().len(),
                i <= n,
                r@.len() == i,
                forall|j: int| 0 <= j < i ==> r@[j] == self.services()[self.id_seq()[j]],
            decreases n - i,
        {
            let v = self.cache.val_at(i).duplicate();
            r.push(v);
            i = i + 1;
        }
        r
    }

    /// The current version counter.
    pub fn version(&self) -> (v: u32)
        ensures
            v == self.version_spec(),
    {
        self.version
    }
}

} // verus!
