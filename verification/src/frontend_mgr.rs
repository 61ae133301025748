//! The frontend registry: built once from configuration, never persisted,
//! membership frozen at start-up. Offers heartbeat refresh, lookup, and a
//! random pick for steering callers.

use vstd::prelude::*;

use crate::config::{FrontendConfig, FrontendMgrConfig};
use crate::node::{node_id_text, with_frontend_active_at, Frontend};
use crate::strmap::StrMap;

verus! {

/// Relies on `rand::Rng::gen_range` on a thread-local generator: a drawn index
/// below `len`. An empty range makes the generator panic, so the length must
/// be positive. Nothing more can be said of a random value.
#[verifier::external_body]
fn random_index(len: usize) -> (r: usize)
    requires
        len > 0,
    ensures
        r < len,
{
    rand::Rng::gen_range(&mut rand::thread_rng(), 0..len)
}

/// The registry record equals what one configuration entry declares, with a
/// zero heartbeat.
pub open spec fn frontend_matches(f: Frontend, c: FrontendConfig) -> bool {
    &&& f.id@ == node_id_text(c.private_ip, c.http_port)
    &&& f.domain@ == c.domain@
    &&& f.public_ip == c.public_ip
    &&& f.private_ip == c.private_ip
    &&& f.http_port == c.http_port
    &&& f.https_port == c.https_port
    &&& f.active_at == 0
}

/// The effective configuration: entry after entry, the later one winning a
/// repeated id.
pub open spec fn frontend_config_map(cfgs: Seq<FrontendConfig>) -> Map<Seq<char>, FrontendConfig>
    decreases cfgs.len(),
{
    if cfgs.len() == 0 {
        Map::empty()
    } else {
        frontend_config_map(cfgs.drop_last()).insert(
            node_id_text(cfgs.last().private_ip, cfgs.last().http_port),
            cfgs.last(),
        )
    }
}

pub struct FrontendMgr {
    frontends: StrMap<Frontend>,
}

impl FrontendMgr {
    /// The registered frontends, by id.
    pub closed spec fn frontends(&self) -> Map<Seq<char>, Frontend> {
        self.frontends@
    }

    /// The ids in registration order.
    pub closed spec fn id_seq(&self) -> Seq<Seq<char>> {
        self.frontends.key_seq()
    }

    pub closed spec fn wf(&self) -> bool {
        &&& self.frontends.wf()
        &&& forall|k: Seq<char>|
            #[trigger] self.frontends@.contains_key(k) ==> self.frontends@[k].id@ == k
    }

    /// Ids list exactly the registered frontends, each once.
    pub proof fn lemma_ids(&self)
        requires
            self.wf(),
        ensures
            self.id_seq().no_duplicates(),
            forall|k: Seq<char>| self.frontends().contains_key(k) <==> self.id_seq().contains(k),
    {
        self.frontends.lemma_dom();
        self.frontends.lemma_no_dup_keys();
    }

    /// Builds the registry from configuration. It holds exactly the configured
    /// frontends, the last entry winning a repeated id.
    pub fn new(config: &FrontendMgrConfig) -> (m: Self)
        ensures
            m.wf(),
            m.frontends().dom() == frontend_config_map(config.frontends@).dom(),
            forall|k: Seq<char>|
                #[trigger] m.frontends().contains_key(k) ==> frontend_matches(
                    m.frontends()[k],
                    frontend_config_map(config.frontends@)[k],
                ),
    {
        let n = config.frontends.len();
        let mut frontends: StrMap<Frontend> = StrMap::new();
        let mut i: usize = 0;
        while i < n
            invariant
                n == config.frontends@.len(),
                i <= n,
                frontends.wf(),
                forall|k: Seq<char>|
                    #[trigger] frontends@.contains_key(k) ==> frontends@[k].id@ == k,
                frontends@.dom() == frontend_config_map(config.frontends@.take(i as int)).dom(),
                forall|k: Seq<char>|
                    #[trigger] frontends@.contains_key(k) ==> frontend_matches(
                        frontends@[k],
                        frontend_config_map(config.frontends@.take(i as int))[k],
                    ),
            decreases n - i,
        {
            let c = &config.frontends[i];
            let f = Frontend::new(
                c.domain.clone(),
                c.public_ip,
                c.private_ip,
                c.http_port,
                c.https_port,
            );
            let id = f.id.clone();
            frontends.insert(id, f);
            proof {
                let pre = config.frontends@.take(i as int);
                let post = config.frontends@.take(i as int + 1);
                assert(post.drop_last() =~= pre);
                assert(post.last() == config.frontends@[i as int]);
                assert(frontends@.dom() =~= frontend_config_map(post).dom());
            }
            i = i + 1;
        }
        proof {
            assert(config.frontends@.take(n as int) =~= config.frontends@);
        }
        FrontendMgr { frontends }
    }

    /// Refreshes the heartbeat of a present frontend.
    pub fn activate(&mut self, id: &String, now: u32)
        requires
            old(self).wf(),
        ensures
            final(self).wf(),
            old(self).frontends().contains_key(id@) ==> final(self).frontends() == old(
                self,
            ).frontends().insert(id@, with_frontend_active_at(old(self).frontends()[id@], now)),
            !old(self).frontends().contains_key(id@) ==> final(self).frontends() == old(
                self,
            ).frontends(),
    {
        let upd: Option<Frontend> = match self.frontends.get(id) {
            Some(cur) => {
                let mut u = cur.duplicate();
                u.active_at = now;
                Some(u)
            },
            None => None,
        };
        match upd {
            Some(u) => {
                self.frontends.insert(id.clone(), u);
            },
            None => {},
        }
    }

    /// Looks a frontend up by id.
    pub fn get(&self, id: &String) -> (r: Option<Frontend>)
        requires
            self.wf(),
        ensures
            match r {
                Some(f) => self.frontends().contains_key(id@) && f == self.frontends()[id@],
                None => !self.frontends().contains_key(id@),
            },
    {
        match self.frontends.get(id) {
            Some(f) => Some(f.duplicate()),
            None => None,
        }
    }

    /// Picks one frontend at random; none only when the set is empty.
    pub fn pick(&self) -> (r: Option<Frontend>)
        requires
            self.wf(),
        ensures
            r is Some <==> self.id_seq().len() > 0,
            r is Some ==> exists|i: int|
                0 <= i < self.id_seq().len() && r->0 == self.frontends()[self.id_seq()[i]],
    {
        let n = self.frontends.len();
        if n == 0 {
            None
        } else {
            let i = random_index(n);
            let f = self.frontends.val_at(i).duplicate();
            proof {
                assert(f == self.frontends()[self.id_seq()[i as int]]);
            }
            Some(f)
        }
    }

    /// A snapshot of all frontends, in registration order.
    pub fn iter(&self) -> (r: Vec<Frontend>)
        requires
            self.wf(),
        ensures
            r@.len() == self.id_seq().len(),
            forall|i: int| 0 <= i < r@.len() ==> r@[i] == self.frontends()[self.id_seq()[i]],
    {
        let n = self.frontends.len();
        let mut r: Vec<Frontend> = Vec::new();
        let mut i: usize = 0;
        while i < n
            invariant
                self.wf(),
                n == self.id_seq().len(),
                i <= n,
                r@.len() == i,
                forall|j: int| 0 <= j < i ==> r@[j] == self.frontends()[self.id_seq()[j]],
            decreases n - i,
        {
            let v = self.frontends.val_at(i).duplicate();
            r.push(v);
            i = i + 1;
        }
        r
    }
}

} // verus!
