//! The backend registry: built once from configuration with frozen membership,
//! a deterministic pick over the ascending id list, and the backend-set
//! checksum that topic assignments are invalidated by.

use vstd::prelude::*;

use crate::addr::{ip_text, ip_to_text, IpAddr};
use crate::checksum::{crc32_of, crc32_str};
use crate::config::{BackendConfig, BackendMgrConfig};
use crate::node::{with_backend_active_at, Backend};
use crate::strmap::StrMap;
use crate::text::{
    dec_digits, dec_u32, lemma_lex_irrefl, lemma_lex_lt_trans, lemma_lex_trichotomy, lex_leq,
    sort_strings, sorted_lex, u32_list, u32_list_text,
};

verus! {

/// The text a backend's own checksum digests: `"<id>|<private_ip>|<http_port>"`.
pub open spec fn backend_seed(id: Seq<char>, ip: IpAddr, port: u32) -> Seq<char> {
    id + seq!['|'] + ip_text(ip) + seq!['|'] + dec_digits(port as nat)
}

/// The per-backend checksums of the given ids, in the given order.
pub open spec fn per_backend_checksums(ids: Seq<Seq<char>>, m: Map<Seq<char>, Backend>) -> Seq<
    u32,
> {
    Seq::new(ids.len(), |i: int| crc32_of(backend_seed(ids[i], m[ids[i]].private_ip, m[ids[i]].http_port)))
}

/// The backend-set checksum: the digest of the bracketed list of the
/// per-backend checksums taken in ascending id order.
pub open spec fn backend_set_checksum(ids: Seq<Seq<char>>, m: Map<Seq<char>, Backend>) -> u32 {
    crc32_of(u32_list_text(per_backend_checksums(ids, m)))
}

/// The registry record equals what one configuration entry declares, with a
/// zero heartbeat.
pub open spec fn backend_matches(b: Backend, c: BackendConfig) -> bool {
    &&& b.id@ == c.id@
    &&& b.private_ip == c.private_ip
    &&& b.http_port == c.http_port
    &&& b.active_at == 0
}

/// The effective configuration: entry after entry, the later one winning a
/// repeated id.
pub open spec fn backend_config_map(cfgs: Seq<BackendConfig>) -> Map<Seq<char>, BackendConfig>
    decreases cfgs.len(),
{
    if cfgs.len() == 0 {
        Map::empty()
    } else {
        backend_config_map(cfgs.drop_last()).insert(cfgs.last().id@, cfgs.last())
    }
}

/// What a backend registry observably consists of: for each id the plain
/// fields that every checksum and every endpoint is computed from.
pub open spec fn fields_of(m: Map<Seq<char>, Backend>) -> Map<Seq<char>, (IpAddr, u32)> {
    m.map_values(|b: Backend| (b.private_ip, b.http_port))
}

impl Backend {
    /// This backend's own checksum: the digest of
    /// `"<id>|<private_ip>|<http_port>"`.
    pub fn checksum(&self) -> (r: u32)
        ensures
            r == crc32_of(backend_seed(self.id@, self.private_ip, self.http_port)),
    {
        proof {
            reveal_strlit("|");
            assert("|"@ =~= seq!['|']);
        }
        let mut seed = self.id.clone();
        seed.append("|");
        let ipt = ip_to_text(&self.private_ip);
        seed.append(ipt.as_str());
        seed.append("|");
        let pt = dec_u32(self.http_port);
        seed.append(pt.as_str());
        proof {
            assert(seed@ =~= backend_seed(self.id@, self.private_ip, self.http_port));
        }
        crc32_str(seed.as_str())
    }
}

pub struct BackendMgr {
    backends: StrMap<Backend>,
    backend_ids: Vec<String>,
    checksum: u32,
}

impl BackendMgr {
    /// The registered backends, by id.
    pub closed spec fn backends(&self) -> Map<Seq<char>, Backend> {
        self.backends@
    }

    /// The ids in ascending order.
    pub closed spec fn sorted_ids(&self) -> Seq<Seq<char>> {
        self.backend_ids.deep_view()
    }

    /// The precomputed backend-set checksum.
    pub closed spec fn checksum_spec(&self) -> u32 {
        self.checksum
    }

    /// The deterministic pick: the backend at place `h mod len` of the
    /// ascending id list; nothing from an empty set.
    pub open spec fn pick_id(&self, h: u64) -> Option<Seq<char>> {
        if self.sorted_ids().len() == 0 {
            None
        } else {
            Some(self.sorted_ids()[(h as int) % (self.sorted_ids().len() as int)])
        }
    }

    pub closed spec fn wf(&self) -> bool {
        &&& self.backends.wf()
        &&& forall|k: Seq<char>|
            #[trigger] self.backends@.contains_key(k) ==> self.backends@[k].id@ == k
        &&& sorted_lex(self.backend_ids.deep_view())
        &&& self.backend_ids.deep_view().to_multiset()
            == self.backends.key_seq().to_multiset()
        &&& self.checksum == backend_set_checksum(self.backend_ids.deep_view(), self.backends@)
    }

    /// The ascending id list holds exactly the registered ids, each once.
    pub proof fn lemma_ids(&self)
        requires
            self.wf(),
        ensures
            self.sorted_ids().no_duplicates(),
            forall|k: Seq<char>| self.backends().contains_key(k) <==> self.sorted_ids().contains(
                k,
            ),
    {
        broadcast use vstd::seq_lib::group_to_multiset_ensures;
        broadcast use vstd::multiset::group_multiset_axioms;

        self.backends.lemma_dom();
        self.backends.lemma_no_dup_keys();
        let ids = self.sorted_ids();
        let keys = self.backends.key_seq();
        assert forall|k: Seq<char>| ids.contains(k) <==> keys.contains(k) by {
            if ids.contains(k) {
                assert(ids.to_multiset().count(k) > 0);
                assert(keys.to_multiset().count(k) > 0);
            }
            if keys.contains(k) {
                assert(keys.to_multiset().count(k) > 0);
                assert(ids.to_multiset().count(k) > 0);
            }
        }
        keys.lemma_multiset_has_no_duplicates();
        ids.lemma_multiset_has_no_duplicates_conv();
    }

    /// Builds the registry from configuration: it holds exactly the configured
    /// backends (the last entry winning a repeated id), the id list ascending,
    /// and the checksum precomputed over it.
    pub fn new(config: &BackendMgrConfig) -> (m: Self)
        ensures
            m.wf(),
            m.backends().dom() == backend_config_map(config.backends@).dom(),
            forall|k: Seq<char>|
                #[trigger] m.backends().contains_key(k) ==> backend_matches(
                    m.backends()[k],
                    backend_config_map(config.backends@)[k],
                ),
            m.checksum_spec() == backend_set_checksum(m.sorted_ids(), m.backends()),
    {
        let n = config.backends.len();
        let mut backends: StrMap<Backend> = StrMap::new();
        let mut i: usize = 0;
        while i < n
            invariant
                n == config.backends@.len(),
                i <= n,
                backends.wf(),
                forall|k: Seq<char>|
                    #[trigger] backends@.contains_key(k) ==> backends@[k].id@ == k,
                backends@.dom() == backend_config_map(config.backends@.take(i as int)).dom(),
                forall|k: Seq<char>|
                    #[trigger] backends@.contains_key(k) ==> backend_matches(
                        backends@[k],
                        backend_config_map(config.backends@.take(i as int))[k],
                    ),
            decreases n - i,
        {
            let c = &config.backends[i];
            let b = Backend::new(c.id.clone(), c.private_ip, c.http_port);
            let id = b.id.clone();
            backends.insert(id, b);
            proof {
                let pre = config.backends@.take(i as int);
                let post = config.backends@.take(i as int + 1);
                assert(post.drop_last() =~= pre);
                assert(post.last() == config.backends@[i as int]);
                assert(backends@.dom() =~= backend_config_map(post).dom());
            }
            i = i + 1;
        }
        proof {
            assert(config.backends@.take(n as int) =~= config.backends@);
        }
        // Collect the ids and sort them ascending.
        let kn = backends.len();
        let mut ids: Vec<String> = Vec::new();
        let mut j: usize = 0;
        while j < kn
            invariant
                backends.wf(),
                kn == backends.key_seq().len(),
                j <= kn,
                ids.deep_view() =~= backends.key_seq().take(j as int),
            decreases kn - j,
        {
            proof {
                assert(ids.deep_view().len() == j as int);
                assert(ids@.len() == j);
            }
            let ghost old_vec = ids@;
            let ghost old_ids = ids.deep_view();
            let k = backends.key_at(j).clone();
            let ghost kv = k@;
            ids.push(k);
            proof {
                assert(ids@.len() == j + 1);
                assert forall|q: int| 0 <= q < j + 1 implies ids.deep_view()[q]
                    == backends.key_seq().take(j as int + 1)[q] by {
                    assert(ids.deep_view()[q] == ids@[q]@);
                    if q < j {
                        assert(ids@[q] == old_vec[q]);
                        assert(old_ids[q] == old_vec[q]@);
                    } else {
                        assert(ids@[q]@ == kv);
                        assert(kv == backends.key_seq()[j as int]);
                    }
                }
                assert(ids.deep_view() =~= backends.key_seq().take(j as int + 1));
            }
            j = j + 1;
        }
        proof {
            assert(backends.key_seq().take(kn as int) =~= backends.key_seq());
            assert(ids.deep_view() == backends.key_seq());
        }
        let backend_ids = sort_strings(ids);
        // Fold the per-backend checksums in ascending id order into the
        // backend-set checksum.
        proof {
            broadcast use vstd::seq_lib::group_to_multiset_ensures;

            assert forall|k: Seq<char>| backend_ids.deep_view().contains(k) implies backends
                @.contains_key(k) by {
                assert(backend_ids.deep_view().to_multiset().count(k) > 0);
                assert(backends.key_seq().to_multiset().count(k) > 0);
                assert(backends.key_seq().contains(k));
                backends.lemma_dom();
            }
        }
        let cn = backend_ids.len();
        let mut sums: Vec<u32> = Vec::new();
        let mut q: usize = 0;
        while q < cn
            invariant
                backends.wf(),
                cn == backend_ids.deep_view().len(),
                q <= cn,
                forall|k: Seq<char>|
                    backend_ids.deep_view().contains(k) ==> backends@.contains_key(k),
                forall|k: Seq<char>|
                    #[trigger] backends@.contains_key(k) ==> backends@[k].id@ == k,
                sums@ =~= per_backend_checksums(
                    backend_ids.deep_view().take(q as int),
                    backends@,
                ),
            decreases cn - q,
        {
            let id = &backend_ids[q];
            proof {
                assert(backend_ids.deep_view()[q as int] == id@);
                assert(backend_ids.deep_view().contains(id@));
            }
            let b = match backends.get(id) {
                Some(b) => b,
                None => vstd::pervasive::unreached(),
            };
            let sum = b.checksum();
            proof {
                assert(b.id@ == id@);
            }
            sums.push(sum);
            proof {
                let ids_v = backend_ids.deep_view();
                assert(sums@ =~= per_backend_checksums(ids_v.take(q as int + 1), backends@)) by {
                    let pre = per_backend_checksums(ids_v.take(q as int), backends@);
                    let post = per_backend_checksums(ids_v.take(q as int + 1), backends@);
                    assert(post.len() == pre.len() + 1);
                    assert forall|t: int| 0 <= t < post.len() implies post[t] == sums@[t] by {
                        assert(ids_v.take(q as int + 1)[t] == ids_v[t]);
                        if t < q as int {
                            assert(ids_v.take(q as int)[t] == ids_v[t]);
                            assert(pre[t] == post[t]);
                        }
                    }
                }
            }
            q = q + 1;
        }
        proof {
            assert(backend_ids.deep_view().take(cn as int) =~= backend_ids.deep_view());
        }
        let list = u32_list(&sums);
        let checksum = crc32_str(list.as_str());
        BackendMgr { backends, backend_ids, checksum }
    }

    /// Refreshes the heartbeat of a present backend.
    pub fn activate(&mut self, id: &String, now: u32)
        requires
            old(self).wf(),
        ensures
            final(self).wf(),
            final(self).checksum_spec() == old(self).checksum_spec(),
            final(self).sorted_ids() == old(self).sorted_ids(),
            old(self).backends().contains_key(id@) ==> final(self).backends() == old(
                self,
            ).backends().insert(id@, with_backend_active_at(old(self).backends()[id@], now)),
            !old(self).backends().contains_key(id@) ==> final(self).backends() == old(
                self,
            ).backends(),
    {
        let upd: Option<Backend> = match self.backends.get(id) {
            Some(cur) => {
                let mut u = cur.duplicate();
                u.active_at = now;
                Some(u)
            },
            None => None,
        };
        match upd {
            Some(u) => {
                self.backends.insert(id.clone(), u);
                proof {
                    assert(per_backend_checksums(self.backend_ids.deep_view(), self.backends@)
                        =~= per_backend_checksums(
                        self.backend_ids.deep_view(),
                        old(self).backends@,
                    ));
                }
            },
            None => {},
        }
    }

    /// Looks a backend up by id.
    pub fn get(&self, id: &String) -> (r: Option<Backend>)
        requires
            self.wf(),
        ensures
            match r {
                Some(b) => self.backends().contains_key(id@) && b == self.backends()[id@],
                None => !self.backends().contains_key(id@),
            },
    {
        match self.backends.get(id) {
            Some(b) => Some(b.duplicate()),
            None => None,
        }
    }

    /// The deterministic selection: the backend at place `h mod len` of the
    /// ascending id list. None only when the set is empty.
    pub fn pick_with(&self, h: u64) -> (r: Option<Backend>)
        requires
            self.wf(),
        ensures
            match r {
                Some(b) => self.pick_id(h) == Some(b.id@) && self.backends().contains_key(b.id@)
                    && b == self.backends()[b.id@],
                None => self.pick_id(h) is None,
            },
    {
        let n = self.backend_ids.len();
        if n == 0 {
            None
        } else {
            let i: usize = (h % (n as u64)) as usize;
            let id = &self.backend_ids[i];
            proof {
                assert(self.sorted_ids()[i as int] == id@);
                assert(self.sorted_ids().contains(id@));
                self.lemma_ids();
            }
            match self.backends.get(id) {
                Some(b) => {
                    let r = b.duplicate();
                    proof {
                        assert(r.id@ == id@);
                    }
                    Some(r)
                },
                None => {
                    proof {
                        assert(false);
                    }
                    None
                },
            }
        }
    }

    /// A snapshot of all backends, in ascending id order.
    pub fn iter(&self) -> (r: Vec<Backend>)
        requires
            self.wf(),
        ensures
            r@.len() == self.sorted_ids().len(),
            forall|i: int| 0 <= i < r@.len() ==> r@[i] == self.backends()[self.sorted_ids()[i]],
    {
        proof {
            self.lemma_ids();
        }
        let n = self.backend_ids.len();
        let mut r: Vec<Backend> = Vec::new();
        let mut i: usize = 0;
        while i < n
            invariant
                self.wf(),
                n == self.sorted_ids().len(),
                i <= n,
                r@.len() == i,
                forall|k: Seq<char>|
                    self.backends().contains_key(k) <==> self.sorted_ids().contains(k),
                forall|j: int| 0 <= j < i ==> r@[j] == self.backends()[self.sorted_ids()[j]],
            decreases n - i,
        {
            let id = &self.backend_ids[i];
            proof {
                assert(self.sorted_ids()[i as int] == id@);
                assert(self.sorted_ids().contains(id@));
            }
            match self.backends.get(id) {
                Some(b) => {
                    r.push(b.duplicate());
                },
                None => {
                    proof {
                        assert(false);
                    }
                },
            }
            i = i + 1;
        }
        r
    }

    /// The precomputed backend-set checksum.
    pub fn checksum(&self) -> (c: u32)
        ensures
            c == self.checksum_spec(),
    {
        self.checksum
    }
}

/// The non-strict lexicographic order is a total ordering.
pub proof fn lemma_lex_leq_total_ordering()
    ensures
        vstd::relations::total_ordering(|a: Seq<char>, b: Seq<char>| lex_leq(a, b)),
{
    let leq = |a: Seq<char>, b: Seq<char>| lex_leq(a, b);
    assert forall|a: Seq<char>, b: Seq<char>| #[trigger] leq(a, b) && #[trigger] leq(b, a) implies a == b by {
        if a != b {
            lemma_lex_lt_trans(a, b, a);
            lemma_lex_irrefl(a);
        }
    }
    assert forall|a: Seq<char>, b: Seq<char>, c: Seq<char>|
        #[trigger] leq(a, b) && #[trigger] leq(b, c) implies leq(a, c) by {
        if a != b && b != c {
            lemma_lex_lt_trans(a, b, c);
        }
    }
    assert forall|a: Seq<char>, b: Seq<char>| true implies #[trigger] leq(a, b) || #[trigger] leq(
        b,
        a,
    ) by {
        lemma_lex_trichotomy(a, b);
    }
}

/// The backend-set checksum is a pure function of configuration: two
/// registries whose backends carry the same ids and the same plain fields have
/// the same checksum, however and whenever each was built.
pub proof fn lemma_checksum_pure(a: &BackendMgr, b: &BackendMgr)
    requires
        a.wf(),
        b.wf(),
        fields_of(a.backends()) == fields_of(b.backends()),
    ensures
        a.checksum_spec() == b.checksum_spec(),
        a.sorted_ids() == b.sorted_ids(),
{
    broadcast use vstd::seq_lib::group_to_multiset_ensures;
    broadcast use vstd::multiset::group_multiset_axioms;

    a.lemma_ids();
    b.lemma_ids();
    assert(fields_of(a.backends()).dom() =~= a.backends().dom());
    assert(fields_of(b.backends()).dom() =~= b.backends().dom());
    assert(a.backends().dom() =~= b.backends().dom());
    let leq = |x: Seq<char>, y: Seq<char>| lex_leq(x, y);
    lemma_lex_leq_total_ordering();
    assert forall|k: Seq<char>| a.sorted_ids().contains(k) <==> b.sorted_ids().contains(k) by {
        assert(a.sorted_ids().contains(k) <==> a.backends().contains_key(k));
        assert(b.sorted_ids().contains(k) <==> b.backends().contains_key(k));
    }
    a.sorted_ids().lemma_multiset_has_no_duplicates();
    b.sorted_ids().lemma_multiset_has_no_duplicates();
    assert(a.sorted_ids().to_multiset() =~= b.sorted_ids().to_multiset()) by {
        assert forall|k: Seq<char>|
            a.sorted_ids().to_multiset().count(k) == b.sorted_ids().to_multiset().count(k) by {
            if a.sorted_ids().contains(k) {
                assert(a.sorted_ids().to_multiset().count(k) == 1);
                assert(b.sorted_ids().to_multiset().count(k) == 1);
            } else {
                assert(a.sorted_ids().to_multiset().count(k) == 0);
                assert(b.sorted_ids().to_multiset().count(k) == 0);
            }
        }
    }
    assert(vstd::relations::sorted_by(a.sorted_ids(), leq));
    assert(vstd::relations::sorted_by(b.sorted_ids(), leq));
    vstd::seq_lib::lemma_sorted_unique(a.sorted_ids(), b.sorted_ids(), leq);
    assert(a.sorted_ids() == b.sorted_ids());
    assert(per_backend_checksums(a.sorted_ids(), a.backends()) =~= per_backend_checksums(
        b.sorted_ids(),
        b.backends(),
    )) by {
        assert forall|i: int| 0 <= i < a.sorted_ids().len() implies per_backend_checksums(
            a.sorted_ids(),
            a.backends(),
        )[i] == per_backend_checksums(b.sorted_ids(), b.backends())[i] by {
            let k = a.sorted_ids()[i];
            assert(a.sorted_ids().contains(k));
            assert(a.backends().contains_key(k));
            assert(fields_of(a.backends())[k] == fields_of(b.backends())[k]);
            assert(fields_of(a.backends())[k] == (a.backends()[k].private_ip, a.backends()[k].http_port));
            assert(fields_of(b.backends())[k] == (b.backends()[k].private_ip, b.backends()[k].http_port));
        }
    }
}

/// The deterministic pick is stable: registries with the same ids and fields
/// place the same hash on the same backend id.
pub proof fn lemma_pick_deterministic(a: &BackendMgr, b: &BackendMgr, h: u64)
    requires
        a.wf(),
        b.wf(),
        fields_of(a.backends()) == fields_of(b.backends()),
    ensures
        a.pick_id(h) == b.pick_id(h),
{
    lemma_checksum_pure(a, b);
}

} // verus!
