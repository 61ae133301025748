//! The topic registry: topic-to-backend assignments with a bounded in-memory
//! cache in front of a durable table, and the start-up check that truncates
//! every assignment when the backend set changed.

use vstd::prelude::*;

use crate::strmap::StrMap;
use crate::text::{dec_digits, dec_u32};

verus! {

/// About how many entries the in-memory topic cache holds before evicting.
pub const TOPIC_CACHE_ITEMS: usize = 10000;

/// The bounded in-memory topic cache, an outside concurrent cache. Eviction
/// may drop any entry at any time, so nothing observable depends on it: every
/// lookup answer is checked against the durable table's contents.
#[verifier::external_body]
pub struct TopicCache {
    cache: quick_cache::sync::Cache<String, String>,
}

/// What the cache holds: for some topics, the backend id it cached.
pub uninterp spec fn cache_entries(c: TopicCache) -> Map<Seq<char>, Seq<char>>;

/// A cache that holds nothing.
pub open spec fn no_entries() -> Map<Seq<char>, Seq<char>> {
    Map::empty()
}

/// Relies on `quick_cache::sync::Cache::new`: a fresh cache holds nothing.
#[verifier::external_body]
fn cache_new(items_capacity: usize) -> (r: TopicCache)
    ensures
        cache_entries(r) == no_entries(),
{
    TopicCache { cache: quick_cache::sync::Cache::new(items_capacity) }
}

/// Relies on `quick_cache::sync::Cache::insert`: afterwards every held entry
/// is the inserted pair under its key, or under another key one already held;
/// eviction drops entries, it never invents or rewrites them, and an insert
/// replaces what its key held.
#[verifier::external_body]
fn cache_insert(c: &mut TopicCache, k: &String, v: &String)
    ensures
        forall|t: Seq<char>| #[trigger]
            cache_entries(*final(c)).contains_key(t) ==> ((t == k@ && cache_entries(*final(c))[t]
                == v@) || (t != k@ && cache_entries(*old(c)).contains_key(t) && cache_entries(
                *final(c),
            )[t] == cache_entries(*old(c))[t])),
{
    c.cache.insert(k.clone(), v.clone());
}

/// Relies on `quick_cache::sync::Cache::get`: a hit returns the value held
/// for that key; a miss promises nothing.
#[verifier::external_body]
fn cache_get(c: &TopicCache, k: &String) -> (r: Option<String>)
    ensures
        r is Some ==> cache_entries(*c).contains_key(k@) && r->0@ == cache_entries(*c)[k@],
{
    c.cache.get(k)
}

/// The one key of the info table, under which the last seen backend-set
/// checksum is stored.
pub open spec fn info_key() -> Seq<char> {
    "backend_checksum"@
}

/// The info table after the invalidation check: the current checksum's decimal
/// text is stored under the info key.
pub open spec fn checked_info(
    info: Map<Seq<char>, Seq<char>>,
    checksum: u32,
) -> Map<Seq<char>, Seq<char>> {
    info.insert(info_key(), dec_digits(checksum as nat))
}

/// The topic table after the invalidation check: truncated exactly when a
/// different checksum was on record; an absent or equal record keeps it.
pub open spec fn checked_topics(
    info: Map<Seq<char>, Seq<char>>,
    topics: Map<Seq<char>, Seq<char>>,
    checksum: u32,
) -> Map<Seq<char>, Seq<char>> {
    if info.contains_key(info_key()) && info[info_key()] != dec_digits(checksum as nat) {
        Map::empty()
    } else {
        topics
    }
}

/// Running the invalidation check twice with the same checksum truncates at
/// most once: the second run finds the stored checksum equal and changes
/// neither the info table nor the topic table.
pub proof fn lemma_check_idempotent(
    info: Map<Seq<char>, Seq<char>>,
    topics: Map<Seq<char>, Seq<char>>,
    checksum: u32,
)
    ensures
        checked_info(checked_info(info, checksum), checksum) == checked_info(info, checksum),
        checked_topics(
            checked_info(info, checksum),
            checked_topics(info, topics, checksum),
            checksum,
        ) == checked_topics(info, topics, checksum),
{
    assert(checked_info(checked_info(info, checksum), checksum) =~= checked_info(info, checksum));
}


/// What a topic location answers across the registry's life: right after an
/// assignment it is the assigned backend; after a check that found a changed
/// backend-set checksum, nothing is assigned any more.
pub proof fn lemma_locate_follows_assign(
    topics: Map<Seq<char>, Seq<char>>,
    info: Map<Seq<char>, Seq<char>>,
    topic: Seq<char>,
    backend_id: Seq<char>,
    checksum: u32,
)
    ensures
        topics.insert(topic, backend_id)[topic] == backend_id,
        topics.insert(topic, backend_id).contains_key(topic),
        info.contains_key(info_key()) && info[info_key()] != dec_digits(checksum as nat)
            ==> !checked_topics(info, topics, checksum).contains_key(topic),
{
}

pub struct TopicMgr {
    cache: TopicCache,
    store: StrMap<String>,
    info: StrMap<String>,
}

impl TopicMgr {
    /// The durable assignments: topic to backend id.
    pub closed spec fn topics(&self) -> Map<Seq<char>, Seq<char>> {
        Map::new(
            |k: Seq<char>| self.store@.contains_key(k),
            |k: Seq<char>| self.store@[k]@,
        )
    }

    /// The one-row info table, holding the last seen backend-set checksum.
    pub closed spec fn info_view(&self) -> Map<Seq<char>, Seq<char>> {
        Map::new(
            |k: Seq<char>| self.info@.contains_key(k),
            |k: Seq<char>| self.info@[k]@,
        )
    }

    /// Every cached entry repeats the durable table.
    pub closed spec fn wf(&self) -> bool {
        &&& self.store.wf()
        &&& self.info.wf()
        &&& forall|t: Seq<char>| #[trigger]
            cache_entries(self.cache).contains_key(t) ==> self.topics().contains_key(t)
                && self.topics()[t] == cache_entries(self.cache)[t]
    }

    /// The assignments are exactly what the durable topic table holds: a fresh
    /// registry recovered from the same tables, as long as the backend set did
    /// not change, observes the same assignments.
    pub proof fn lemma_persist_round_trip(&self, checksum: u32)
        requires
            self.wf(),
            self.info_view().contains_key(info_key()),
            self.info_view()[info_key()] == dec_digits(checksum as nat),
        ensures
            checked_topics(self.info_view(), self.topics(), checksum) == self.topics(),
    {
    }

    /// Builds the registry from its durable tables and runs the invalidation
    /// check against the current backend-set checksum: a changed checksum
    /// truncates every assignment and records the new value.
    pub fn recover(store: StrMap<String>, info: StrMap<String>, backend_checksum: u32) -> (m: Self)
        requires
            store.wf(),
            info.wf(),
        ensures
            m.wf(),
            ({
                let info0 = Map::new(
                    |k: Seq<char>| info@.contains_key(k),
                    |k: Seq<char>| info@[k]@,
                );
                let topics0 = Map::new(
                    |k: Seq<char>| store@.contains_key(k),
                    |k: Seq<char>| store@[k]@,
                );
                m.info_view() == checked_info(info0, backend_checksum) && m.topics()
                    == checked_topics(info0, topics0, backend_checksum)
            }),
    {
        let mut m = TopicMgr { cache: cache_new(TOPIC_CACHE_ITEMS), store, info };
        m.check(backend_checksum);
        m
    }

    /// Compares the stored backend-set checksum with the current one: records
    /// it when none is stored, keeps everything when equal, and otherwise
    /// records the new value and truncates the topic table.
    pub fn check(&mut self, backend_checksum: u32)
        requires
            old(self).wf(),
        ensures
            final(self).wf(),
            final(self).info_view() == checked_info(old(self).info_view(), backend_checksum),
            final(self).topics() == checked_topics(
                old(self).info_view(),
                old(self).topics(),
                backend_checksum,
            ),
    {
        let key = String::from_str("backend_checksum");
        let cur = dec_u32(backend_checksum);
        proof {
            assert(key@ == info_key());
        }
        let verdict: u32 = match self.info.get(&key) {
            None => 0,
            Some(stored) => {
                if stored.eq(&cur) {
                    1
                } else {
                    2
                }
            },
        };
        if verdict == 0 || verdict == 2 {
            self.info.insert(key, cur);
        }
        if verdict == 2 {
            self.store.clear();
            self.cache = cache_new(TOPIC_CACHE_ITEMS);
        }
        proof {
            assert(self.info_view() =~= checked_info(old(self).info_view(), backend_checksum));
            assert(self.topics() =~= checked_topics(
                old(self).info_view(),
                old(self).topics(),
                backend_checksum,
            ));
        }
    }

    /// Write-through assignment: the pair goes to the cache and the durable
    /// table.
    pub fn assign(&mut self, topic: String, backend_id: String)
        requires
            old(self).wf(),
        ensures
            final(self).wf(),
            final(self).topics() == old(self).topics().insert(topic@, backend_id@),
            final(self).info_view() == old(self).info_view(),
    {
        cache_insert(&mut self.cache, &topic, &backend_id);
        self.store.insert(topic, backend_id);
        proof {
            assert(self.topics() =~= old(self).topics().insert(topic@, backend_id@));
            assert(self.info_view() =~= old(self).info_view());
        }
    }

    /// Looks a topic up: the cache answers first, a miss falls back to the
    /// durable table and warms the cache. The answer is exactly the durable
    /// table's: some backend id for an assigned topic, nothing otherwise.
    pub fn locate(&mut self, topic: &String) -> (r: Option<String>)
        requires
            old(self).wf(),
        ensures
            final(self).wf(),
            final(self).topics() == old(self).topics(),
            final(self).info_view() == old(self).info_view(),
            match r {
                Some(v) => old(self).topics().contains_key(topic@) && v@ == old(
                    self,
                ).topics()[topic@],
                None => !old(self).topics().contains_key(topic@),
            },
    {
        match cache_get(&self.cache, topic) {
            Some(v) => Some(v),
            None => {
                let got: Option<String> = match self.store.get(topic) {
                    Some(v) => Some(v.clone()),
                    None => None,
                };
                match got {
                    Some(v) => {
                        cache_insert(&mut self.cache, topic, &v);
                        proof {
                            assert(self.topics() =~= old(self).topics());
                        }
                        Some(v)
                    },
                    None => None,
                }
            },
        }
    }
}

} // verus!
