//! The metadata-query cache.
//!
//! The proxy resolves one entity's metadata at a time from the MDQ
//! service.  Verified documents are kept in a bounded cache: a read
//! past the per-entry TTL evicts the entry, and when the cache is full
//! the least recently used entry makes room.  A document whose
//! signature did not verify never enters the cache.

use vstd::prelude::*;
use crate::bytes::str_eq;
use crate::error::Error;
use crate::saml::{entity_info_of, parse_entity_info, view_opt_entity, EntityInfo};

verus! {

/// The default bound on cached entries.
pub const MDQ_CACHE_CAPACITY: usize = 1000;

/// The default seconds a cached document stays fresh after its fetch.
pub const MDQ_CACHE_TTL_SECS: u64 = 3600;

/// The federation's metadata-query base URL.
pub const MDQ_BASE_URL: &'static str = "https://mdq.incommon.org";

/// The URL that asks the MDQ service for one entity's metadata: the
/// base, the entities path, and the percent-encoded entity ID.
pub open spec fn mdq_url(base: Seq<char>, entity_id: Seq<char>) -> Seq<char> {
    base + "/entities/"@ + crate::textenc::urlenc_seq(entity_id)
}

/// Builds the request URL for one entity's metadata.
pub fn mdq_request_url(base: &str, entity_id: &str) -> (r: String)
    ensures
        r@ == mdq_url(base@, entity_id@),
{
    let mut out = String::new();
    out.append(base);
    out.append("/entities/");
    let enc = crate::textenc::urlencode(entity_id);
    out.append(enc.as_str());
    out
}

/// One cached metadata document and when it was fetched.
struct CacheSlot {
    id: String,
    xml: String,
    fetched_at: u64,
}

/// The ghost image of a cache slot.
pub struct CacheSlotV {
    pub id: Seq<char>,
    pub xml: Seq<char>,
    pub fetched_at: u64,
}

impl View for CacheSlot {
    type V = CacheSlotV;

    closed spec fn view(&self) -> CacheSlotV {
        CacheSlotV { id: self.id@, xml: self.xml@, fetched_at: self.fetched_at }
    }
}

/// The document filed under `id`: the first slot carrying that key.
pub open spec fn cache_get(s: Seq<CacheSlotV>, id: Seq<char>) -> Option<(Seq<char>, u64)>
    decreases s.len(),
{
    if s.len() == 0 {
        None
    } else if s[0].id == id {
        Some((s[0].xml, s[0].fetched_at))
    } else {
        cache_get(s.drop_first(), id)
    }
}

/// No two slots carry the same key.
pub open spec fn cache_ids_distinct(s: Seq<CacheSlotV>) -> bool {
    forall|i: int, j: int| 0 <= i < j < s.len() ==> (#[trigger] s[i]).id != (#[trigger] s[j]).id
}

/// Where a key is absent, the lookup is `None`.
proof fn lemma_cache_get_absent(s: Seq<CacheSlotV>, id: Seq<char>)
    requires
        forall|k: int| 0 <= k < s.len() ==> (#[trigger] s[k]).id != id,
    ensures
        cache_get(s, id) is None,
    decreases s.len(),
{
    if s.len() > 0 {
        assert(forall|k: int| 0 <= k < s.drop_first().len() ==> (#[trigger] s.drop_first()[k]).id
            != id);
        lemma_cache_get_absent(s.drop_first(), id);
    }
}

/// Where `j` is the first slot carrying the key, the lookup yields it.
proof fn lemma_cache_get_at(s: Seq<CacheSlotV>, id: Seq<char>, j: int)
    requires
        0 <= j < s.len(),
        s[j].id == id,
        forall|k: int| 0 <= k < j ==> (#[trigger] s[k]).id != id,
    ensures
        cache_get(s, id) == Some((s[j].xml, s[j].fetched_at)),
    decreases j,
{
    if j > 0 {
        lemma_cache_get_at(s.drop_first(), id, j - 1);
    }
}

/// Removing a slot that carries another key leaves a lookup unchanged.
proof fn lemma_cache_get_remove_other(s: Seq<CacheSlotV>, j: int, id: Seq<char>)
    requires
        0 <= j < s.len(),
        s[j].id != id,
    ensures
        cache_get(s.remove(j), id) == cache_get(s, id),
    decreases s.len(),
{
    if j == 0 {
        assert(s.remove(0) =~= s.drop_first());
    } else {
        assert(s.remove(j)[0] == s[0]);
        if s[0].id != id {
            assert(s.remove(j).drop_first() =~= s.drop_first().remove(j - 1));
            lemma_cache_get_remove_other(s.drop_first(), j - 1, id);
        }
    }
}

/// The bounded, TTL-aware, least-recently-used cache of verified
/// metadata documents, keyed by entity ID, most recent first.
pub struct MdqCache {
    slots: Vec<CacheSlot>,
    capacity: usize,
    ttl_secs: u64,
}

impl MdqCache {
    /// The slot views, most recently used first.
    pub closed spec fn spec_slots(&self) -> Seq<CacheSlotV> {
        self.slots@.map_values(|s: CacheSlot| s@)
    }

    /// The document and fetch instant filed under `id`, if any.
    pub open spec fn spec_get(&self, id: Seq<char>) -> Option<(Seq<char>, u64)> {
        cache_get(self.spec_slots(), id)
    }

    /// The keys in recency order, most recent first.
    pub open spec fn spec_keys(&self) -> Seq<Seq<char>> {
        self.spec_slots().map_values(|s: CacheSlotV| s.id)
    }

    /// The configured bound on entries.
    pub closed spec fn spec_capacity(&self) -> usize {
        self.capacity
    }

    /// The configured per-entry TTL, in seconds.
    pub closed spec fn spec_ttl(&self) -> u64 {
        self.ttl_secs
    }

    /// The cache's internal soundness: one slot per key, within
    /// capacity.
    pub closed spec fn wf(&self) -> bool {
        &&& cache_ids_distinct(self.spec_slots())
        &&& self.slots@.len() <= self.capacity
        &&& self.capacity >= 1
    }

    /// An empty cache with the given bound and TTL.
    pub fn new(capacity: usize, ttl_secs: u64) -> (r: Self)
        requires
            capacity >= 1,
        ensures
            r.wf(),
            forall|k: Seq<char>| r.spec_get(k) is None,
            r.spec_capacity() == capacity,
            r.spec_ttl() == ttl_secs,
    {
        let r = MdqCache { slots: Vec::new(), capacity, ttl_secs };
        proof {
            assert forall|k: Seq<char>| r.spec_get(k) is None by {
                assert(r.spec_slots() =~= Seq::<CacheSlotV>::empty());
            }
        }
        r
    }

    /// Removes the slot filed under `id`, if any, and returns it.
    fn take_slot(&mut self, id: &str) -> (r: Option<(String, u64)>)
        requires
            old(self).wf(),
        ensures
            final(self).wf(),
            final(self).spec_get(id@) is None,
            final(self).spec_capacity() == old(self).spec_capacity(),
            final(self).spec_ttl() == old(self).spec_ttl(),
            match r {
                Some(p) => old(self).spec_get(id@) == Some((p.0@, p.1)),
                None => old(self).spec_get(id@) is None,
            },
            forall|k: Seq<char>| k != id@ ==> final(self).spec_get(k) == old(self).spec_get(k),
            final(self).spec_slots().len() + (if r is Some {
                1int
            } else {
                0int
            }) == old(self).spec_slots().len(),
            r is None ==> *final(self) == *old(self),
    {
        let ghost views = self.spec_slots();
        let n: usize = self.slots.len();
        let mut j: usize = 0;
        loop
            invariant
                0 <= j <= n,
                n == self.slots@.len(),
                views == self.spec_slots(),
                forall|k: int| 0 <= k < j ==> (#[trigger] views[k]).id != id@,
            ensures
                0 <= j <= n,
                j < n ==> views[j as int].id == id@,
                forall|k: int| 0 <= k < j ==> (#[trigger] views[k]).id != id@,
                j == n ==> forall|k: int| 0 <= k < n ==> (#[trigger] views[k]).id != id@,
            decreases n - j,
        {
            if j == n {
                break;
            }
            proof {
                assert(views[j as int] == self.slots@[j as int]@);
            }
            if str_eq(self.slots[j].id.as_str(), id) {
                break;
            }
            j = j + 1;
        }
        if j == self.slots.len() {
            proof {
                lemma_cache_get_absent(views, id@);
            }
            return None;
        }
        let slot = self.slots.remove(j);
        proof {
            let new_views = self.spec_slots();
            assert(new_views =~= views.remove(j as int)) by {
                assert forall|k: int| 0 <= k < new_views.len() implies new_views[k]
                    == views.remove(j as int)[k] by {
                    assert(new_views[k] == self.slots@[k]@);
                }
            }
            lemma_cache_get_at(views, id@, j as int);
            assert forall|k: int| 0 <= k < new_views.len() implies (#[trigger] new_views[k]).id
                != id@ by {
                if k < j {
                    assert(new_views[k] == views[k]);
                } else {
                    assert(new_views[k] == views[k + 1]);
                }
            }
            lemma_cache_get_absent(new_views, id@);
            assert forall|k: Seq<char>| k != id@ implies final(self).spec_get(k) == old(self).spec_get(k) by {
                lemma_cache_get_remove_other(views, j as int, k);
            }
            assert(cache_ids_distinct(new_views)) by {
                assert forall|a: int, b: int| 0 <= a < b < new_views.len() implies (
                #[trigger] new_views[a]).id != (#[trigger] new_views[b]).id by {
                    let a0: int = if a < j { a } else { a + 1 };
                    let b0: int = if b < j { b } else { b + 1 };
                    assert(new_views[a] == views[a0] && new_views[b] == views[b0]);
                }
            }
        }
        Some((slot.xml, slot.fetched_at))
    }

    /// Files a document under `id` at the front, evicting the least
    /// recently used entry if the cache would overflow.
    fn put_front(&mut self, id: String, xml: String, fetched_at: u64)
        requires
            old(self).wf(),
            old(self).spec_get(id@) is None,
        ensures
            final(self).wf(),
            final(self).spec_get(id@) == Some((xml@, fetched_at)),
            final(self).spec_capacity() == old(self).spec_capacity(),
            final(self).spec_ttl() == old(self).spec_ttl(),
            old(self).spec_slots().len() < old(self).spec_capacity() ==> forall|k: Seq<char>|
                k != id@ ==> final(self).spec_get(k) == old(self).spec_get(k),
            old(self).spec_slots().len() == old(self).spec_capacity() ==> {
                let victim = old(self).spec_slots().last().id;
                &&& final(self).spec_get(victim) is None
                &&& forall|k: Seq<char>| k != id@ && k != victim ==> final(self).spec_get(k)
                    == old(self).spec_get(k)
            },
    {
        let ghost id_view = id@;
        let ghost views0 = self.spec_slots();
        proof {
            if views0.len() > 0 && views0.last().id == id_view {
                lemma_cache_get_present(views0, id_view, views0.len() - 1);
                assert(false);
            }
        }
        if self.slots.len() == self.capacity {
            let ghost last = views0.last();
            let _ = self.slots.pop();
            proof {
                let views1 = self.spec_slots();
                assert(views1 =~= views0.drop_last()) by {
                    assert forall|k: int| 0 <= k < views1.len() implies views1[k]
                        == views0.drop_last()[k] by {
                        assert(views1[k] == self.slots@[k]@);
                    }
                }
                assert(views0.drop_last() =~= views0.remove(views0.len() - 1));
                assert forall|k: int| 0 <= k < views1.len() implies (#[trigger] views1[k]).id
                    != last.id by {
                    assert(views1[k] == views0[k]);
                }
                lemma_cache_get_absent(views1, last.id);
                assert forall|k: Seq<char>| k != last.id implies cache_get(views1, k)
                    == cache_get(views0, k) by {
                    lemma_cache_get_remove_other(views0, views0.len() - 1, k);
                }
                assert(cache_ids_distinct(views1)) by {
                    assert forall|a: int, b: int| 0 <= a < b < views1.len() implies (
                    #[trigger] views1[a]).id != (#[trigger] views1[b]).id by {
                        assert(views1[a] == views0[a] && views1[b] == views0[b]);
                    }
                }
                lemma_cache_get_absent_still(views0, views1, id@);
            }
        }
        let ghost mid_views = self.spec_slots();
        let ghost mid = *self;
        self.slots.insert(0, CacheSlot { id, xml, fetched_at });
        proof {
            let new_views = self.spec_slots();
            let slot_view = self.slots@[0]@;
            assert(new_views =~= seq![slot_view] + mid_views) by {
                assert forall|k: int| 0 <= k < new_views.len() implies new_views[k] == (
                seq![slot_view] + mid_views)[k] by {
                    assert(new_views[k] == self.slots@[k]@);
                    if k > 0 {
                        assert(self.slots@[k] == mid.slots@[k - 1]);
                    }
                }
            }
            assert(new_views[0] == slot_view);
            assert(slot_view.id == id_view);
            assert(new_views.drop_first() =~= mid_views);
            assert(final(self).spec_get(id_view) == Some((slot_view.xml, slot_view.fetched_at)));
            assert forall|k: Seq<char>| k != id_view implies final(self).spec_get(k)
                == cache_get(mid_views, k) by {
                assert(new_views.drop_first() =~= mid_views);
            }
            assert(cache_ids_distinct(new_views)) by {
                assert forall|a: int, b: int| 0 <= a < b < new_views.len() implies (
                #[trigger] new_views[a]).id != (#[trigger] new_views[b]).id by {
                    if a == 0 {
                        if new_views[b].id == slot_view.id {
                            lemma_cache_get_present(mid_views, slot_view.id, b - 1);
                            assert(false);
                        }
                    } else {
                        assert(mid_views[a - 1] == new_views[a] && mid_views[b - 1]
                            == new_views[b]);
                    }
                }
            }
        }
    }

    /// Looks up a fresh document, marking it most recently used; a
    /// document older than the TTL is evicted and reported absent.
    pub fn lookup(&mut self, id: &str, now: u64) -> (r: Option<String>)
        requires
            old(self).wf(),
        ensures
            final(self).wf(),
            final(self).spec_capacity() == old(self).spec_capacity(),
            final(self).spec_ttl() == old(self).spec_ttl(),
            match old(self).spec_get(id@) {
                None => r is None && final(self).spec_get(id@) is None,
                Some(entry) => {
                    if now > entry.1 && now - entry.1 > old(self).spec_ttl() {
                        r is None && final(self).spec_get(id@) is None
                    } else {
                        (match r {
                            Some(xml) => xml@ == entry.0,
                            None => false,
                        }) && final(self).spec_get(id@) == Some(entry)
                    }
                },
            },
            forall|k: Seq<char>| k != id@ ==> final(self).spec_get(k) == old(self).spec_get(k),
    {
        match self.take_slot(id) {
            None => None,
            Some((xml, fetched_at)) => {
                let stale = now > fetched_at && now - fetched_at > self.ttl_secs;
                if stale {
                    None
                } else {
                    let out = xml.clone();
                    self.put_front(id.to_owned(), xml, fetched_at);
                    Some(out)
                }
            },
        }
    }

    /// Looks up a fresh cached document and summarizes it, marking it
    /// most recently used.  What comes back is exactly what the parser
    /// reads from the cached text.
    pub fn resolve_cached(&mut self, id: &str, now: u64) -> (r: Option<EntityInfo>)
        requires
            old(self).wf(),
        ensures
            final(self).wf(),
            final(self).spec_capacity() == old(self).spec_capacity(),
            final(self).spec_ttl() == old(self).spec_ttl(),
            forall|k: Seq<char>| k != id@ ==> final(self).spec_get(k) == old(self).spec_get(k),
            match old(self).spec_get(id@) {
                None => r is None,
                Some(entry) => {
                    if now > entry.1 && now - entry.1 > old(self).spec_ttl() {
                        r is None
                    } else {
                        view_opt_entity(r) == entity_info_of(entry.0)
                    }
                },
            },
    {
        match self.lookup(id, now) {
            Some(xml) => parse_entity_info(xml.as_str()),
            None => None,
        }
    }

    /// Takes a fetched document and the outcome of its enveloped-
    /// signature verification; a verified document that parses is
    /// cached and summarized, anything else leaves the cache exactly
    /// as it was and is reported as `MdqFetchFailed`.
    ///
    /// The verification itself happens outside this crate; this
    /// function holds whatever that outcome was, which is what keeps a
    /// badly signed document out of the cache.
    pub fn admit_descriptor(&mut self, id: &str, xml: &str, sig_ok: bool, now: u64) -> (r:
        Result<EntityInfo, Error>)
        requires
            old(self).wf(),
        ensures
            final(self).wf(),
            final(self).spec_capacity() == old(self).spec_capacity(),
            final(self).spec_ttl() == old(self).spec_ttl(),
            r is Ok <==> sig_ok && entity_info_of(xml@) is Some,
            r matches Err(e) ==> e is MdqFetchFailed && *final(self) == *old(self),
            r matches Ok(info) ==> {
                &&& entity_info_of(xml@) == Some(info@)
                &&& final(self).spec_get(id@) == Some((xml@, now))
                &&& (old(self).spec_get(id@) is Some ==> forall|k: Seq<char>| k != id@
                    ==> final(self).spec_get(k) == old(self).spec_get(k))
                &&& (old(self).spec_get(id@) is None && old(self).spec_slots().len() < old(self).spec_capacity() ==> forall|k: Seq<char>| k != id@ ==> final(self).spec_get(k)
                    == old(self).spec_get(k))
                &&& (old(self).spec_get(id@) is None && old(self).spec_slots().len() == old(self).spec_capacity() ==> final(self).spec_get(
                    old(self).spec_slots().last().id,
                ) is None)
                &&& (old(self).spec_get(id@) is None && old(self).spec_slots().len() == old(self).spec_capacity() ==> forall|k: Seq<char>|
                    k != id@ && k != old(self).spec_slots().last().id ==> final(self).spec_get(k) == old(self).spec_get(k))
            },
    {
        if !sig_ok {
            return Err(Error::MdqFetchFailed("metadata signature verification failed".to_owned()));
        }
        match parse_entity_info(xml) {
            None => Err(Error::MdqFetchFailed("metadata did not parse".to_owned())),
            Some(info) => {
                let ghost pre = *self;
                let taken = self.take_slot(id);
                let ghost mid = *self;
                proof {
                    if pre.spec_get(id@) is Some {
                        assert(mid.spec_slots().len() < pre.spec_capacity());
                    } else {
                        assert(mid == pre);
                    }
                }
                self.put_front(id.to_owned(), xml.to_owned(), now);
                Ok(info)
            },
        }
    }
}

/// A key absent from a longer list stays absent from its prefix.
proof fn lemma_cache_get_absent_still(
    views0: Seq<CacheSlotV>,
    views1: Seq<CacheSlotV>,
    id: Seq<char>,
)
    requires
        cache_get(views0, id) is None,
        views1 == views0.drop_last(),
        views0.len() > 0,
    ensures
        cache_get(views1, id) is None,
    decreases views0.len(),
{
    if views0.len() > 1 {
        assert(views1[0] == views0[0]);
        if views0[0].id != id {
            assert(views1.drop_first() =~= views0.drop_first().drop_last());
            lemma_cache_get_absent_still(views0.drop_first(), views1.drop_first(), id);
        }
    } else {
        assert(views1 =~= Seq::<CacheSlotV>::empty());
    }
}

/// Where some slot carries the key, the lookup finds one.
proof fn lemma_cache_get_present(s: Seq<CacheSlotV>, id: Seq<char>, j: int)
    requires
        0 <= j < s.len(),
        s[j].id == id,
    ensures
        cache_get(s, id) is Some,
    decreases s.len(),
{
    if s[0].id != id {
        assert(s.drop_first()[j - 1] == s[j]);
        lemma_cache_get_present(s.drop_first(), id, j - 1);
    }
}

} // verus!
