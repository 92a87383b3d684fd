//! The federation discovery index.
//!
//! A searchable snapshot of the upstream federation's identity
//! providers, rebuilt wholesale from the metadata aggregate on each
//! refresh.  Searching is a case-insensitive (ASCII) substring match on
//! the display name, walking the snapshot in its stored order.

use vstd::prelude::*;
use vstd::string::StrSliceExecFns;
use vstd::string::StringSliceAdditionalSpecFns;
use vstd::utf8::encode_utf8;
use crate::aggregate::{
    entries_of_fragments, entries_view, fragment_views, parse_idp_entries, sorted_by_name,
    EntityEntry, EntityEntryV,
};
use crate::bytes::{contains_bytes, find_bytes, lower_bytes, to_lower};

verus! {

/// Where the federation publishes the signed metadata aggregate.
pub const AGGREGATE_URL: &'static str = "https://mdq.incommon.org/entities";

/// Seconds between two refreshes of the index.
pub const REFRESH_INTERVAL_SECS: u64 = 21600;

/// How many entries a search returns at most.
pub const SEARCH_RESULT_LIMIT: usize = 20;

/// Whether an entry answers a query: the ASCII-lowercased query occurs
/// in the ASCII-lowercased display name (on their UTF-8 bytes).
pub open spec fn entry_matches(e: EntityEntryV, q: Seq<char>) -> bool {
    contains_bytes(lower_bytes(encode_utf8(e.display_name)), lower_bytes(encode_utf8(q)))
}

/// The entries of `s` that answer `q`, in stored order.
pub open spec fn matching(s: Seq<EntityEntryV>, q: Seq<char>) -> Seq<EntityEntryV> {
    s.filter(|e: EntityEntryV| entry_matches(e, q))
}

/// What a search returns: the matching entries in stored order, cut
/// off at `limit`.
pub open spec fn search_results(s: Seq<EntityEntryV>, q: Seq<char>, limit: int) -> Seq<
    EntityEntryV,
> {
    let f = matching(s, q);
    if limit < f.len() {
        f.take(limit)
    } else {
        f
    }
}

/// Appending an entry extends the matches exactly when it answers the
/// query.
pub proof fn lemma_matching_push(s: Seq<EntityEntryV>, e: EntityEntryV, q: Seq<char>)
    ensures
        matching(s.push(e), q) == if entry_matches(e, q) {
            matching(s, q).push(e)
        } else {
            matching(s, q)
        },
{
    reveal(Seq::filter);
    assert(s.push(e).drop_last() =~= s);
    assert(s.push(e).last() == e);
    if entry_matches(e, q) {
        assert(matching(s.push(e), q) =~= matching(s, q).push(e));
    } else {
        assert(matching(s.push(e), q) =~= matching(s, q));
    }
}

/// Matching distributes over concatenation.
pub proof fn lemma_matching_concat(a: Seq<EntityEntryV>, b: Seq<EntityEntryV>, q: Seq<char>)
    ensures
        matching(a + b, q) == matching(a, q) + matching(b, q),
{
    Seq::<EntityEntryV>::filter_distributes_over_add(
        a,
        b,
        |e: EntityEntryV| entry_matches(e, q),
    );
}

/// Law: a search returns at most `limit` entries, and each of them
/// answers the query.
pub proof fn lemma_search_results(s: Seq<EntityEntryV>, q: Seq<char>, limit: int)
    requires
        0 <= limit,
    ensures
        search_results(s, q, limit).len() <= limit,
        forall|k: int| 0 <= k < search_results(s, q, limit).len() ==> entry_matches(
            #[trigger] search_results(s, q, limit)[k],
            q,
        ),
{
    broadcast use vstd::seq_lib::group_filter_ensures;

    let f = matching(s, q);
    assert forall|k: int| 0 <= k < search_results(s, q, limit).len() implies entry_matches(
        #[trigger] search_results(s, q, limit)[k],
        q,
    ) by {
        assert(search_results(s, q, limit)[k] == f[k]);
    }
}

/// The in-memory snapshot of the federation's identity providers.
pub struct FederationIndex {
    entries: Vec<EntityEntry>,
}

impl View for FederationIndex {
    type V = Seq<EntityEntryV>;

    closed spec fn view(&self) -> Seq<EntityEntryV> {
        entries_view(self.entries@)
    }
}

impl Default for FederationIndex {
    /// An empty index.
    fn default() -> (r: Self)
        ensures
            r@ == Seq::<EntityEntryV>::empty(),
    {
        FederationIndex::new()
    }
}

impl FederationIndex {
    /// An empty index, as the proxy starts with before the first
    /// refresh.
    pub fn new() -> (r: Self)
        ensures
            r@ == Seq::<EntityEntryV>::empty(),
    {
        let r = FederationIndex { entries: Vec::new() };
        proof {
            assert(r@ =~= Seq::<EntityEntryV>::empty());
        }
        r
    }

    /// A read-only look at the snapshot's rows.
    pub fn entries(&self) -> (r: &Vec<EntityEntry>)
        ensures
            entries_view(r@) == self@,
    {
        &self.entries
    }

    /// Replaces the snapshot with what the given aggregate yields: the
    /// refresh step after a successful fetch.  The ordering is stable,
    /// so the snapshot is the same total order on every refresh of the
    /// same aggregate.
    pub fn apply_aggregate(&mut self, xml: &str)
        ensures
            sorted_by_name(final(self)@),
            final(self)@ == crate::aggregate::stable_sorted_of(
                entries_of_fragments(fragment_views(xml.spec_bytes())),
            ),
    {
        self.entries = parse_idp_entries(xml);
    }

    /// Searches the snapshot: walks it in stored order and returns the
    /// first `limit` entries whose lowercased display name holds the
    /// lowercased query.
    pub fn search(&self, query: &str, limit: usize) -> (r: Vec<EntityEntry>)
        ensures
            entries_view(r@) == search_results(self@, query@, limit as int),
    {
        let ghost all = entries_view(self.entries@);
        let qb = query.as_bytes_vec();
        let ql = to_lower(&qb);
        let n: usize = self.entries.len();
        let mut res: Vec<EntityEntry> = Vec::new();
        let mut i: usize = 0;
        proof {
            reveal(Seq::filter);
            assert(all.subrange(0, 0) =~= Seq::<EntityEntryV>::empty());
            assert(matching(Seq::<EntityEntryV>::empty(), query@) =~= Seq::<
                EntityEntryV,
            >::empty());
            assert(entries_view(res@) =~= Seq::<EntityEntryV>::empty());
        }
        loop
            invariant
                0 <= i <= n,
                n == self.entries@.len(),
                all == entries_view(self.entries@),
                ql@ == lower_bytes(encode_utf8(query@)),
                res@.len() <= limit,
                entries_view(res@) == matching(all.subrange(0, i as int), query@),
            ensures
                entries_view(res@) == search_results(all, query@, limit as int),
            decreases n - i,
        {
            if i == n {
                proof {
                    assert(all.subrange(0, n as int) =~= all);
                    let f = matching(all, query@);
                    assert(entries_view(res@) == f);
                    assert(!(limit < f.len()));
                }
                break;
            }
            if res.len() == limit {
                proof {
                    let pre = all.subrange(0, i as int);
                    let post = all.subrange(i as int, n as int);
                    assert(all =~= pre + post);
                    lemma_matching_concat(pre, post, query@);
                    let f = matching(all, query@);
                    assert(f == matching(pre, query@) + matching(post, query@));
                    if limit < f.len() {
                        assert(f.take(limit as int) =~= matching(pre, query@));
                    } else {
                        assert(f =~= matching(pre, query@));
                    }
                }
                break;
            }
            let entry = &self.entries[i];
            let db = entry.display_name.as_str().as_bytes_vec();
            let dl = to_lower(&db);
            let matched: bool = if ql.len() == 0 {
                proof {
                    assert(ql@ =~= dl@.subrange(0, 0));
                    assert(crate::bytes::matches_at(dl@, ql@, 0));
                }
                true
            } else {
                find_bytes(&dl, &ql)
            };
            proof {
                assert(entry@ == all[i as int]);
                assert(matched == entry_matches(all[i as int], query@));
                let pre = all.subrange(0, i as int);
                let pre1 = all.subrange(0, i + 1);
                assert(pre1 =~= pre.push(all[i as int]));
                lemma_matching_push(pre, all[i as int], query@);
            }
            if matched {
                let picked = entry.clone();
                proof {
                    assert(entries_view(res@.push(picked)) =~= entries_view(res@).push(picked@));
                    assert(entries_view(res@).push(picked@) == matching(
                        all.subrange(0, i + 1),
                        query@,
                    ));
                }
                res.push(picked);
                proof {
                    broadcast use vstd::seq_lib::group_filter_ensures;

                    assert(entries_view(res@).len() <= all.subrange(0, i + 1).len());
                }
            }
            i = i + 1;
        }
        res
    }
}

} // verus!
