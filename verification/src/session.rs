//! The store of in-flight authentication sessions.
//!
//! Each session links one inbound authentication request from a
//! service provider to one outbound request towards an upstream IdP.
//! The store is a keyed map from the random session ID to the session;
//! a session lives at most `SESSION_TTL_SECS` from its creation, a
//! lookup past that point evicts it, and a sweeper removes the
//! leftovers.

use vstd::prelude::*;
use crate::bytes::str_eq;

verus! {

/// Seconds a session lives from its creation.
pub const SESSION_TTL_SECS: u64 = 900;

/// Seconds between two sweeps of the store.
pub const CLEANUP_INTERVAL_SECS: u64 = 300;

/// One in-flight browser-mediated authentication.
#[derive(Debug)]
pub struct AuthSession {
    pub relay_state: Option<String>,
    pub original_request_id: String,
    pub sp_acs_url: String,
    pub sp_entity_id: String,
    pub selected_university: Option<String>,
    pub proxy_request_id: Option<String>,
    pub created_at: u64,
}

/// The ghost image of an optional string.
pub open spec fn opt_str_view(o: Option<String>) -> Option<Seq<char>> {
    match o {
        Some(s) => Some(s@),
        None => None,
    }
}

/// The ghost image of an `AuthSession`.
pub struct AuthSessionV {
    pub relay_state: Option<Seq<char>>,
    pub original_request_id: Seq<char>,
    pub sp_acs_url: Seq<char>,
    pub sp_entity_id: Seq<char>,
    pub selected_university: Option<Seq<char>>,
    pub proxy_request_id: Option<Seq<char>>,
    pub created_at: u64,
}

impl View for AuthSession {
    type V = AuthSessionV;

    open spec fn view(&self) -> AuthSessionV {
        AuthSessionV {
            relay_state: opt_str_view(self.relay_state),
            original_request_id: self.original_request_id@,
            sp_acs_url: self.sp_acs_url@,
            sp_entity_id: self.sp_entity_id@,
            selected_university: opt_str_view(self.selected_university),
            proxy_request_id: opt_str_view(self.proxy_request_id),
            created_at: self.created_at,
        }
    }
}

impl Clone for AuthSession {
    fn clone(&self) -> (r: Self)
        ensures
            r@ == self@,
    {
        AuthSession {
            relay_state: clone_opt_string(&self.relay_state),
            original_request_id: self.original_request_id.clone(),
            sp_acs_url: self.sp_acs_url.clone(),
            sp_entity_id: self.sp_entity_id.clone(),
            selected_university: clone_opt_string(&self.selected_university),
            proxy_request_id: clone_opt_string(&self.proxy_request_id),
            created_at: self.created_at,
        }
    }
}

/// Copies an optional string.
pub fn clone_opt_string(o: &Option<String>) -> (r: Option<String>)
    ensures
        opt_str_view(r) == opt_str_view(*o),
{
    match o {
        Some(s) => Some(s.clone()),
        None => None,
    }
}

/// Whether a session created at `s.created_at` is expired at `now`:
/// strictly more than the TTL has passed.
pub open spec fn expired(s: AuthSessionV, now: u64) -> bool {
    now > s.created_at && now - s.created_at > SESSION_TTL_SECS
}

/// A session and the key it is filed under.
struct Slot {
    id: String,
    session: AuthSession,
}

/// The ghost image of a slot.
pub struct SlotV {
    pub id: Seq<char>,
    pub session: AuthSessionV,
}

impl View for Slot {
    type V = SlotV;

    closed spec fn view(&self) -> SlotV {
        SlotV { id: self.id@, session: self.session@ }
    }
}

/// The session filed under `id`: the first slot carrying that key.
pub open spec fn slots_get(s: Seq<SlotV>, id: Seq<char>) -> Option<AuthSessionV>
    decreases s.len(),
{
    if s.len() == 0 {
        None
    } else if s[0].id == id {
        Some(s[0].session)
    } else {
        slots_get(s.drop_first(), id)
    }
}

/// No two slots carry the same key.
pub open spec fn ids_distinct(s: Seq<SlotV>) -> bool {
    forall|i: int, j: int| 0 <= i < j < s.len() ==> (#[trigger] s[i]).id != (#[trigger] s[j]).id
}

/// Where a key is absent, the lookup is `None`.
proof fn lemma_slots_get_absent(s: Seq<SlotV>, id: Seq<char>)
    requires
        forall|k: int| 0 <= k < s.len() ==> (#[trigger] s[k]).id != id,
    ensures
        slots_get(s, id) is None,
    decreases s.len(),
{
    if s.len() > 0 {
        assert(forall|k: int| 0 <= k < s.drop_first().len() ==> (#[trigger] s.drop_first()[k]).id
            != id);
        lemma_slots_get_absent(s.drop_first(), id);
    }
}

/// Where some slot carries the key, the lookup finds one.
proof fn lemma_slots_get_present(s: Seq<SlotV>, id: Seq<char>)
    requires
        exists|k: int| 0 <= k < s.len() && (#[trigger] s[k]).id == id,
    ensures
        slots_get(s, id) is Some,
    decreases s.len(),
{
    if s.len() > 0 && s[0].id != id {
        let k = choose|k: int| 0 <= k < s.len() && (#[trigger] s[k]).id == id;
        assert(s.drop_first()[k - 1] == s[k]);
        lemma_slots_get_present(s.drop_first(), id);
    }
}

/// Where `j` is the first slot carrying the key, the lookup yields it.
proof fn lemma_slots_get_at(s: Seq<SlotV>, id: Seq<char>, j: int)
    requires
        0 <= j < s.len(),
        s[j].id == id,
        forall|k: int| 0 <= k < j ==> (#[trigger] s[k]).id != id,
    ensures
        slots_get(s, id) == Some(s[j].session),
    decreases j,
{
    if j > 0 {
        assert(s[0].id != id);
        lemma_slots_get_at(s.drop_first(), id, j - 1);
    }
}

/// Removing a slot that carries another key leaves a lookup unchanged.
proof fn lemma_slots_get_remove_other(s: Seq<SlotV>, j: int, id: Seq<char>)
    requires
        0 <= j < s.len(),
        s[j].id != id,
    ensures
        slots_get(s.remove(j), id) == slots_get(s, id),
    decreases s.len(),
{
    if j == 0 {
        assert(s.remove(0) =~= s.drop_first());
    } else {
        assert(s.remove(j)[0] == s[0]);
        if s[0].id == id {
            assert(s.remove(j).len() > 0);
        } else {
            assert(s.remove(j).drop_first() =~= s.drop_first().remove(j - 1));
            lemma_slots_get_remove_other(s.drop_first(), j - 1, id);
        }
    }
}

/// The concurrent mapping from session ID to in-flight session.
pub struct SessionStore {
    slots: Vec<Slot>,
}

impl Default for SessionStore {
    /// An empty store.
    fn default() -> (r: Self)
        ensures
            r.wf(),
            forall|k: Seq<char>| r.spec_get(k) is None,
    {
        SessionStore::new()
    }
}

impl SessionStore {
    /// The session filed under `id`, if any.
    pub closed spec fn spec_get(&self, id: Seq<char>) -> Option<AuthSessionV> {
        slots_get(self.slots@.map_values(|s: Slot| s@), id)
    }

    /// The store's internal soundness: one slot per key.
    pub closed spec fn wf(&self) -> bool {
        ids_distinct(self.slots@.map_values(|s: Slot| s@))
    }

    /// An empty store.
    pub fn new() -> (r: Self)
        ensures
            r.wf(),
            forall|k: Seq<char>| r.spec_get(k) is None,
    {
        let r = SessionStore { slots: Vec::new() };
        proof {
            assert forall|k: Seq<char>| r.spec_get(k) is None by {
                assert(r.slots@.map_values(|s: Slot| s@) =~= Seq::<SlotV>::empty());
            }
        }
        r
    }

    /// Removes and returns the session filed under `id`, if any.
    pub fn remove(&mut self, id: &str) -> (r: Option<AuthSession>)
        requires
            old(self).wf(),
        ensures
            final(self).wf(),
            final(self).spec_get(id@) is None,
            match r {
                Some(s) => old(self).spec_get(id@) == Some(s@),
                None => old(self).spec_get(id@) is None,
            },
            forall|k: Seq<char>| k != id@ ==> final(self).spec_get(k) == old(self).spec_get(k),
    {
        let ghost views = self.slots@.map_values(|s: Slot| s@);
        let n: usize = self.slots.len();
        let mut j: usize = 0;
        loop
            invariant
                0 <= j <= n,
                n == self.slots@.len(),
                views == self.slots@.map_values(|s: Slot| s@),
                forall|k: int| 0 <= k < j ==> (#[trigger] views[k]).id != id@,
            ensures
                0 <= j <= n,
                j < n ==> views[j as int].id == id@,
                forall|k: int| 0 <= k < j ==> (#[trigger] views[k]).id != id@,
                j == n ==> forall|k: int| 0 <= k < n ==> (#[trigger] views[k]).id != id@,
            decreases n - j,
        {
            if j == n {
                break;
            }
            if str_eq(self.slots[j].id.as_str(), id) {
                proof {
                    assert(views[j as int] == self.slots@[j as int]@);
                }
                break;
            }
            proof {
                assert(views[j as int] == self.slots@[j as int]@);
            }
            j = j + 1;
        }
        if j == self.slots.len() {
            proof {
                lemma_slots_get_absent(views, id@);
            }
            return None;
        }
        let slot = self.slots.remove(j);
        proof {
            let new_views = self.slots@.map_values(|s: Slot| s@);
            assert(new_views =~= views.remove(j as int)) by {
                assert forall|k: int| 0 <= k < new_views.len() implies new_views[k]
                    == views.remove(j as int)[k] by {
                    assert(new_views[k] == self.slots@[k]@);
                }
            }
            lemma_slots_get_at(views, id@, j as int);
            assert forall|k: int| 0 <= k < new_views.len() implies (#[trigger] new_views[k]).id
                != id@ by {
                if k < j {
                    assert(new_views[k] == views[k]);
                } else {
                    assert(new_views[k] == views[k + 1]);
                }
            }
            lemma_slots_get_absent(new_views, id@);
            assert forall|k: Seq<char>| k != id@ implies final(self).spec_get(k) == old(
                self,
            ).spec_get(k) by {
                assert(views[j as int].id == id@);
                lemma_slots_get_remove_other(views, j as int, k);
            }
            assert(ids_distinct(new_views)) by {
                assert forall|a: int, b: int| 0 <= a < b < new_views.len() implies (
                #[trigger] new_views[a]).id != (#[trigger] new_views[b]).id by {
                    let a0: int = if a < j { a } else { a + 1 };
                    let b0: int = if b < j { b } else { b + 1 };
                    assert(new_views[a] == views[a0] && new_views[b] == views[b0]);
                }
            }
        }
        Some(slot.session)
    }

    /// Files `session` under `id`, displacing any session already
    /// there.
    fn insert_front(&mut self, id: String, session: AuthSession)
        requires
            old(self).wf(),
        ensures
            final(self).wf(),
            final(self).spec_get(id@) == Some(session@),
            forall|k: Seq<char>| k != id@ ==> final(self).spec_get(k) == old(self).spec_get(k),
    {
        let ghost id_view = id@;
        let ghost session_view = session@;
        let _ = self.remove(id.as_str());
        let ghost mid_views = self.slots@.map_values(|s: Slot| s@);
        let ghost mid = *self;
        self.slots.insert(0, Slot { id, session });
        proof {
            let new_views = self.slots@.map_values(|s: Slot| s@);
            let slot_view = SlotV { id: id_view, session: session_view };
            assert(new_views =~= seq![slot_view] + mid_views) by {
                assert forall|k: int| 0 <= k < new_views.len() implies new_views[k] == (
                seq![slot_view] + mid_views)[k] by {
                    assert(new_views[k] == self.slots@[k]@);
                    if k > 0 {
                        assert(self.slots@[k] == mid.slots@[k - 1]);
                    }
                }
            }
            assert(new_views[0] == slot_view);
            assert(new_views.drop_first() =~= mid_views);
            assert(final(self).spec_get(id_view) == Some(session_view));
            assert forall|k: Seq<char>| k != id_view implies final(self).spec_get(k)
                == mid.spec_get(k) by {
                assert(new_views.drop_first() =~= mid_views);
            }
            assert(ids_distinct(new_views)) by {
                assert(mid.spec_get(id_view) is None);
                assert forall|a: int, b: int| 0 <= a < b < new_views.len() implies (
                #[trigger] new_views[a]).id != (#[trigger] new_views[b]).id by {
                    if a == 0 {
                        if new_views[b].id == id_view {
                            assert(mid_views[b - 1].id == id_view);
                            lemma_slots_get_present(mid_views, id_view);
                            assert(false);
                        }
                    } else {
                        assert(mid_views[a - 1] == new_views[a] && mid_views[b - 1]
                            == new_views[b]);
                    }
                }
            }
        }
    }

    /// Creates a session under a fresh random ID with `created_at`
    /// equal to `now`, and returns the ID.
    pub fn create(
        &mut self,
        original_request_id: String,
        sp_acs_url: String,
        sp_entity_id: String,
        relay_state: Option<String>,
        now: u64,
    ) -> (id: String)
        requires
            old(self).wf(),
        ensures
            final(self).wf(),
            final(self).spec_get(id@) == Some(
                AuthSessionV {
                    relay_state: opt_str_view(relay_state),
                    original_request_id: original_request_id@,
                    sp_acs_url: sp_acs_url@,
                    sp_entity_id: sp_entity_id@,
                    selected_university: None,
                    proxy_request_id: None,
                    created_at: now,
                },
            ),
            forall|k: Seq<char>| k != id@ ==> final(self).spec_get(k) == old(self).spec_get(k),
    {
        let id = new_random_id();
        let session = AuthSession {
            relay_state,
            original_request_id,
            sp_acs_url,
            sp_entity_id,
            selected_university: None,
            proxy_request_id: None,
            created_at: now,
        };
        self.insert_front(id.clone(), session);
        id
    }

    /// Looks up a live session, cloning it out; an expired session is
    /// evicted and reported absent.
    pub fn get(&mut self, id: &str, now: u64) -> (r: Option<AuthSession>)
        requires
            old(self).wf(),
        ensures
            final(self).wf(),
            match old(self).spec_get(id@) {
                None => r is None && final(self).spec_get(id@) is None,
                Some(s) => {
                    if expired(s, now) {
                        r is None && final(self).spec_get(id@) is None
                    } else {
                        (match r {
                            Some(out) => out@ == s,
                            None => false,
                        }) && final(self).spec_get(id@) == Some(s)
                    }
                },
            },
            forall|k: Seq<char>| k != id@ ==> final(self).spec_get(k) == old(self).spec_get(k),
    {
        match self.remove(id) {
            None => None,
            Some(session) => {
                let late = now > session.created_at && now - session.created_at
                    > SESSION_TTL_SECS;
                if late {
                    None
                } else {
                    let out = session.clone();
                    self.insert_front(id.to_owned(), session);
                    Some(out)
                }
            },
        }
    }

    /// Sets `selected_university`; returns whether the session
    /// existed.
    pub fn update_university(&mut self, id: &str, entity_id: String) -> (r: bool)
        requires
            old(self).wf(),
        ensures
            final(self).wf(),
            r == (old(self).spec_get(id@) is Some),
            match old(self).spec_get(id@) {
                Some(s) => final(self).spec_get(id@) == Some(
                    AuthSessionV { selected_university: Some(entity_id@), ..s },
                ) && session_step(s, AuthSessionV { selected_university: Some(entity_id@), ..s }),
                None => final(self).spec_get(id@) is None,
            },
            forall|k: Seq<char>| k != id@ ==> final(self).spec_get(k) == old(self).spec_get(k),
    {
        match self.remove(id) {
            None => false,
            Some(mut session) => {
                session.selected_university = Some(entity_id);
                self.insert_front(id.to_owned(), session);
                true
            },
        }
    }

    /// Sets `proxy_request_id`; returns whether the session existed.
    pub fn update_proxy_request_id(&mut self, id: &str, request_id: String) -> (r: bool)
        requires
            old(self).wf(),
        ensures
            final(self).wf(),
            r == (old(self).spec_get(id@) is Some),
            match old(self).spec_get(id@) {
                Some(s) => final(self).spec_get(id@) == Some(
                    AuthSessionV { proxy_request_id: Some(request_id@), ..s },
                ) && session_step(s, AuthSessionV { proxy_request_id: Some(request_id@), ..s }),
                None => final(self).spec_get(id@) is None,
            },
            forall|k: Seq<char>| k != id@ ==> final(self).spec_get(k) == old(self).spec_get(k),
    {
        match self.remove(id) {
            None => false,
            Some(mut session) => {
                session.proxy_request_id = Some(request_id);
                self.insert_front(id.to_owned(), session);
                true
            },
        }
    }

    /// Sweeps the store: every expired session is evicted, every live
    /// one stays.
    pub fn cleanup_expired(&mut self, now: u64)
        requires
            old(self).wf(),
        ensures
            final(self).wf(),
            forall|k: Seq<char>| final(self).spec_get(k) == match old(self).spec_get(k) {
                Some(s) => if expired(s, now) {
                    None
                } else {
                    Some(s)
                },
                None => None::<AuthSessionV>,
            },
    {
        let ghost views = self.slots@.map_values(|s: Slot| s@);
        let n: usize = self.slots.len();
        let mut kept: Vec<Slot> = Vec::new();
        let mut i: usize = 0;
        proof {
            assert(views.take(0) =~= Seq::<SlotV>::empty());
            assert(kept@.map_values(|s: Slot| s@) =~= Seq::<SlotV>::empty());
            assert(keep_live(views.take(0), now) =~= Seq::<SlotV>::empty());
        }
        while i < n
            invariant
                0 <= i <= n,
                n == self.slots@.len(),
                views == self.slots@.map_values(|s: Slot| s@),
                kept@.map_values(|s: Slot| s@) == keep_live(views.take(i as int), now),
            decreases n - i,
        {
            let slot = &self.slots[i];
            let keep = !(now > slot.session.created_at && now - slot.session.created_at
                > SESSION_TTL_SECS);
            proof {
                assert(views[i as int] == self.slots@[i as int]@);
                assert(views.take(i + 1) =~= views.take(i as int).push(views[i as int]));
                lemma_keep_live_push(views.take(i as int), views[i as int], now);
            }
            if keep {
                let copy = Slot { id: slot.id.clone(), session: slot.session.clone() };
                proof {
                    assert(copy@ == views[i as int]);
                    assert(kept@.push(copy).map_values(|s: Slot| s@) =~= kept@.map_values(
                        |s: Slot| s@,
                    ).push(copy@));
                }
                kept.push(copy);
            }
            i = i + 1;
        }
        proof {
            assert(views.take(n as int) =~= views);
        }
        self.slots = kept;
        proof {
            lemma_keep_live_get(views, now);
            lemma_keep_live_distinct(views, now);
        }
    }
}

/// One store operation's effect on a session's value: it is left
/// whole, or `selected_university` is set, or `proxy_request_id` is
/// set.
pub open spec fn session_step(s1: AuthSessionV, s2: AuthSessionV) -> bool {
    ||| s2 == s1
    ||| (exists|u: Seq<char>| s2 == AuthSessionV { selected_university: Some(u), ..s1 })
    ||| (exists|p: Seq<char>| s2 == AuthSessionV { proxy_request_id: Some(p), ..s1 })
}

/// Law: a session's optional fields are monotonic.  Once
/// `selected_university` or `proxy_request_id` is set, no store
/// operation returns it to unset.
pub proof fn lemma_session_fields_monotonic(s1: AuthSessionV, s2: AuthSessionV)
    requires
        session_step(s1, s2),
    ensures
        s1.selected_university is Some ==> s2.selected_university is Some,
        s1.proxy_request_id is Some ==> s2.proxy_request_id is Some,
{
}

/// The live slots, in stored order.
pub open spec fn keep_live(s: Seq<SlotV>, now: u64) -> Seq<SlotV>
    decreases s.len(),
{
    if s.len() == 0 {
        s
    } else {
        let rest = keep_live(s.drop_first(), now);
        if expired(s[0].session, now) {
            rest
        } else {
            seq![s[0]] + rest
        }
    }
}

/// Appending a slot to the input appends it to the live slots exactly
/// when it is live.
proof fn lemma_keep_live_push(s: Seq<SlotV>, slot: SlotV, now: u64)
    ensures
        keep_live(s.push(slot), now) == if expired(slot.session, now) {
            keep_live(s, now)
        } else {
            keep_live(s, now).push(slot)
        },
    decreases s.len(),
{
    if s.len() == 0 {
        assert(s.push(slot).drop_first() =~= Seq::<SlotV>::empty());
        assert(s.push(slot)[0] == slot);
        assert(keep_live(s.push(slot).drop_first(), now) =~= Seq::<SlotV>::empty());
        if !expired(slot.session, now) {
            assert(keep_live(s.push(slot), now) =~= seq![slot] + Seq::<SlotV>::empty());
            assert(keep_live(s, now) =~= s);
            assert(keep_live(s.push(slot), now) =~= keep_live(s, now).push(slot));
        }
    } else {
        assert(s.push(slot).drop_first() =~= s.drop_first().push(slot));
        assert(s.push(slot)[0] == s[0]);
        lemma_keep_live_push(s.drop_first(), slot, now);
        if !expired(s[0].session, now) {
            if expired(slot.session, now) {
            } else {
                assert(seq![s[0]] + keep_live(s.drop_first(), now).push(slot) =~= (seq![s[0]]
                    + keep_live(s.drop_first(), now)).push(slot));
            }
        }
    }
}

/// A key absent from the input is absent from the live slots.
proof fn lemma_keep_live_absent(s: Seq<SlotV>, now: u64, id: Seq<char>)
    requires
        forall|m: int| 0 <= m < s.len() ==> (#[trigger] s[m]).id != id,
    ensures
        forall|idx: int| 0 <= idx < keep_live(s, now).len() ==> (
        #[trigger] keep_live(s, now)[idx]).id != id,
    decreases s.len(),
{
    if s.len() > 0 {
        assert forall|m: int| 0 <= m < s.drop_first().len() implies (
        #[trigger] s.drop_first()[m]).id != id by {
            assert(s.drop_first()[m] == s[m + 1]);
        }
        lemma_keep_live_absent(s.drop_first(), now, id);
        let rest = keep_live(s.drop_first(), now);
        if !expired(s[0].session, now) {
            let out = seq![s[0]] + rest;
            assert forall|idx: int| 0 <= idx < out.len() implies (#[trigger] out[idx]).id
                != id by {
                if idx == 0 {
                    assert(out[0] == s[0]);
                } else {
                    assert(out[idx] == rest[idx - 1]);
                }
            }
        }
    }
}

/// What a lookup finds among the live slots: the session it found
/// before, unless that one is expired.
proof fn lemma_keep_live_get(s: Seq<SlotV>, now: u64)
    requires
        ids_distinct(s),
    ensures
        forall|k: Seq<char>| slots_get(keep_live(s, now), k) == match slots_get(s, k) {
            Some(x) => if expired(x, now) {
                None
            } else {
                Some(x)
            },
            None => None::<AuthSessionV>,
        },
    decreases s.len(),
{
    if s.len() > 0 {
        assert(ids_distinct(s.drop_first())) by {
            assert forall|i: int, j: int|
                0 <= i < j < s.drop_first().len() implies (#[trigger] s.drop_first()[i]).id != (
                #[trigger] s.drop_first()[j]).id by {
                assert(s.drop_first()[i] == s[i + 1] && s.drop_first()[j] == s[j + 1]);
            }
        }
        lemma_keep_live_get(s.drop_first(), now);
        let rest = keep_live(s.drop_first(), now);
        assert forall|k: Seq<char>| slots_get(keep_live(s, now), k) == (match slots_get(s, k) {
            Some(x) => if expired(x, now) {
                None
            } else {
                Some(x)
            },
            None => None::<AuthSessionV>,
        }) by {
            if expired(s[0].session, now) {
                if s[0].id == k {
                    assert forall|m: int| 0 <= m < s.drop_first().len() implies (
                    #[trigger] s.drop_first()[m]).id != k by {
                        assert(s.drop_first()[m] == s[m + 1]);
                        assert(s[0].id != s[m + 1].id);
                    }
                    lemma_keep_live_absent(s.drop_first(), now, k);
                    lemma_slots_get_absent(rest, k);
                }
            } else {
                assert((seq![s[0]] + rest)[0] == s[0]);
                assert((seq![s[0]] + rest).drop_first() =~= rest);
            }
        }
    }
}

/// Sweeping keeps the keys distinct.
proof fn lemma_keep_live_distinct(s: Seq<SlotV>, now: u64)
    requires
        ids_distinct(s),
    ensures
        ids_distinct(keep_live(s, now)),
    decreases s.len(),
{
    if s.len() > 0 {
        assert(ids_distinct(s.drop_first())) by {
            assert forall|i: int, j: int|
                0 <= i < j < s.drop_first().len() implies (#[trigger] s.drop_first()[i]).id != (
                #[trigger] s.drop_first()[j]).id by {
                assert(s.drop_first()[i] == s[i + 1] && s.drop_first()[j] == s[j + 1]);
            }
        }
        lemma_keep_live_distinct(s.drop_first(), now);
        let rest = keep_live(s.drop_first(), now);
        if !expired(s[0].session, now) {
            assert forall|m: int| 0 <= m < s.drop_first().len() implies (
            #[trigger] s.drop_first()[m]).id != s[0].id by {
                assert(s.drop_first()[m] == s[m + 1]);
                assert(s[0].id != s[m + 1].id);
            }
            lemma_keep_live_absent(s.drop_first(), now, s[0].id);
            let out = seq![s[0]] + rest;
            assert forall|a: int, b: int| 0 <= a < b < out.len() implies (
            #[trigger] out[a]).id != (#[trigger] out[b]).id by {
                if a == 0 {
                    assert(out[b] == rest[b - 1]);
                } else {
                    assert(out[a] == rest[a - 1] && out[b] == rest[b - 1]);
                }
            }
        }
    }
}

/// Relies on `uuid::Uuid::new_v4` and its string form: a freshly drawn
/// 122-bit random identifier.  Nothing is assumed of its value.
#[verifier::external_body]
pub(crate) fn new_random_id() -> (r: String) {
    uuid::Uuid::new_v4().to_string()
}

} // verus!
