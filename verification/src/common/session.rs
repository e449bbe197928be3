//! Server-side sessions: string data under an id, valid until a deadline.
//! Times are nanoseconds on the monotonic clock since the store was made.
use vstd::prelude::*;
use crate::clock::{instant_now, nanos_since, unix_subsec_nanos};
use crate::num::{all_lower_hex, hex_chars, hex_repr, lemma_hex_repr_shape, lemma_pow16};
use crate::strmap::StrMap;
use crate::text::{chars_of, string_from_chars, to_owned_string};

verus! {

/// Nanoseconds in a second.
pub const NANOS_PER_SEC: u64 = 1_000_000_000;

/// One session: its data, and the time after which it is expired.
pub struct SessionData {
    data: StrMap<String>,
    expires_at: u64,
}

impl SessionData {
    /// The session's data.
    pub closed spec fn entries(&self) -> Map<Seq<char>, Seq<char>> {
        self.data@.map_values(|v: String| v@)
    }

    /// The last time at which the session is valid.
    pub closed spec fn deadline(&self) -> u64 {
        self.expires_at
    }
}

/// The id of a session created when the clock's sub-second part read
/// `nanos`: `sess_` and `nanos` in lower-case hexadecimal.
pub open spec fn session_id(nanos: u32) -> Seq<char> {
    "sess_"@ + hex_repr(nanos as nat)
}

/// The deadline of a session created at `now` that lives `ttl` nanoseconds,
/// held at the largest time.
pub open spec fn deadline_after(now: u64, ttl: u64) -> u64 {
    if now + ttl > u64::MAX {
        u64::MAX
    } else {
        (now + ttl) as u64
    }
}

/// The text of an optional string.
pub open spec fn opt_text(r: Option<String>) -> Option<Seq<char>> {
    match r {
        Some(v) => Some(v@),
        None => None,
    }
}

/// The value under `key` in the session `id` at time `now`: none when the
/// session is missing or expired at `now`, or has no such key.
pub open spec fn session_value(
    sessions: Map<Seq<char>, SessionData>,
    id: Seq<char>,
    key: Seq<char>,
    now: u64,
) -> Option<Seq<char>> {
    if sessions.contains_key(id) && now <= sessions[id].deadline()
        && sessions[id].entries().contains_key(key) {
        Some(sessions[id].entries()[key])
    } else {
        None
    }
}

/// What setting `key` to `value` in the session `id` at time `now` does:
/// it succeeds (`r`) exactly when the session exists and is live at `now`,
/// and then changes that session's `key` alone; otherwise nothing changes.
pub open spec fn set_effect(
    before: Map<Seq<char>, SessionData>,
    after: Map<Seq<char>, SessionData>,
    id: Seq<char>,
    key: Seq<char>,
    value: Seq<char>,
    now: u64,
    r: bool,
) -> bool {
    &&& r == (before.contains_key(id) && now <= before[id].deadline())
    &&& after.dom() == before.dom()
    &&& forall|k: Seq<char>| k != id && #[trigger] before.contains_key(k) ==> after[k] == before[k]
    &&& r ==> after[id].entries() == before[id].entries().insert(key, value)
    &&& r ==> after[id].deadline() == before[id].deadline()
    &&& !r ==> after == before
}

/// The sessions of `s` still live at time `now`.
pub open spec fn live_at(s: Map<Seq<char>, SessionData>, now: u64) -> Map<Seq<char>, SessionData> {
    s.restrict(Set::new(|k: Seq<char>| s.contains_key(k) && now <= s[k].deadline()))
}

/// Whether `k` is among the first `j` names of `names`.
pub open spec fn listed(names: Seq<String>, j: int, k: Seq<char>) -> bool {
    exists|t: int| 0 <= t < j && names[t]@ == k
}

/// Sessions by id, each living `ttl` from its creation.
pub struct SessionStore {
    store: StrMap<SessionData>,
    ttl: u64,
    origin: std::time::Instant,
}

impl SessionStore {
    /// The sessions, by id.
    pub closed spec fn sessions(&self) -> Map<Seq<char>, SessionData> {
        self.store@
    }

    /// How long a session lives, in nanoseconds.
    pub closed spec fn ttl_nanos(&self) -> u64 {
        self.ttl
    }

    /// Nanoseconds on the monotonic clock since this store was made: the
    /// time base of the `_at` methods. The reading is not stated.
    pub fn clock(&self) -> u64 {
        nanos_since(&self.origin)
    }

    /// A store whose sessions live `ttl_secs` seconds (held at the largest
    /// time the clock can show).
    pub fn new(ttl_secs: u64) -> (r: Self)
        ensures
            r.sessions() == Map::<Seq<char>, SessionData>::empty(),
            r.ttl_nanos() == if ttl_secs * NANOS_PER_SEC > u64::MAX {
                u64::MAX as int
            } else {
                ttl_secs * NANOS_PER_SEC
            },
    {
        let ttl = match ttl_secs.checked_mul(NANOS_PER_SEC) {
            Some(t) => t,
            None => u64::MAX,
        };
        SessionStore { store: StrMap::new(), ttl, origin: instant_now() }
    }

    /// Starts an empty session at time `now`, under the id made from
    /// `nanos`; a session with that id is replaced.
    pub fn create_at(&mut self, nanos: u32, now: u64) -> (id: String)
        ensures
            id@ == session_id(nanos),
            final(self).ttl_nanos() == old(self).ttl_nanos(),
            final(self).sessions().dom() == old(self).sessions().dom().insert(id@),
            final(self).sessions()[id@].entries() == Map::<Seq<char>, Seq<char>>::empty(),
            final(self).sessions()[id@].deadline() == deadline_after(now, old(self).ttl_nanos()),
            forall|k: Seq<char>|
                k != id@ && #[trigger] old(self).sessions().contains_key(k) ==> final(self).sessions()[k] == old(self).sessions()[k],
    {
        let mut text = chars_of("sess_");
        let mut digits = hex_chars(nanos as u64);
        text.append(&mut digits);
        let id = string_from_chars(&text);
        let fresh = SessionData { data: StrMap::new(), expires_at: now.saturating_add(self.ttl) };
        assert(fresh.entries() =~= Map::<Seq<char>, Seq<char>>::empty());
        self.store.insert(id.clone(), fresh);
        id
    }

    /// Starts an empty session now, and gives its id: what `create_at`
    /// does at the clock's readings.
    pub fn create(&mut self) -> (id: String)
        ensures
            exists|n: u32| id@ == session_id(n),
            final(self).ttl_nanos() == old(self).ttl_nanos(),
            final(self).sessions().dom() == old(self).sessions().dom().insert(id@),
            final(self).sessions()[id@].entries() == Map::<Seq<char>, Seq<char>>::empty(),
            exists|now: u64| #[trigger] deadline_after(now, old(self).ttl_nanos())
                == final(self).sessions()[id@].deadline(),
            forall|k: Seq<char>|
                k != id@ && #[trigger] old(self).sessions().contains_key(k) ==> final(self).sessions()[k] == old(self).sessions()[k],
    {
        let nanos = unix_subsec_nanos();
        let now = self.clock();
        let id = self.create_at(nanos, now);
        assert(deadline_after(now, old(self).ttl_nanos()) == self.sessions()[id@].deadline());
        id
    }

    /// The value under `key` in the session `session_id`, unless the
    /// session is missing or expired at `now`.
    pub fn get_at(&self, session_id: &str, key: &str, now: u64) -> (r: Option<String>)
        ensures
            match r {
                Some(v) => {
                    &&& self.sessions().contains_key(session_id@)
                    &&& now <= self.sessions()[session_id@].deadline()
                    &&& self.sessions()[session_id@].entries().contains_key(key@)
                    &&& v@ == self.sessions()[session_id@].entries()[key@]
                },
                None => !self.sessions().contains_key(session_id@) || now
                    > self.sessions()[session_id@].deadline()
                    || !self.sessions()[session_id@].entries().contains_key(key@),
            },
            opt_text(r) == session_value(self.sessions(), session_id@, key@, now),
    {
        match self.store.get(session_id) {
            None => None,
            Some(session) => {
                if now > session.expires_at {
                    return None;
                }
                match session.data.get(key) {
                    Some(v) => Some(v.clone()),
                    None => None,
                }
            },
        }
    }

    /// The value under `key` in the session `session_id`, now: what
    /// `get_at` gives at the clock's reading.
    pub fn get(&self, session_id: &str, key: &str) -> (r: Option<String>)
        ensures
            exists|now: u64| #[trigger]
                session_value(self.sessions(), session_id@, key@, now) == opt_text(r),
    {
        let now = self.clock();
        let r = self.get_at(session_id, key, now);
        assert(session_value(self.sessions(), session_id@, key@, now) == opt_text(r));
        r
    }

    /// Sets `key` to `value` in the session `session_id` if it exists and
    /// has not expired at `now`; says whether it did.
    pub fn set_at(&mut self, session_id: &str, key: &str, value: &str, now: u64) -> (r: bool)
        ensures
            r == (old(self).sessions().contains_key(session_id@) && now <= old(self).sessions()[session_id@].deadline()),
            final(self).ttl_nanos() == old(self).ttl_nanos(),
            final(self).sessions().dom() == old(self).sessions().dom(),
            forall|k: Seq<char>|
                k != session_id@ && #[trigger] old(self).sessions().contains_key(k) ==> final(self).sessions()[k] == old(self).sessions()[k],
            r ==> final(self).sessions()[session_id@].entries() == old(self).sessions()[session_id@].entries().insert(key@, value@),
            r ==> final(self).sessions()[session_id@].deadline() == old(self).sessions()[session_id@].deadline(),
            !r ==> final(self).sessions() == old(self).sessions(),
            set_effect(old(self).sessions(), final(self).sessions(), session_id@, key@, value@, now, r),
    {
        let live = match self.store.get(session_id) {
            Some(session) => now <= session.expires_at,
            None => false,
        };
        if !live {
            return false;
        }
        self.update_session(session_id, key, value);
        true
    }

    /// Puts `value` under `key` in the existing session `session_id`.
    fn update_session(&mut self, session_id: &str, key: &str, value: &str)
        requires
            old(self).sessions().contains_key(session_id@),
        ensures
            final(self).ttl_nanos() == old(self).ttl_nanos(),
            final(self).sessions().dom() == old(self).sessions().dom(),
            forall|k: Seq<char>|
                k != session_id@ && #[trigger] old(self).sessions().contains_key(k) ==> final(self).sessions()[k] == old(self).sessions()[k],
            final(self).sessions()[session_id@].entries() == old(self).sessions()[session_id@].entries().insert(key@, value@),
            final(self).sessions()[session_id@].deadline() == old(self).sessions()[session_id@].deadline(),
    {
        let old_session = self.store.take(session_id);
        match old_session {
            Some(s) => {
                let mut s = s;
                let ghost before = s.data@;
                s.data.insert(to_owned_string(key), to_owned_string(value));
                assert(s.entries() =~= before.map_values(|v: String| v@).insert(key@, value@));
                self.store.insert(to_owned_string(session_id), s);
            },
            None => {},
        }
    }

    /// Sets `key` to `value` in the session `session_id` if it is live now:
    /// what `set_at` does at the clock's reading.
    pub fn set(&mut self, session_id: &str, key: &str, value: &str) -> (r: bool)
        ensures
            final(self).ttl_nanos() == old(self).ttl_nanos(),
            exists|now: u64| #[trigger]
                set_effect(old(self).sessions(), final(self).sessions(), session_id@, key@, value@, now, r),
    {
        let now = self.clock();
        let r = self.set_at(session_id, key, value, now);
        assert(set_effect(old(self).sessions(), self.sessions(), session_id@, key@, value@, now, r));
        r
    }

    /// Drops every session expired at `now`.
    pub fn cleanup_at(&mut self, now: u64)
        ensures
            final(self).ttl_nanos() == old(self).ttl_nanos(),
            final(self).sessions() == live_at(old(self).sessions(), now),
    {
        let ghost s0 = self.sessions();
        let mut expired: Vec<String> = Vec::new();
        {
            let pairs = self.store.pairs();
            let mut i: usize = 0;
            while i < pairs.len()
                invariant
                    i <= pairs.len(),
                    forall|j: int|
                        0 <= j < pairs@.len() ==> s0.contains_key(#[trigger] pairs@[j].0@) && s0[pairs@[j].0@]
                            == *pairs@[j].1,
                    forall|k: Seq<char>| s0.contains_key(k) ==> exists|j: int|
                        0 <= j < pairs@.len() && #[trigger] pairs@[j].0@ == k,
                    forall|t: int|
                        0 <= t < expired@.len() ==> s0.contains_key(#[trigger] expired@[t]@) && now
                            > s0[expired@[t]@].deadline(),
                    forall|j: int|
                        0 <= j < i && now > pairs@[j].1.deadline() ==> exists|t: int|
                            0 <= t < expired@.len() && #[trigger] expired@[t]@ == pairs@[j].0@,
                decreases pairs.len() - i,
            {
                let ghost before = expired@;
                if now > pairs[i].1.expires_at {
                    expired.push(pairs[i].0.clone());
                    assert(expired@[expired@.len() - 1]@ == pairs@[i as int].0@);
                }
                assert forall|j: int|
                    0 <= j < i + 1 && now > pairs@[j].1.deadline() implies exists|t: int|
                        0 <= t < expired@.len() && #[trigger] expired@[t]@ == pairs@[j].0@ by {
                    if j < i {
                        let t = choose|t: int|
                            0 <= t < before.len() && #[trigger] before[t]@ == pairs@[j].0@;
                        assert(expired@[t] == before[t]);
                    } else {
                        assert(expired@[expired@.len() - 1]@ == pairs@[j].0@);
                    }
                }
                i = i + 1;
            }
            assert forall|k: Seq<char>|
                s0.contains_key(k) && now > s0[k].deadline() implies exists|t: int|
                    0 <= t < expired@.len() && #[trigger] expired@[t]@ == k by {
                let j = choose|j: int| 0 <= j < pairs@.len() && #[trigger] pairs@[j].0@ == k;
                assert(s0[pairs@[j].0@] == *pairs@[j].1);
            }
        }
        let mut j: usize = 0;
        while j < expired.len()
            invariant
                j <= expired.len(),
                self.ttl_nanos() == old(self).ttl_nanos(),
                forall|t: int|
                    0 <= t < expired@.len() ==> s0.contains_key(#[trigger] expired@[t]@) && now
                        > s0[expired@[t]@].deadline(),
                self.sessions() == Map::new(
                    |k: Seq<char>| s0.contains_key(k) && !listed(expired@, j as int, k),
                    |k: Seq<char>| s0[k],
                ),
            decreases expired.len() - j,
        {
            self.store.remove(expired[j].as_str());
            assert forall|k: Seq<char>|
                #[trigger] listed(expired@, j + 1, k) == (listed(expired@, j as int, k) || k
                    == expired@[j as int]@) by {
                if listed(expired@, j + 1, k) {
                    let t = choose|t: int| 0 <= t < j + 1 && expired@[t]@ == k;
                    if t < j {
                        assert(listed(expired@, j as int, k));
                    }
                }
                if listed(expired@, j as int, k) {
                    let t = choose|t: int| 0 <= t < j && expired@[t]@ == k;
                    assert(0 <= t < j + 1 && expired@[t]@ == k);
                }
                if k == expired@[j as int]@ {
                    assert(0 <= j < j + 1 && expired@[j as int]@ == k);
                }
            }
            j = j + 1;
            assert(self.sessions() =~= Map::new(
                |k: Seq<char>| s0.contains_key(k) && !listed(expired@, j as int, k),
                |k: Seq<char>| s0[k],
            ));
        }
        assert forall|k: Seq<char>| #[trigger] s0.contains_key(k) implies listed(
            expired@,
            expired@.len() as int,
            k,
        ) == (now > s0[k].deadline()) by {
            if now > s0[k].deadline() {
                let t = choose|t: int| 0 <= t < expired@.len() && #[trigger] expired@[t]@ == k;
                assert(0 <= t < expired@.len() && expired@[t]@ == k);
            }
        }
        assert(self.sessions() =~= s0.restrict(
            Set::new(|k: Seq<char>| s0.contains_key(k) && now <= s0[k].deadline()),
        ));
    }

    /// Drops every session expired now: what `cleanup_at` does at the
    /// clock's reading.
    pub fn cleanup(&mut self)
        ensures
            final(self).ttl_nanos() == old(self).ttl_nanos(),
            exists|now: u64| #[trigger] live_at(old(self).sessions(), now) == final(self).sessions(),
    {
        let now = self.clock();
        self.cleanup_at(now);
        assert(live_at(old(self).sessions(), now) == self.sessions());
    }

    /// Ends the session `session_id`.
    pub fn destroy(&mut self, session_id: &str)
        ensures
            final(self).sessions() == old(self).sessions().remove(session_id@),
            final(self).ttl_nanos() == old(self).ttl_nanos(),
    {
        self.store.remove(session_id);
    }
}

/// A store whose sessions live `ttl_secs` seconds.
pub fn session_store(ttl_secs: u64) -> (r: SessionStore)
    ensures
        r.sessions() == Map::<Seq<char>, SessionData>::empty(),
        r.ttl_nanos() == if ttl_secs * NANOS_PER_SEC > u64::MAX {
            u64::MAX as int
        } else {
            ttl_secs * NANOS_PER_SEC
        },
{
    SessionStore::new(ttl_secs)
}

/// What is set in a live session is what a later read gets, until the
/// session's deadline: after `set_at` succeeds, `get_at` of the same key at
/// any time up to the deadline finds the value.
pub proof fn lemma_session_set_get(
    entries: Map<Seq<char>, Seq<char>>,
    key: Seq<char>,
    value: Seq<char>,
    deadline: u64,
    later: u64,
)
    requires
        later <= deadline,
    ensures
        entries.insert(key, value).contains_key(key),
        entries.insert(key, value)[key] == value,
        !(later > deadline),
{
}

/// Every session id is `sess_` followed by one to eight lowercase
/// hexadecimal digits, and a session just created holds no value under any
/// key.
pub proof fn lemma_session_id_shape(nanos: u32)
    ensures
        session_id(nanos).subrange(0, 5) == "sess_"@,
        6 <= session_id(nanos).len() <= 13,
        all_lower_hex(session_id(nanos).subrange(5, session_id(nanos).len() as int)),
{
    reveal_strlit("sess_");
    lemma_pow16();
    lemma_hex_repr_shape(nanos as nat, 8);
    let t = session_id(nanos);
    assert(t.subrange(0, 5) =~= "sess_"@);
    assert(t.subrange(5, t.len() as int) =~= hex_repr(nanos as nat));
}

/// A session just created holds nothing: reading any key of it at any
/// time gives nothing, and setting a key in it succeeds at any time up to
/// its deadline.
pub proof fn lemma_session_created(
    sessions: Map<Seq<char>, SessionData>,
    after: Map<Seq<char>, SessionData>,
    id: Seq<char>,
    key: Seq<char>,
    value: Seq<char>,
    t: u64,
    r: bool,
)
    requires
        sessions.contains_key(id),
        sessions[id].entries() == Map::<Seq<char>, Seq<char>>::empty(),
    ensures
        session_value(sessions, id, key, t) is None,
        t <= sessions[id].deadline() && set_effect(sessions, after, id, key, value, t, r) ==> r,
{
}

} // verus!
