//! The session store: sessions with increasing ids, a token each, and the time
//! they were made; swept by age.

use vstd::prelude::*;
use crate::text::{decimal, decimal_text};

verus! {

/// One session: its id, its token, and when it was made (seconds since the Unix epoch).
pub struct Session {
    pub id: u64,
    pub token: String,
    pub created_at: u64,
}

impl View for Session {
    type V = (u64, Seq<char>, u64);

    open spec fn view(&self) -> (u64, Seq<char>, u64) {
        (self.id, self.token@, self.created_at)
    }
}

/// The token of the session with this id: `session_` and the id in decimal.
pub open spec fn token_for(id: u64) -> Seq<char> {
    seq!['s', 'e', 's', 's', 'i', 'o', 'n', '_'] + decimal(id as nat)
}

/// How old something made at `created` is at `now`; nothing made later than `now` is older than zero.
pub open spec fn age(now: u64, created: u64) -> nat {
    if now >= created {
        (now - created) as nat
    } else {
        0
    }
}

/// Whether a session survives a sweep at `now` with this maximal age.
pub open spec fn is_fresh(e: (u64, Seq<char>, u64), now: u64, max_age: u64) -> bool {
    age(now, e.2) < max_age
}

/// The sessions that a sweep at `now` with this maximal age keeps, in order.
pub open spec fn swept(es: Seq<(u64, Seq<char>, u64)>, now: u64, max_age: u64) -> Seq<
    (u64, Seq<char>, u64),
> {
    es.filter(|e: (u64, Seq<char>, u64)| is_fresh(e, now, max_age))
}

/// A sweep keeps exactly the sessions younger than the maximal age.
pub proof fn law_sweep_by_age(
    es: Seq<(u64, Seq<char>, u64)>,
    now: u64,
    max_age: u64,
    e: (u64, Seq<char>, u64),
)
    ensures
        swept(es, now, max_age).contains(e) <==> (es.contains(e) && is_fresh(e, now, max_age)),
{
    let p = |x: (u64, Seq<char>, u64)| is_fresh(x, now, max_age);
    if swept(es, now, max_age).contains(e) {
        es.lemma_filter_contains_rev(p, e);
        let i = choose|i: int| 0 <= i < es.filter(p).len() && es.filter(p)[i] == e;
        es.lemma_filter_pred(p, i);
    }
    if es.contains(e) && is_fresh(e, now, max_age) {
        let i = choose|i: int| 0 <= i < es.len() && es[i] == e;
        es.lemma_filter_contains(p, i);
    }
}

/// The sessions after a sweep at `now` and, where a new session is wanted and an
/// id is left, the new session made at `now` with id `next`.
pub open spec fn opened(
    es: Seq<(u64, Seq<char>, u64)>,
    next: u64,
    wants_new: bool,
    now: u64,
    max_age: u64,
) -> Seq<(u64, Seq<char>, u64)> {
    if wants_new && next < u64::MAX {
        swept(es, now, max_age).push((next, token_for(next), now))
    } else {
        swept(es, now, max_age)
    }
}

/// Ids strictly increase along the sequence and stay below `next`.
pub open spec fn ids_ordered(es: Seq<(u64, Seq<char>, u64)>, next: u64) -> bool {
    &&& forall|i: int, j: int| 0 <= i < j < es.len() ==> #[trigger] es[i].0 < #[trigger] es[j].0
    &&& forall|i: int| 0 <= i < es.len() ==> #[trigger] es[i].0 < next
}

/// A sweep keeps ids in order.
proof fn lemma_sweep_keeps_order(es: Seq<(u64, Seq<char>, u64)>, next: u64, now: u64, max_age: u64)
    requires
        ids_ordered(es, next),
    ensures
        ids_ordered(swept(es, now, max_age), next),
    decreases es.len(),
{
    let p = |e: (u64, Seq<char>, u64)| is_fresh(e, now, max_age);
    reveal(Seq::filter);
    if es.len() > 0 {
        let rest = es.drop_last();
        assert(ids_ordered(rest, next));
        lemma_sweep_keeps_order(rest, next, now, max_age);
        let f = rest.filter(p);
        assert forall|i: int| 0 <= i < f.len() implies f[i].0 < es.last().0 by {
            assert(f.contains(f[i]));
            rest.lemma_filter_contains_rev(p, f[i]);
            let k = choose|k: int| 0 <= k < rest.len() && rest[k] == f[i];
            assert(es[k] == rest[k]);
        }
        if p(es.last()) {
            let g = f.push(es.last());
            assert forall|i: int, j: int| 0 <= i < j < g.len() implies #[trigger] g[i].0
                < #[trigger] g[j].0 by {
                if j == g.len() - 1 {
                    assert(g[i] == f[i]);
                } else {
                    assert(g[i] == f[i] && g[j] == f[j]);
                }
            }
        }
    }
}

/// Relies on `std::time::SystemTime::now`: the seconds since the Unix epoch, or zero
/// where the clock stands before it. Nothing is known of the value.
#[verifier::external_body]
fn clock_secs() -> u64 {
    match std::time::SystemTime::now().duration_since(std::time::UNIX_EPOCH) {
        Ok(d) => d.as_secs(),
        Err(_) => 0,
    }
}

/// The sessions that the server has issued and not yet swept.
pub struct SessionStore {
    sessions: Vec<Session>,
    next_id: u64,
}

impl SessionStore {
    /// The sessions held, oldest id first.
    pub closed spec fn entries(&self) -> Seq<(u64, Seq<char>, u64)> {
        self.sessions@.map_values(|s: Session| s@)
    }

    /// The id that the next new session gets.
    pub closed spec fn next_id(&self) -> u64 {
        self.next_id
    }

    /// Ids strictly increase and stay below the next id.
    #[verifier::type_invariant]
    spec fn inv(&self) -> bool {
        ids_ordered(self.sessions@.map_values(|s: Session| s@), self.next_id)
    }

    pub fn new() -> (r: Self)
        ensures
            r.entries().len() == 0,
            r.next_id() == 0,
    {
        let r = SessionStore { sessions: Vec::new(), next_id: 0 };
        assert(r.entries() =~= Seq::<(u64, Seq<char>, u64)>::empty());
        r
    }

    /// How many sessions are held.
    pub fn len(&self) -> (r: usize)
        ensures
            r == self.entries().len(),
    {
        self.sessions.len()
    }

    /// Whether a session with this id is held.
    pub fn contains(&self, id: u64) -> (r: bool)
        ensures
            r == exists|i: int| 0 <= i < self.entries().len() && self.entries()[i].0 == id,
    {
        let mut i: usize = 0;
        while i < self.sessions.len()
            invariant
                i <= self.entries().len(),
                forall|j: int| 0 <= j < i ==> self.entries()[j].0 != id,
            decreases self.entries().len() - i,
        {
            assert(self.entries()[i as int].0 == self.sessions@[i as int].id);
            if self.sessions[i].id == id {
                return true;
            }
            i += 1;
        }
        false
    }

    /// Whether another session can still get a fresh id.
    pub fn can_issue(&self) -> (r: bool)
        ensures
            r == (self.next_id() < u64::MAX),
    {
        self.next_id < u64::MAX
    }

    /// Keeps a session that was made elsewhere; it must be newer than every session held.
    pub fn insert(&mut self, id: u64, token: String, created_at: u64)
        requires
            old(self).next_id() <= id < u64::MAX,
        ensures
            final(self).entries() == old(self).entries().push((id, token@, created_at)),
            final(self).next_id() == id + 1,
    {
        proof {
            use_type_invariant(&*self);
        }
        let ghost es = self.entries();
        let s = Session { id, token, created_at };
        let ghost v = s@;
        let mut sessions: Vec<Session> = Vec::new();
        std::mem::swap(&mut sessions, &mut self.sessions);
        sessions.push(s);
        assert(sessions@.map_values(|s: Session| s@) =~= es.push(v));
        *self = SessionStore { sessions, next_id: id + 1 };
    }

    /// The token of a request: the cookie it carried, taken as it is, or else the
    /// token of a new session, made at `now` with the next id, which is larger than
    /// every id issued before.
    pub fn resolve_at(&mut self, cookie: Option<String>, now: u64) -> (r: String)
        requires
            cookie is None ==> old(self).next_id() < u64::MAX,
        ensures
            cookie matches Some(c) ==> r@ == c@ && final(self).entries() == old(self).entries()
                && final(self).next_id() == old(self).next_id(),
            cookie is None ==> r@ == token_for(old(self).next_id()) && final(self).entries() == old(
                self,
            ).entries().push((old(self).next_id(), r@, now)) && final(self).next_id() == old(
                self,
            ).next_id() + 1 && (forall|i: int|
                0 <= i < old(self).entries().len() ==> #[trigger] old(self).entries()[i].0 < old(
                    self,
                ).next_id()),
    {
        proof {
            use_type_invariant(&*self);
        }
        match cookie {
            Some(c) => c,
            None => {
                let id = self.next_id;
                let mut token = "session_".to_owned();
                token.append(decimal_text(id).as_str());
                proof {
                    reveal_strlit("session_");
                    assert(token@ =~= token_for(id));
                }
                let r = token.clone();
                self.insert(id, token, now);
                r
            },
        }
    }

    /// `resolve_at` at the time the clock gives.
    pub fn handle_cookie(&mut self, cookie: Option<String>) -> (r: String)
        requires
            cookie is None ==> old(self).next_id() < u64::MAX,
        ensures
            cookie matches Some(c) ==> r@ == c@ && final(self).entries() == old(self).entries()
                && final(self).next_id() == old(self).next_id(),
            cookie is None ==> r@ == token_for(old(self).next_id()) && (exists|now: u64|
                final(self).entries() == old(self).entries().push((old(self).next_id(), r@, now)))
                && final(self).next_id() == old(self).next_id() + 1,
    {
        let now = clock_secs();
        self.resolve_at(cookie, now)
    }

    /// What a request gets from the store at `now`: sessions aged `max_age` or more
    /// are swept first; then the request's cookie is taken as it is, or a new session
    /// is made. `None` only where a new session is needed and no id is left.
    pub fn open_session_at(&mut self, cookie: Option<String>, max_age: u64, now: u64) -> (r: Option<
        String,
    >)
        ensures
            cookie matches Some(c) ==> (r matches Some(t) && t@ == c@),
            cookie is Some || old(self).next_id() == u64::MAX ==> final(self).entries() == swept(
                old(self).entries(),
                now,
                max_age,
            ) && final(self).next_id() == old(self).next_id(),
            cookie is None && old(self).next_id() == u64::MAX ==> r is None,
            cookie is None && old(self).next_id() < u64::MAX ==> (r matches Some(t) && t@
                == token_for(old(self).next_id()) && final(self).entries() == swept(
                old(self).entries(),
                now,
                max_age,
            ).push((old(self).next_id(), t@, now)) && final(self).next_id() == old(self).next_id()
                + 1),
    {
        self.sweep_at(max_age, now);
        if cookie.is_none() && !self.can_issue() {
            return None;
        }
        Some(self.resolve_at(cookie, now))
    }

    /// `open_session_at` at the time the clock gives.
    pub fn open_session(&mut self, cookie: Option<String>, max_age: u64) -> (r: Option<String>)
        ensures
            cookie matches Some(c) ==> (r matches Some(t) && t@ == c@),
            cookie is None && old(self).next_id() == u64::MAX ==> r is None,
            cookie is None && old(self).next_id() < u64::MAX ==> (r matches Some(t) && t@
                == token_for(old(self).next_id())),
            exists|now: u64|
                final(self).entries() == #[trigger] opened(
                    old(self).entries(),
                    old(self).next_id(),
                    cookie is None,
                    now,
                    max_age,
                ),
            final(self).next_id() as int == if cookie is None && old(self).next_id() < u64::MAX {
                old(self).next_id() + 1
            } else {
                old(self).next_id() as int
            },
    {
        let now = clock_secs();
        let ghost wants_new = cookie is None;
        let r = self.open_session_at(cookie, max_age, now);
        assert(self.entries() == opened(old(self).entries(), old(self).next_id(), wants_new, now, max_age));
        r
    }

    /// The session step of one request at `now`: every request sweeps; a request that
    /// a route takes then gets its session as `open_session_at` gives it; any other
    /// request gets none.
    pub fn session_for_request_at(
        &mut self,
        routed: bool,
        cookie: Option<String>,
        max_age: u64,
        now: u64,
    ) -> (r: Option<String>)
        ensures
            !routed ==> r is None && final(self).entries() == swept(old(self).entries(), now, max_age)
                && final(self).next_id() == old(self).next_id(),
            routed ==> (cookie matches Some(c) ==> (r matches Some(t) && t@ == c@)),
            routed && cookie is None && old(self).next_id() == u64::MAX ==> r is None,
            routed && cookie is None && old(self).next_id() < u64::MAX ==> (r matches Some(t) && t@
                == token_for(old(self).next_id())),
            routed ==> final(self).entries() == opened(
                old(self).entries(),
                old(self).next_id(),
                cookie is None,
                now,
                max_age,
            ),
    {
        if routed {
            self.open_session_at(cookie, max_age, now)
        } else {
            self.sweep_at(max_age, now);
            None
        }
    }

    /// `session_for_request_at` at the time the clock gives.
    pub fn session_for_request(&mut self, routed: bool, cookie: Option<String>, max_age: u64) -> (r:
        Option<String>)
        ensures
            !routed ==> r is None && (exists|now: u64|
                final(self).entries() == #[trigger] swept(old(self).entries(), now, max_age)),
            routed ==> (cookie matches Some(c) ==> (r matches Some(t) && t@ == c@)),
            routed && cookie is None && old(self).next_id() == u64::MAX ==> r is None,
            routed && cookie is None && old(self).next_id() < u64::MAX ==> (r matches Some(t) && t@
                == token_for(old(self).next_id())),
            routed ==> exists|now: u64|
                final(self).entries() == #[trigger] opened(
                    old(self).entries(),
                    old(self).next_id(),
                    cookie is None,
                    now,
                    max_age,
                ),
    {
        let now = clock_secs();
        let ghost wants_new = cookie is None;
        let r = self.session_for_request_at(routed, cookie, max_age, now);
        assert(routed ==> self.entries() == opened(old(self).entries(), old(self).next_id(), wants_new, now, max_age));
        assert(!routed ==> self.entries() == swept(old(self).entries(), now, max_age));
        r
    }

    /// `sweep_at` at the time the clock gives.
    pub fn clean_expired_cookies(&mut self, max_age: u64)
        ensures
            exists|now: u64| final(self).entries() == #[trigger] swept(old(self).entries(), now, max_age),
            final(self).next_id() == old(self).next_id(),
    {
        let now = clock_secs();
        self.sweep_at(max_age, now);
    }

    /// Removes every session whose age at `now` is `max_age` or more; the others
    /// stay, in order.
    pub fn sweep_at(&mut self, max_age: u64, now: u64)
        ensures
            final(self).entries() == swept(old(self).entries(), now, max_age),
            final(self).next_id() == old(self).next_id(),
    {
        proof {
            use_type_invariant(&*self);
        }
        let ghost es = self.entries();
        let ghost p = |e: (u64, Seq<char>, u64)| is_fresh(e, now, max_age);
        let mut kept: Vec<Session> = Vec::new();
        let mut i: usize = 0;
        while i < self.sessions.len()
            invariant
                es == self.entries(),
                p == (|e: (u64, Seq<char>, u64)| is_fresh(e, now, max_age)),
                i <= es.len(),
                kept@.map_values(|s: Session| s@) == es.take(i as int).filter(p),
            decreases es.len() - i,
        {
            proof {
                reveal(Seq::filter);
                assert(es.take(i as int + 1).drop_last() =~= es.take(i as int));
                assert(es.take(i as int + 1).last() == es[i as int]);
            }
            let s = &self.sessions[i];
            let fresh = if now >= s.created_at {
                now - s.created_at < max_age
            } else {
                0 < max_age
            };
            if fresh {
                let ghost before = kept@.map_values(|s: Session| s@);
                let copy = Session { id: s.id, token: s.token.clone(), created_at: s.created_at };
                kept.push(copy);
                assert(kept@.map_values(|s: Session| s@) =~= before.push(es[i as int]));
            }
            i += 1;
        }
        proof {
            assert(es.take(es.len() as int) =~= es);
            lemma_sweep_keeps_order(es, self.next_id, now, max_age);
        }
        self.sessions = kept;
    }
}

} // verus!
