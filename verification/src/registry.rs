//! The session registry: the table of pending login handshakes.
//!
//! A session is created empty, may be bound to the CSRF state of one browser
//! redirect, receives its token at most once and gives it up at most once.
//! The registry is the only state that the login requests share.

use crate::clock::now_millis;
use crate::entropy::random_session_id;
use crate::text::same_text;
use vstd::prelude::*;

verus! {

/// One pending handshake, as the registry stores it.
pub struct PendingSession {
    pub session_id: String,
    pub created_at: i64,
    pub csrf_state: Option<String>,
    pub slot: Option<String>,
}

/// What the registry knows of one session, apart from its identifier.
pub struct SessionView {
    /// When the session was created, in milliseconds since the epoch.
    pub created_at: i64,
    /// The CSRF state of the outstanding browser redirect, once one was issued.
    pub csrf_state: Option<Seq<char>>,
    /// The single-delivery slot: the token, once it was delivered.
    pub slot: Option<Seq<char>>,
}

/// The registry as a mathematical table from session identifier to session.
pub type Table = Map<Seq<char>, SessionView>;

/// Why the registry refused an operation.
#[derive(Debug, PartialEq, Eq, Structural)]
pub enum RegistryError {
    /// No session has this identifier.
    NotFound,
    /// The session's slot already holds a token.
    AlreadyDelivered,
    /// A session with this identifier exists already.
    DuplicateId,
    /// Another session is bound to this CSRF state.
    StateInUse,
}

/// Where a handshake stands.
#[derive(Debug, PartialEq, Eq, Structural)]
pub enum Phase {
    /// Created; no redirect was issued yet.
    Started,
    /// A redirect carrying the session's CSRF state is outstanding.
    AwaitingRedirect,
    /// The token is in the slot and was not read yet.
    Delivered,
    /// The session is not in the registry: it was consumed, it expired, or
    /// it never existed.
    Gone,
}

/// What reading a session's slot gave.
#[derive(Debug)]
pub enum TakeOutcome {
    /// The delivered token; the session is consumed.
    Token(String),
    /// No session has this identifier.
    NotFound,
    /// The session exists and its slot is still empty.
    NotYetDelivered,
}

/// A session as `create` leaves it.
pub open spec fn fresh(now: i64) -> SessionView {
    SessionView { created_at: now, csrf_state: None, slot: None }
}

/// The phase of session `id` in table `t`.
pub open spec fn phase_of(t: Table, id: Seq<char>) -> Phase {
    if !t.contains_key(id) {
        Phase::Gone
    } else if t[id].slot is Some {
        Phase::Delivered
    } else if t[id].csrf_state is Some {
        Phase::AwaitingRedirect
    } else {
        Phase::Started
    }
}

/// Whether a session other than `id` is bound to `state`.
pub open spec fn state_taken(t: Table, id: Seq<char>, state: Seq<char>) -> bool {
    exists|k: Seq<char>| #[trigger] t.contains_key(k) && k != id && t[k].csrf_state == Some(state)
}

/// No two sessions are bound to the same CSRF state.
pub open spec fn states_unique(t: Table) -> bool {
    forall|a: Seq<char>, b: Seq<char>|
        #![trigger t.contains_key(a), t.contains_key(b)]
        t.contains_key(a) && t.contains_key(b) && t[a].csrf_state is Some && t[a].csrf_state
            == t[b].csrf_state ==> a == b
}

/// What `create_at` answers on table `t`.
pub open spec fn create_result(t: Table, id: Seq<char>) -> Result<(), RegistryError> {
    if t.contains_key(id) {
        Err(RegistryError::DuplicateId)
    } else {
        Ok(())
    }
}

/// The table after `create_at`.
pub open spec fn create_next(t: Table, id: Seq<char>, now: i64) -> Table {
    if t.contains_key(id) {
        t
    } else {
        t.insert(id, fresh(now))
    }
}

/// What `bind_state` answers on table `t`.
pub open spec fn bind_result(t: Table, id: Seq<char>, state: Seq<char>) -> Result<
    (),
    RegistryError,
> {
    if !t.contains_key(id) {
        Err(RegistryError::NotFound)
    } else if t[id].slot is Some {
        Err(RegistryError::AlreadyDelivered)
    } else if state_taken(t, id, state) {
        Err(RegistryError::StateInUse)
    } else {
        Ok(())
    }
}

/// The table after `bind_state`.
pub open spec fn bind_next(t: Table, id: Seq<char>, state: Seq<char>) -> Table {
    if bind_result(t, id, state) is Ok {
        t.insert(id, SessionView { csrf_state: Some(state), ..t[id] })
    } else {
        t
    }
}

/// What `deliver` answers on table `t`.
pub open spec fn deliver_result(t: Table, id: Seq<char>) -> Result<(), RegistryError> {
    if !t.contains_key(id) {
        Err(RegistryError::NotFound)
    } else if t[id].slot is Some {
        Err(RegistryError::AlreadyDelivered)
    } else {
        Ok(())
    }
}

/// The table after `deliver`.
pub open spec fn deliver_next(t: Table, id: Seq<char>, token: Seq<char>) -> Table {
    if deliver_result(t, id) is Ok {
        t.insert(id, SessionView { slot: Some(token), ..t[id] })
    } else {
        t
    }
}

/// The token that `take` hands out on table `t`, if any.
pub open spec fn take_token(t: Table, id: Seq<char>) -> Option<Seq<char>> {
    if t.contains_key(id) {
        t[id].slot
    } else {
        None
    }
}

/// The table after `take`: a session whose token was read is evicted.
pub open spec fn take_next(t: Table, id: Seq<char>) -> Table {
    if take_token(t, id) is Some {
        t.remove(id)
    } else {
        t
    }
}

/// Whether a session is due for expiry at `now`: it never received its
/// token and is older than `ttl` milliseconds.
pub open spec fn is_stale(s: SessionView, now: i64, ttl: i64) -> bool {
    s.slot is None && now - s.created_at > ttl
}

/// The table after `expire`.
pub open spec fn expire_next(t: Table, now: i64, ttl: i64) -> Table {
    Map::new(|k: Seq<char>| t.contains_key(k) && !is_stale(t[k], now, ttl), |k: Seq<char>| t[k])
}

impl View for PendingSession {
    type V = SessionView;

    open spec fn view(&self) -> SessionView {
        SessionView {
            created_at: self.created_at,
            csrf_state: match self.csrf_state {
                Some(s) => Some(s@),
                None => None,
            },
            slot: match self.slot {
                Some(s) => Some(s@),
                None => None,
            },
        }
    }
}

spec fn ids_distinct(rows: Seq<PendingSession>) -> bool {
    forall|i: int, j: int|
        0 <= i < j < rows.len() ==> (#[trigger] rows[i]).session_id@ != (
        #[trigger] rows[j]).session_id@
}

spec fn present(rows: Seq<PendingSession>, k: Seq<char>) -> bool {
    exists|i: int| 0 <= i < rows.len() && (#[trigger] rows[i]).session_id@ == k
}

spec fn at(rows: Seq<PendingSession>, k: Seq<char>) -> int {
    choose|i: int| 0 <= i < rows.len() && (#[trigger] rows[i]).session_id@ == k
}

spec fn table(rows: Seq<PendingSession>) -> Table {
    Map::new(|k: Seq<char>| present(rows, k), |k: Seq<char>| rows[at(rows, k)]@)
}

proof fn lemma_row(rows: Seq<PendingSession>, i: int)
    requires
        ids_distinct(rows),
        0 <= i < rows.len(),
    ensures
        present(rows, rows[i].session_id@),
        at(rows, rows[i].session_id@) == i,
        table(rows).contains_key(rows[i].session_id@),
        table(rows)[rows[i].session_id@] == rows[i]@,
{
    let k = rows[i].session_id@;
    assert(present(rows, k));
    let j = at(rows, k);
    assert(0 <= j < rows.len() && rows[j].session_id@ == k);
    if j < i {
        assert(rows[j].session_id@ != rows[i].session_id@);
    }
    if i < j {
        assert(rows[i].session_id@ != rows[j].session_id@);
    }
}

proof fn lemma_push(rows: Seq<PendingSession>, s: PendingSession)
    requires
        ids_distinct(rows),
        !present(rows, s.session_id@),
    ensures
        ids_distinct(rows.push(s)),
        table(rows.push(s)) == table(rows).insert(s.session_id@, s@),
{
    let next = rows.push(s);
    assert forall|i: int, j: int| 0 <= i < j < next.len() implies (#[trigger] next[i]).session_id@
        != (#[trigger] next[j]).session_id@ by {
        if j < rows.len() {
            assert(rows[i].session_id@ != rows[j].session_id@);
        } else {
            assert(next[i] == rows[i]);
            if rows[i].session_id@ == s.session_id@ {
                assert(present(rows, s.session_id@));
            }
        }
    }
    assert forall|k: Seq<char>| #[trigger]
        table(next).contains_key(k) == table(rows).insert(s.session_id@, s@).contains_key(k) by {
        if present(next, k) {
            let i = at(next, k);
            if i < rows.len() {
                assert(rows[i] == next[i]);
                assert(present(rows, k));
            }
        }
        if present(rows, k) {
            let i = at(rows, k);
            assert(next[i] == rows[i]);
            assert(present(next, k));
        }
        if k == s.session_id@ {
            assert(next[rows.len() as int] == s);
            assert(present(next, k));
        }
    }
    assert forall|k: Seq<char>| #[trigger] table(next).contains_key(k) implies table(next)[k]
        == table(rows).insert(s.session_id@, s@)[k] by {
        let i = at(next, k);
        lemma_row(next, i);
        if i < rows.len() {
            assert(next[i] == rows[i]);
            lemma_row(rows, i);
        } else {
            assert(next[i] == s);
        }
    }
    assert(table(next) =~= table(rows).insert(s.session_id@, s@));
}

proof fn lemma_remove(rows: Seq<PendingSession>, i: int)
    requires
        ids_distinct(rows),
        0 <= i < rows.len(),
    ensures
        ids_distinct(rows.remove(i)),
        !present(rows.remove(i), rows[i].session_id@),
        table(rows.remove(i)) == table(rows).remove(rows[i].session_id@),
{
    let next = rows.remove(i);
    let gone = rows[i].session_id@;
    assert forall|a: int| 0 <= a < next.len() implies #[trigger] next[a] == rows[if a < i {
        a
    } else {
        a + 1
    }] by {}
    assert forall|a: int, b: int| 0 <= a < b < next.len() implies (#[trigger] next[a]).session_id@
        != (#[trigger] next[b]).session_id@ by {
        let a0 = if a < i {
            a
        } else {
            a + 1
        };
        let b0 = if b < i {
            b
        } else {
            b + 1
        };
        assert(rows[a0].session_id@ != rows[b0].session_id@);
    }
    if present(next, gone) {
        let a = at(next, gone);
        let a0 = if a < i {
            a
        } else {
            a + 1
        };
        assert(next[a] == rows[a0]);
        if a0 < i {
            assert(rows[a0].session_id@ != rows[i].session_id@);
        } else {
            assert(rows[i].session_id@ != rows[a0].session_id@);
        }
    }
    assert forall|k: Seq<char>| #[trigger]
        table(next).contains_key(k) == table(rows).remove(gone).contains_key(k) by {
        if present(next, k) {
            let a = at(next, k);
            let a0 = if a < i {
                a
            } else {
                a + 1
            };
            assert(next[a] == rows[a0]);
            assert(present(rows, k));
        }
        if present(rows, k) && k != gone {
            let b = at(rows, k);
            let b1 = if b < i {
                b
            } else {
                b - 1
            };
            assert(next[b1] == rows[b]);
            assert(present(next, k));
        }
    }
    assert forall|k: Seq<char>| #[trigger] table(next).contains_key(k) implies table(next)[k]
        == table(rows).remove(gone)[k] by {
        let a = at(next, k);
        let a0 = if a < i {
            a
        } else {
            a + 1
        };
        lemma_row(next, a);
        assert(next[a] == rows[a0]);
        lemma_row(rows, a0);
    }
    assert(table(next) =~= table(rows).remove(gone));
}

/// The registry of pending sessions.
pub struct SessionRegistry {
    sessions: Vec<PendingSession>,
    ttl_millis: i64,
}

impl View for SessionRegistry {
    type V = Table;

    closed spec fn view(&self) -> Table {
        table(self.sessions@)
    }
}

impl SessionRegistry {
    /// What holds of every registry: identifiers are distinct, and no two
    /// sessions are bound to one CSRF state.
    #[verifier::type_invariant]
    pub closed spec fn inv(&self) -> bool {
        &&& ids_distinct(self.sessions@)
        &&& states_unique(table(self.sessions@))
    }

    /// In every registry, no two sessions are bound to one CSRF state.
    pub proof fn states_are_unique(&self)
        requires
            self.inv(),
        ensures
            states_unique(self@),
    {
    }

    /// The age, in milliseconds, above which an undelivered session expires.
    pub closed spec fn ttl(&self) -> i64 {
        self.ttl_millis
    }

    /// An empty registry whose undelivered sessions expire once they are
    /// older than `ttl_millis`.
    pub fn new(ttl_millis: i64) -> (r: SessionRegistry)
        ensures
            r@ == Map::<Seq<char>, SessionView>::empty(),
            r.ttl() == ttl_millis,
    {
        let r = SessionRegistry { sessions: Vec::new(), ttl_millis };
        assert(r@ =~= Map::<Seq<char>, SessionView>::empty());
        r
    }

    /// Moves the rows out, leaving the registry empty until they are put back.
    fn take_rows(&mut self) -> (rows: Vec<PendingSession>)
        ensures
            rows@ == old(self).sessions@,
            final(self).sessions@.len() == 0,
            final(self).ttl_millis == old(self).ttl_millis,
    {
        let mut rows: Vec<PendingSession> = Vec::new();
        proof {
            assert(table(rows@) =~= Map::<Seq<char>, SessionView>::empty());
        }
        core::mem::swap(&mut self.sessions, &mut rows);
        rows
    }

    fn position(&self, session_id: &str) -> (r: Option<usize>)
        ensures
            match r {
                Some(i) => i < self.sessions.len() && self.sessions[i as int].session_id@
                    == session_id@,
                None => !present(self.sessions@, session_id@),
            },
    {
        let mut i: usize = 0;
        while i < self.sessions.len()
            invariant
                i <= self.sessions.len(),
                forall|j: int| 0 <= j < i ==> (#[trigger] self.sessions[j]).session_id@ != session_id@,
            decreases self.sessions.len() - i,
        {
            if same_text(self.sessions[i].session_id.as_str(), session_id) {
                return Some(i);
            }
            i = i + 1;
        }
        None
    }

    /// Whether a session with this identifier is in the registry.
    pub fn contains(&self, session_id: &str) -> (b: bool)
        ensures
            b == self@.contains_key(session_id@),
    {
        proof {
            use_type_invariant(self);
        }
        match self.position(session_id) {
            Some(i) => {
                proof {
                    lemma_row(self.sessions@, i as int);
                }
                true
            },
            None => false,
        }
    }

    fn state_position(&self, state: &str) -> (r: Option<usize>)
        ensures
            match r {
                Some(i) => i < self.sessions.len() && self.sessions[i as int]@.csrf_state == Some(
                    state@,
                ),
                None => forall|j: int|
                    0 <= j < self.sessions.len() ==> (#[trigger] self.sessions[j])@.csrf_state
                        != Some(state@),
            },
    {
        let mut i: usize = 0;
        while i < self.sessions.len()
            invariant
                i <= self.sessions.len(),
                forall|j: int|
                    0 <= j < i ==> (#[trigger] self.sessions[j])@.csrf_state != Some(state@),
            decreases self.sessions.len() - i,
        {
            let bound = match &self.sessions[i].csrf_state {
                Some(s) => same_text(s.as_str(), state),
                None => false,
            };
            if bound {
                return Some(i);
            }
            i = i + 1;
        }
        None
    }

    /// The phase of the session with this identifier.
    pub fn phase(&self, session_id: &str) -> (p: Phase)
        ensures
            p == phase_of(self@, session_id@),
    {
        proof {
            use_type_invariant(self);
        }
        match self.position(session_id) {
            None => Phase::Gone,
            Some(i) => {
                proof {
                    lemma_row(self.sessions@, i as int);
                }
                if self.sessions[i].slot.is_some() {
                    Phase::Delivered
                } else if self.sessions[i].csrf_state.is_some() {
                    Phase::AwaitingRedirect
                } else {
                    Phase::Started
                }
            },
        }
    }

    /// Registers a session under `session_id`, created at `now`, with an
    /// empty slot. An identifier that is already in use is refused and the
    /// registry stays as it was.
    pub fn create_at(&mut self, session_id: String, now: i64) -> (r: Result<(), RegistryError>)
        ensures
            r == create_result(old(self)@, session_id@),
            final(self)@ == create_next(old(self)@, session_id@, now),
            final(self).ttl() == old(self).ttl(),
            states_unique(final(self)@),
    {
        proof {
            use_type_invariant(&*self);
        }
        match self.position(session_id.as_str()) {
            Some(i) => {
                proof {
                    lemma_row(self.sessions@, i as int);
                }
                Err(RegistryError::DuplicateId)
            },
            None => {
                let s = PendingSession { session_id, created_at: now, csrf_state: None, slot: None };
                proof {
                    lemma_push(self.sessions@, s);
                }
                let mut rows = self.take_rows();
                rows.push(s);
                self.sessions = rows;
                Ok(())
            },
        }
    }

    /// Registers a session under a fresh random identifier, created now, and
    /// returns the identifier. It fails only where the identifier that was
    /// drawn is in use already, which takes a session with an identifier of
    /// that form to be there: on an empty registry it succeeds. Where it
    /// fails, the registry stays as it was.
    pub fn create(&mut self) -> (r: Result<String, RegistryError>)
        ensures
            match r {
                Ok(id) => !old(self)@.contains_key(id@) && final(self)@.contains_key(id@)
                    && final(self)@ == old(self)@.insert(
                    id@,
                    fresh(final(self)@[id@].created_at),
                ) && id@.len() == 36,
                Err(e) => e == RegistryError::DuplicateId && final(self)@ == old(self)@
                    && exists|drawn: Seq<char>| #[trigger]
                    old(self)@.contains_key(drawn) && drawn.len() == 36,
            },
            final(self).ttl() == old(self).ttl(),
            states_unique(final(self)@),
    {
        let id = random_session_id();
        let now = now_millis();
        let key = id.clone();
        match self.create_at(id, now) {
            Ok(()) => Ok(key),
            Err(e) => {
                assert(old(self)@.contains_key(key@) && key@.len() == 36);
                Err(e)
            },
        }
    }

    /// Binds the session to the CSRF state of a browser redirect that is
    /// about to be issued. A state that another session is bound to is
    /// refused; so is a session that has its token already.
    pub fn bind_state(&mut self, session_id: &str, state: String) -> (r: Result<
        (),
        RegistryError,
    >)
        ensures
            r == bind_result(old(self)@, session_id@, state@),
            final(self)@ == bind_next(old(self)@, session_id@, state@),
            final(self).ttl() == old(self).ttl(),
            states_unique(final(self)@),
    {
        proof {
            use_type_invariant(&*self);
        }
        let ghost rows = self.sessions@;
        let ghost t = table(rows);
        let i = match self.position(session_id) {
            None => {
                return Err(RegistryError::NotFound);
            },
            Some(i) => i,
        };
        proof {
            lemma_row(rows, i as int);
        }
        if self.sessions[i].slot.is_some() {
            return Err(RegistryError::AlreadyDelivered);
        }
        match self.state_position(state.as_str()) {
            Some(j) => {
                proof {
                    lemma_row(rows, j as int);
                }
                if j != i {
                    proof {
                        if j < i {
                            assert(rows[j as int].session_id@ != rows[i as int].session_id@);
                        } else {
                            assert(rows[i as int].session_id@ != rows[j as int].session_id@);
                        }
                        assert(t.contains_key(rows[j as int].session_id@));
                        assert(state_taken(t, session_id@, state@));
                    }
                    return Err(RegistryError::StateInUse);
                }
                proof {
                    assert forall|k: Seq<char>| #[trigger]
                        t.contains_key(k) && k != session_id@ implies t[k].csrf_state != Some(
                        state@,
                    ) by {
                        assert(t.contains_key(session_id@));
                    }
                }
            },
            None => {
                proof {
                    assert forall|k: Seq<char>| #[trigger] t.contains_key(k) implies t[k].csrf_state
                        != Some(state@) by {
                        lemma_row(rows, at(rows, k));
                    }
                }
            },
        }
        assert(!state_taken(t, session_id@, state@));
        proof {
            lemma_remove(rows, i as int);
        }
        let mut all = self.take_rows();
        let old_row = all.remove(i);
        let s = PendingSession {
            session_id: old_row.session_id,
            created_at: old_row.created_at,
            csrf_state: Some(state),
            slot: old_row.slot,
        };
        proof {
            lemma_push(rows.remove(i as int), s);
            assert(t.remove(session_id@).insert(session_id@, s@) =~= t.insert(session_id@, s@));
        }
        all.push(s);
        self.sessions = all;
        Ok(())
    }

    /// The session that is bound to the CSRF state `state`, if any. At most
    /// one session is.
    pub fn find_by_state(&self, state: &str) -> (r: Option<String>)
        ensures
            match r {
                Some(id) => self@.contains_key(id@) && self@[id@].csrf_state == Some(state@),
                None => forall|k: Seq<char>| #[trigger]
                    self@.contains_key(k) ==> self@[k].csrf_state != Some(state@),
            },
            states_unique(self@),
    {
        proof {
            use_type_invariant(self);
        }
        match self.state_position(state) {
            Some(i) => {
                proof {
                    lemma_row(self.sessions@, i as int);
                }
                Some(self.sessions[i].session_id.clone())
            },
            None => {
                proof {
                    assert forall|k: Seq<char>| #[trigger] self@.contains_key(k) implies self@[k].csrf_state
                        != Some(state@) by {
                        lemma_row(self.sessions@, at(self.sessions@, k));
                    }
                }
                None
            },
        }
    }

    /// Puts `token` into the session's slot. The slot takes one token: a
    /// second delivery is refused and the first token stays.
    pub fn deliver(&mut self, session_id: &str, token: String) -> (r: Result<(), RegistryError>)
        ensures
            r == deliver_result(old(self)@, session_id@),
            final(self)@ == deliver_next(old(self)@, session_id@, token@),
            final(self).ttl() == old(self).ttl(),
            states_unique(final(self)@),
    {
        proof {
            use_type_invariant(&*self);
        }
        let ghost rows = self.sessions@;
        let ghost t = table(rows);
        let i = match self.position(session_id) {
            None => {
                return Err(RegistryError::NotFound);
            },
            Some(i) => i,
        };
        proof {
            lemma_row(rows, i as int);
        }
        if self.sessions[i].slot.is_some() {
            return Err(RegistryError::AlreadyDelivered);
        }
        proof {
            lemma_remove(rows, i as int);
        }
        let mut all = self.take_rows();
        let old_row = all.remove(i);
        let s = PendingSession {
            session_id: old_row.session_id,
            created_at: old_row.created_at,
            csrf_state: old_row.csrf_state,
            slot: Some(token),
        };
        proof {
            lemma_push(rows.remove(i as int), s);
            assert(t.remove(session_id@).insert(session_id@, s@) =~= t.insert(session_id@, s@));
        }
        all.push(s);
        self.sessions = all;
        Ok(())
    }

    /// Reads the session's slot. A delivered token is handed out once: the
    /// session is evicted with it. An empty slot leaves the session waiting.
    pub fn take(&mut self, session_id: &str) -> (outcome: TakeOutcome)
        ensures
            match outcome {
                TakeOutcome::Token(token) => take_token(old(self)@, session_id@) == Some(token@),
                TakeOutcome::NotFound => !old(self)@.contains_key(session_id@),
                TakeOutcome::NotYetDelivered => old(self)@.contains_key(session_id@) && old(self)@[session_id@].slot is None,
            },
            final(self)@ == take_next(old(self)@, session_id@),
            final(self).ttl() == old(self).ttl(),
            states_unique(final(self)@),
    {
        proof {
            use_type_invariant(&*self);
        }
        let ghost rows = self.sessions@;
        let i = match self.position(session_id) {
            None => {
                return TakeOutcome::NotFound;
            },
            Some(i) => i,
        };
        proof {
            lemma_row(rows, i as int);
        }
        if self.sessions[i].slot.is_none() {
            return TakeOutcome::NotYetDelivered;
        }
        proof {
            lemma_remove(rows, i as int);
        }
        let mut all = self.take_rows();
        let row = all.remove(i);
        self.sessions = all;
        match row.slot {
            Some(token) => TakeOutcome::Token(token),
            None => TakeOutcome::NotYetDelivered,
        }
    }

    /// Removes every session that never received its token and is older
    /// than the registry's time to live at `now`. Sessions that hold a token
    /// stay until the token is read.
    pub fn expire(&mut self, now: i64)
        ensures
            final(self)@ == expire_next(old(self)@, now, old(self).ttl()),
            final(self).ttl() == old(self).ttl(),
            states_unique(final(self)@),
    {
        proof {
            use_type_invariant(&*self);
        }
        let ghost t0 = self@;
        let ttl: i64 = self.ttl_millis;
        let mut rows = self.take_rows();
        let mut i: usize = 0;
        while i < rows.len()
            invariant
                i <= rows.len(),
                ids_distinct(rows@),
                states_unique(table(rows@)),
                forall|j: int| 0 <= j < i ==> !is_stale((#[trigger] rows[j])@, now, ttl),
                forall|k: Seq<char>| #[trigger]
                    table(rows@).contains_key(k) ==> t0.contains_key(k) && t0[k] == table(
                        rows@,
                    )[k],
                forall|k: Seq<char>| #[trigger]
                    t0.contains_key(k) && !is_stale(t0[k], now, ttl) ==> table(
                        rows@,
                    ).contains_key(k),
            decreases rows.len() - i,
        {
            let row = &rows[i];
            let stale = row.slot.is_none() && (now as i128) - (row.created_at as i128) > (
            ttl as i128);
            proof {
                lemma_row(rows@, i as int);
            }
            if stale {
                proof {
                    lemma_remove(rows@, i as int);
                }
                rows.remove(i);
            } else {
                i = i + 1;
            }
        }
        proof {
            assert forall|k: Seq<char>| #[trigger] table(rows@).contains_key(k) implies !is_stale(
                table(rows@)[k],
                now,
                ttl,
            ) by {
                lemma_row(rows@, at(rows@, k));
            }
            assert(table(rows@) =~= expire_next(t0, now, ttl));
        }
        self.sessions = rows;
        proof {
            assert(self@ =~= expire_next(t0, now, ttl));
        }
    }
}

/// One operation on the registry, as a value.
pub enum RegistryOp {
    Create { id: Seq<char>, now: i64 },
    Bind { id: Seq<char>, state: Seq<char> },
    Deliver { id: Seq<char>, token: Seq<char> },
    Take { id: Seq<char> },
    Expire { now: i64 },
}

/// The table after one operation, on a registry with time to live `ttl`.
pub open spec fn apply(t: Table, ttl: i64, op: RegistryOp) -> Table {
    match op {
        RegistryOp::Create { id, now } => create_next(t, id, now),
        RegistryOp::Bind { id, state } => bind_next(t, id, state),
        RegistryOp::Deliver { id, token } => deliver_next(t, id, token),
        RegistryOp::Take { id } => take_next(t, id),
        RegistryOp::Expire { now } => expire_next(t, now, ttl),
    }
}

/// The table after a sequence of operations, applied in order.
pub open spec fn run(t: Table, ttl: i64, ops: Seq<RegistryOp>) -> Table
    decreases ops.len(),
{
    if ops.len() == 0 {
        t
    } else {
        apply(run(t, ttl, ops.drop_last()), ttl, ops.last())
    }
}

/// None of `ops` reads the slot of session `id`.
pub open spec fn never_takes(ops: Seq<RegistryOp>, id: Seq<char>) -> bool {
    forall|i: int| 0 <= i < ops.len() ==> #[trigger] ops[i] != (RegistryOp::Take { id })
}

proof fn lemma_token_stays(t: Table, ttl: i64, id: Seq<char>, token: Seq<char>, ops: Seq<RegistryOp>)
    requires
        take_token(t, id) == Some(token),
        never_takes(ops, id),
    ensures
        take_token(run(t, ttl, ops), id) == Some(token),
    decreases ops.len(),
{
    if ops.len() > 0 {
        let before = ops.drop_last();
        assert forall|i: int| 0 <= i < before.len() implies #[trigger] before[i] != (
        RegistryOp::Take { id }) by {
            assert(before[i] == ops[i]);
        }
        lemma_token_stays(t, ttl, id, token, before);
        assert(ops.last() == ops[ops.len() - 1]);
    }
}

/// A token, once delivered, is the token that the session's next `take`
/// returns: whatever else is done to the registry in between (to other
/// sessions or to this one, a sweep for expired sessions included), short of
/// reading the slot, `take` hands out exactly the token that was delivered
/// to this session.
pub proof fn law_take_returns_delivered_token(
    t: Table,
    ttl: i64,
    id: Seq<char>,
    token: Seq<char>,
    ops: Seq<RegistryOp>,
)
    requires
        deliver_result(t, id) is Ok,
        never_takes(ops, id),
    ensures
        take_token(run(deliver_next(t, id, token), ttl, ops), id) == Some(token),
{
    lemma_token_stays(deliver_next(t, id, token), ttl, id, token, ops);
}

/// A second delivery to a session is refused and changes nothing: once a
/// token was delivered, and until it is read, every further `deliver` to
/// that session answers `AlreadyDelivered` and leaves the registry as it is.
pub proof fn law_second_delivery_is_refused(
    t: Table,
    ttl: i64,
    id: Seq<char>,
    first: Seq<char>,
    second: Seq<char>,
    ops: Seq<RegistryOp>,
)
    requires
        deliver_result(t, id) is Ok,
        never_takes(ops, id),
    ensures
        ({
            let later = run(deliver_next(t, id, first), ttl, ops);
            &&& deliver_result(later, id) == Err::<(), RegistryError>(
                RegistryError::AlreadyDelivered,
            )
            &&& deliver_next(later, id, second) == later
            &&& take_token(deliver_next(later, id, second), id) == Some(first)
        }),
{
    lemma_token_stays(deliver_next(t, id, first), ttl, id, first, ops);
}

/// A token is read once: after a `take` that returned it, the session is
/// gone and a further `take` finds nothing.
pub proof fn law_token_is_read_once(t: Table, id: Seq<char>)
    requires
        take_token(t, id) is Some,
    ensures
        take_token(take_next(t, id), id) is None,
        phase_of(take_next(t, id), id) == Phase::Gone,
{
}

/// No operation makes two sessions share a CSRF state.
pub proof fn law_states_stay_unique(t: Table, ttl: i64, op: RegistryOp)
    requires
        states_unique(t),
    ensures
        states_unique(apply(t, ttl, op)),
{
    let next = apply(t, ttl, op);
    assert forall|a: Seq<char>, b: Seq<char>|
        #![trigger next.contains_key(a), next.contains_key(b)]
        next.contains_key(a) && next.contains_key(b) && next[a].csrf_state is Some
            && next[a].csrf_state == next[b].csrf_state implies a == b by {
        match op {
            RegistryOp::Bind { id, state } => {
                if bind_result(t, id, state) is Ok {
                    assert(t.contains_key(id));
                    if a != b {
                        if a == id {
                            assert(t.contains_key(b));
                            assert(state_taken(t, id, state));
                        } else if b == id {
                            assert(t.contains_key(a));
                            assert(state_taken(t, id, state));
                        } else {
                            assert(t.contains_key(a) && t.contains_key(b));
                        }
                    }
                } else {
                    assert(t.contains_key(a) && t.contains_key(b));
                }
            },
            _ => {
                assert(t.contains_key(a) && t.contains_key(b));
            },
        }
    }
}

/// The phases follow one another in order: a session starts in `Started`,
/// a redirect moves it to `AwaitingRedirect`, a delivery to `Delivered`,
/// reading the token or expiry to `Gone`; no operation moves a session back.
pub proof fn law_phases_advance(t: Table, ttl: i64, op: RegistryOp, id: Seq<char>)
    ensures
        ({
            let before = phase_of(t, id);
            let after = phase_of(apply(t, ttl, op), id);
            match before {
                Phase::Gone => after == Phase::Gone || (after == Phase::Started && op
                    is Create),
                Phase::Started => after == Phase::Started || (after == Phase::AwaitingRedirect
                    && op is Bind) || (after == Phase::Delivered && op is Deliver) || (after
                    == Phase::Gone && op is Expire),
                Phase::AwaitingRedirect => after == Phase::AwaitingRedirect || (after
                    == Phase::Delivered && op is Deliver) || (after == Phase::Gone && op
                    is Expire),
                Phase::Delivered => after == Phase::Delivered || (after == Phase::Gone && op
                    is Take),
            }
        }),
{
}

} // verus!
