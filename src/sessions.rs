//! Session store: durable sessions keyed by id, whose id is rotated on the
//! store that follows an authentication boundary.
use vstd::prelude::*;

verus! {

/// The session id that a cookie value stands for, or `None` for a cookie
/// value that is not base64.
pub uninterp spec fn session_id_of(cookie: Seq<char>) -> Option<Seq<char>>;

/// Relies on `async_session::Session::id_from_cookie_value`: the id is a
/// digest of the decoded cookie value alone, and the call fails exactly when
/// the value is not base64.
#[verifier::external_body]
fn id_from_cookie(cookie: &str) -> (r: Option<String>)
    ensures
        match r {
            Some(id) => session_id_of(cookie@) == Some(id@),
            None => session_id_of(cookie@) is None,
        },
{
    async_session::Session::id_from_cookie_value(cookie).ok()
}

/// A session as a request sees it.
pub struct Session {
    pub id: String,
    /// Seconds since the epoch after which the session is gone; `None`
    /// keeps it until destroyed.
    pub expiry: Option<u64>,
    /// The serialized session data, opaque to the store.
    pub payload: String,
    /// Set when a new id is owed on the next store.
    pub regenerate: bool,
}

/// A row of the sessions table.
pub struct StoredSession {
    pub id: String,
    pub expiry: Option<u64>,
    pub payload: String,
}

/// Why a store did nothing.
#[derive(Debug, PartialEq, Eq, Structural, Clone, Copy)]
pub enum SessionError {
    /// The fresh cookie value offered for a rotation is not base64.
    BadCookie,
    /// The fresh id is the current one, belongs to another session, or was
    /// retired by an earlier rotation.
    IdTaken,
    /// The session's id was retired by a rotation: a late write under it
    /// would bring it back, so it is refused.
    Retired,
}

/// Marking a session for a new id; the mark takes effect on the next store.
pub trait SessionWorkaroundExt: Sized {
    spec fn regeneration_marked(&self) -> bool;

    /// The same value with the mark set to `marked`.
    spec fn with_mark(&self, marked: bool) -> Self;

    /// Asks for a new id on the next store.
    fn mark_for_regenerate(&mut self)
        ensures
            *final(self) == old(self).with_mark(true),
    ;

    /// Whether a new id was asked for; the mark is cleared.
    fn should_regenerate(&mut self) -> (r: bool)
        ensures
            r == old(self).regeneration_marked(),
            *final(self) == old(self).with_mark(false),
    ;
}

impl SessionWorkaroundExt for Session {
    open spec fn regeneration_marked(&self) -> bool {
        self.regenerate
    }

    open spec fn with_mark(&self, marked: bool) -> Session {
        Session { regenerate: marked, ..*self }
    }

    fn mark_for_regenerate(&mut self) {
        self.regenerate = true;
    }

    fn should_regenerate(&mut self) -> (r: bool) {
        let r = self.regenerate;
        self.regenerate = false;
        r
    }
}

impl Session {
    /// A fresh, unmarked session.
    pub fn new(id: String, expiry: Option<u64>, payload: String) -> (r: Session)
        ensures
            r.id == id,
            r.expiry == expiry,
            r.payload == payload,
            !r.regeneration_marked(),
    {
        Session { id, expiry, payload, regenerate: false }
    }

    /// Whether a new id was asked for and not applied yet.
    pub fn is_marked(&self) -> (r: bool)
        ensures
            r == self.regeneration_marked(),
    {
        self.regenerate
    }
}

/// A row still counts at time `now`.
pub open spec fn live(row: StoredSession, now: u64) -> bool {
    match row.expiry {
        Some(e) => e > now,
        None => true,
    }
}

/// The session that a request loads from a row.
pub open spec fn session_of(row: StoredSession) -> Session {
    Session { id: row.id, expiry: row.expiry, payload: row.payload, regenerate: false }
}

/// What a load by id finds at time `now`: a live row, else nothing.
pub open spec fn load_spec(m: Map<Seq<char>, StoredSession>, id: Option<Seq<char>>, now: u64) -> Option<
    Session,
> {
    match id {
        Some(k) => if m.contains_key(k) && live(m[k], now) {
            Some(session_of(m[k]))
        } else {
            None
        },
        None => None,
    }
}

/// The table after a store of `s` under `new_id`: the row of the old id is
/// gone when the id changes, and the row of the new id holds the session.
pub open spec fn store_spec(m: Map<Seq<char>, StoredSession>, s: Session, new_id: String) -> Map<
    Seq<char>,
    StoredSession,
> {
    m.remove(s.id@).insert(new_id@, StoredSession { id: new_id, expiry: s.expiry, payload: s.payload })
}

/// All sessions, one row per id, and the ids that rotations retired.
pub struct SessionStore {
    rows: Vec<StoredSession>,
    model: Ghost<Map<Seq<char>, StoredSession>>,
    retired: Vec<String>,
    retired_model: Ghost<Set<Seq<char>>>,
}

impl View for SessionStore {
    type V = Map<Seq<char>, StoredSession>;

    closed spec fn view(&self) -> Map<Seq<char>, StoredSession> {
        self.model@
    }
}

impl SessionStore {
    /// The ids that rotations moved sessions away from; none of them holds a
    /// row, and no store writes one again.
    pub closed spec fn retired(&self) -> Set<Seq<char>> {
        self.retired_model@
    }

    pub closed spec fn wf(&self) -> bool {
        &&& forall|i: int|
            0 <= i < self.retired@.len() ==> self.retired_model@.contains(#[trigger] self.retired@[i]@)
        &&& forall|k: Seq<char>| #[trigger]
            self.retired_model@.contains(k) ==> exists|i: int| 0 <= i < self.retired@.len() && self.retired@[i]@ == k
        &&& forall|k: Seq<char>| #[trigger] self.retired_model@.contains(k) ==> !self.model@.contains_key(k)
        &&& forall|i: int|
            0 <= i < self.rows@.len() ==> self.model@.contains_key(#[trigger] self.rows@[i].id@)
                && self.model@[self.rows@[i].id@] == self.rows@[i]
        &&& forall|k: Seq<char>| #[trigger]
            self.model@.contains_key(k) ==> exists|i: int| 0 <= i < self.rows@.len() && self.rows@[i].id@ == k
        &&& forall|i: int, j: int|
            0 <= i < self.rows@.len() && 0 <= j < self.rows@.len() && i != j ==> #[trigger] self.rows@[i].id@
                != #[trigger] self.rows@[j].id@
    }

    /// An empty store.
    pub fn new() -> (r: SessionStore)
        ensures
            r.wf(),
            r@ == Map::<Seq<char>, StoredSession>::empty(),
            r.retired() == Set::<Seq<char>>::empty(),
    {
        SessionStore { rows: Vec::new(), model: Ghost(Map::empty()), retired: Vec::new(), retired_model: Ghost(Set::empty()) }
    }

    fn is_retired(&self, id: &String) -> (r: bool)
        requires
            self.wf(),
        ensures
            r == self.retired().contains(id@),
    {
        let mut i: usize = 0;
        while i < self.retired.len()
            invariant
                self.wf(),
                i <= self.retired@.len(),
                forall|j: int| 0 <= j < i ==> #[trigger] self.retired@[j]@ != id@,
            decreases self.retired@.len() - i,
        {
            if self.retired[i] == *id {
                return true;
            }
            i += 1;
        }
        false
    }

    fn retire(&mut self, id: String)
        requires
            old(self).wf(),
            !old(self)@.contains_key(id@),
        ensures
            final(self).wf(),
            final(self)@ == old(self)@,
            final(self).retired() == old(self).retired().insert(id@),
    {
        let ghost k = id@;
        let ghost old_retired = self.retired@;
        self.retired.push(id);
        self.retired_model = Ghost(self.retired_model@.insert(k));
        proof {
            let rs = self.retired@;
            assert forall|i: int| 0 <= i < rs.len() implies self.retired_model@.contains(#[trigger] rs[i]@) by {
                if i < old_retired.len() {
                    assert(rs[i] == old_retired[i]);
                }
            }
            assert forall|q: Seq<char>| #[trigger] self.retired_model@.contains(q) implies exists|i: int|
                0 <= i < rs.len() && rs[i]@ == q by {
                if q == k {
                    assert(rs[old_retired.len() as int]@ == q);
                } else {
                    let i = choose|i: int| 0 <= i < old_retired.len() && old_retired[i]@ == q;
                    assert(rs[i] == old_retired[i]);
                }
            }
        }
    }

    fn find(&self, id: &String) -> (r: Option<usize>)
        requires
            self.wf(),
        ensures
            match r {
                Some(i) => i < self.rows@.len() && self.rows@[i as int].id@ == id@ && self@.contains_key(id@),
                None => !self@.contains_key(id@),
            },
    {
        let mut i: usize = 0;
        while i < self.rows.len()
            invariant
                self.wf(),
                i <= self.rows@.len(),
                forall|j: int| 0 <= j < i ==> #[trigger] self.rows@[j].id@ != id@,
            decreases self.rows@.len() - i,
        {
            if self.rows[i].id == *id {
                return Some(i);
            }
            i += 1;
        }
        None
    }

    proof fn lemma_remove_row(&self, i: int, rows: Seq<StoredSession>)
        requires
            self.wf(),
            0 <= i < self.rows@.len(),
            rows == self.rows@.remove(i),
        ensures
            forall|j: int|
                0 <= j < rows.len() ==> self@.remove(self.rows@[i].id@).contains_key(#[trigger] rows[j].id@)
                    && self@.remove(self.rows@[i].id@)[rows[j].id@] == rows[j],
            forall|k: Seq<char>| #[trigger]
                self@.remove(self.rows@[i].id@).contains_key(k) ==> exists|j: int|
                    0 <= j < rows.len() && rows[j].id@ == k,
            forall|a: int, b: int|
                0 <= a < rows.len() && 0 <= b < rows.len() && a != b ==> #[trigger] rows[a].id@
                    != #[trigger] rows[b].id@,
    {
        let old_rows = self.rows@;
        let m = self@.remove(old_rows[i].id@);
        assert forall|j: int| 0 <= j < rows.len() implies m.contains_key(#[trigger] rows[j].id@)
            && m[rows[j].id@] == rows[j] by {
            let oj = if j < i { j } else { j + 1 };
            assert(rows[j] == old_rows[oj]);
            assert(old_rows[oj].id@ != old_rows[i].id@);
        }
        assert forall|k: Seq<char>| #[trigger] m.contains_key(k) implies exists|j: int|
            0 <= j < rows.len() && rows[j].id@ == k by {
            let oj = choose|oj: int| 0 <= oj < old_rows.len() && old_rows[oj].id@ == k;
            let j = if oj < i { oj } else { oj - 1 };
            assert(rows[j] == old_rows[oj]);
        }
        assert forall|a: int, b: int|
            0 <= a < rows.len() && 0 <= b < rows.len() && a != b implies #[trigger] rows[a].id@
            != #[trigger] rows[b].id@ by {
            let oa = if a < i { a } else { a + 1 };
            let ob = if b < i { b } else { b + 1 };
            assert(rows[a] == old_rows[oa]);
            assert(rows[b] == old_rows[ob]);
        }
    }

    fn put(&mut self, row: StoredSession)
        requires
            old(self).wf(),
            !old(self)@.contains_key(row.id@),
            !old(self).retired().contains(row.id@),
        ensures
            final(self).wf(),
            final(self)@ == old(self)@.insert(row.id@, row),
            final(self).retired() == old(self).retired(),
    {
        let ghost old_rows = self.rows@;
        let ghost k = row.id@;
        let ghost r = row;
        self.rows.push(row);
        self.model = Ghost(self.model@.insert(k, r));
        proof {
            assert(self.retired@ == old(self).retired@);
            assert forall|q: Seq<char>| #[trigger] self.retired_model@.contains(q) implies !self.model@.contains_key(q) by {
                assert(q != k);
            }
            assert forall|q: Seq<char>| #[trigger] self.retired_model@.contains(q) implies exists|i: int|
                0 <= i < self.retired@.len() && self.retired@[i]@ == q by {
                assert(old(self).retired_model@.contains(q));
            }
        }
        proof {
            let rows = self.rows@;
            assert forall|j: int| 0 <= j < rows.len() implies self.model@.contains_key(#[trigger] rows[j].id@)
                && self.model@[rows[j].id@] == rows[j] by {
                if j < old_rows.len() {
                    assert(rows[j] == old_rows[j]);
                }
            }
            assert forall|q: Seq<char>| #[trigger] self.model@.contains_key(q) implies exists|j: int|
                0 <= j < rows.len() && rows[j].id@ == q by {
                if q == k {
                    assert(rows[old_rows.len() as int].id@ == q);
                } else {
                    let j = choose|j: int| 0 <= j < old_rows.len() && old_rows[j].id@ == q;
                    assert(rows[j] == old_rows[j]);
                }
            }
            assert forall|a: int, b: int|
                0 <= a < rows.len() && 0 <= b < rows.len() && a != b implies #[trigger] rows[a].id@
                != #[trigger] rows[b].id@ by {
                if a < old_rows.len() {
                    assert(rows[a] == old_rows[a]);
                }
                if b < old_rows.len() {
                    assert(rows[b] == old_rows[b]);
                }
            }
        }
    }

    fn take(&mut self, i: usize)
        requires
            old(self).wf(),
            i < old(self).rows@.len(),
        ensures
            final(self).wf(),
            final(self)@ == old(self)@.remove(old(self).rows@[i as int].id@),
            final(self).retired() == old(self).retired(),
    {
        let ghost k = self.rows@[i as int].id@;
        let ghost before = *self;
        self.rows.remove(i);
        self.model = Ghost(self.model@.remove(k));
        proof {
            assert(self.rows@ == before.rows@.remove(i as int));
            before.lemma_remove_row(i as int, self.rows@);
            assert(self.model@ == before@.remove(k));
            assert(self.retired@ == before.retired@);
            assert forall|q: Seq<char>| #[trigger] self.retired_model@.contains(q) implies exists|i: int|
                0 <= i < self.retired@.len() && self.retired@[i]@ == q by {
                assert(before.retired_model@.contains(q));
            }
        }
    }

    /// Loads the session that a cookie value stands for: a live row gives an
    /// unmarked session; a missing or expired row, or a cookie that names no
    /// id, gives none.
    pub fn load(&self, cookie_value: &str, now: u64) -> (r: Option<Session>)
        requires
            self.wf(),
        ensures
            r == load_spec(self@, session_id_of(cookie_value@), now),
    {
        let id = match id_from_cookie(cookie_value) {
            Some(id) => id,
            None => {
                return None;
            },
        };
        self.load_id(&id, now)
    }

    /// Loads the session with this id, as `load` does once the cookie is
    /// resolved.
    pub fn load_id(&self, id: &String, now: u64) -> (r: Option<Session>)
        requires
            self.wf(),
        ensures
            r == load_spec(self@, Some(id@), now),
    {
        match self.find(id) {
            Some(i) => {
                let row = &self.rows[i];
                let alive = match row.expiry {
                    Some(e) => e > now,
                    None => true,
                };
                if alive {
                    Some(Session::new(row.id.clone(), row.expiry, row.payload.clone()))
                } else {
                    None
                }
            },
            None => None,
        }
    }

    /// Persists a session. Unmarked, it is written under its id, over any
    /// row already there. Marked, it moves to the id of `fresh_cookie`, the
    /// old id's row is dropped, the old id retired and the mark cleared; the
    /// new id is returned for the caller to issue as the cookie. A session
    /// under a retired id is refused, so a late write cannot bring a rotated
    /// id back; a rotation that cannot give a new unused id changes nothing.
    pub fn store(&mut self, session: &mut Session, fresh_cookie: &str) -> (r: Result<String, SessionError>)
        requires
            old(self).wf(),
        ensures
            final(self).wf(),
            match r {
                Ok(id) => {
                    &&& !old(self).retired().contains(old(session).id@)
                    &&& final(session).id == id
                    &&& !final(session).regeneration_marked()
                    &&& final(session).expiry == old(session).expiry
                    &&& final(session).payload == old(session).payload
                    &&& if old(session).regeneration_marked() {
                        &&& session_id_of(fresh_cookie@) == Some(id@)
                        &&& id@ != old(session).id@
                        &&& !old(self)@.contains_key(id@)
                        &&& !old(self).retired().contains(id@)
                        &&& final(self)@ == store_spec(old(self)@, *old(session), id)
                        &&& final(self).retired() == old(self).retired().insert(old(session).id@)
                    } else {
                        &&& id == old(session).id
                        &&& final(self)@ == old(self)@.insert(
                            id@,
                            StoredSession { id, expiry: old(session).expiry, payload: old(session).payload },
                        )
                        &&& final(self).retired() == old(self).retired()
                    }
                },
                Err(e) => {
                    &&& *final(self) == *old(self)
                    &&& *final(session) == *old(session)
                    &&& e == SessionError::Retired <==> old(self).retired().contains(old(session).id@)
                    &&& e != SessionError::Retired ==> old(session).regeneration_marked()
                    &&& e == SessionError::BadCookie <==> (!old(self).retired().contains(old(session).id@)
                        && session_id_of(fresh_cookie@) is None)
                    &&& e == SessionError::IdTaken <==> (!old(self).retired().contains(old(session).id@)
                        && (session_id_of(fresh_cookie@) matches Some(k) && (k == old(session).id@
                        || old(self)@.contains_key(k) || old(self).retired().contains(k))))
                },
            },
    {
        if self.is_retired(&session.id) {
            return Err(SessionError::Retired);
        }
        if session.is_marked() {
            let new_id = match id_from_cookie(fresh_cookie) {
                Some(id) => id,
                None => {
                    return Err(SessionError::BadCookie);
                },
            };
            if new_id == session.id {
                return Err(SessionError::IdTaken);
            }
            match self.find(&new_id) {
                Some(_) => {
                    return Err(SessionError::IdTaken);
                },
                None => {},
            }
            if self.is_retired(&new_id) {
                return Err(SessionError::IdTaken);
            }
            let regenerate = session.should_regenerate();
            assert(regenerate);
            match self.find(&session.id) {
                Some(i) => self.take(i),
                None => {
                    assert(self@.remove(session.id@) =~= self@);
                },
            }
            self.retire(session.id.clone());
            session.id = new_id.clone();
            self.put(StoredSession { id: new_id.clone(), expiry: session.expiry, payload: session.payload.clone() });
            Ok(new_id)
        } else {
            let ghost m = self@;
            match self.find(&session.id) {
                Some(i) => self.take(i),
                None => {
                    assert(self@.remove(session.id@) =~= self@);
                },
            }
            self.put(StoredSession { id: session.id.clone(), expiry: session.expiry, payload: session.payload.clone() });
            assert(self@ =~= m.insert(
                session.id@,
                StoredSession { id: session.id, expiry: session.expiry, payload: session.payload },
            ));
            Ok(session.id.clone())
        }
    }

    /// Deletes the session's row; a later load of its id finds nothing.
    pub fn destroy(&mut self, session: &Session)
        requires
            old(self).wf(),
        ensures
            final(self).wf(),
            final(self)@ == old(self)@.remove(session.id@),
            final(self).retired() == old(self).retired(),
    {
        match self.find(&session.id) {
            Some(i) => self.take(i),
            None => {
                assert(self@.remove(session.id@) =~= self@);
            },
        }
    }

    /// Deletes every session; retired ids stay retired.
    pub fn clear(&mut self)
        requires
            old(self).wf(),
        ensures
            final(self).wf(),
            final(self)@ == Map::<Seq<char>, StoredSession>::empty(),
            final(self).retired() == old(self).retired(),
    {
        self.rows = Vec::new();
        self.model = Ghost(Map::empty());
        proof {
            assert(self.retired@ == old(self).retired@);
            assert forall|q: Seq<char>| #[trigger] self.retired_model@.contains(q) implies exists|i: int|
                0 <= i < self.retired@.len() && self.retired@[i]@ == q by {
                assert(old(self).retired_model@.contains(q));
            }
        }
    }
}

/// After a marked session is stored, its id differs from the one it had;
/// the old id loads nothing, and the new id loads the same data.
pub proof fn lemma_regeneration_rotates_id(
    m: Map<Seq<char>, StoredSession>,
    s: Session,
    new_id: String,
    now: u64,
)
    requires
        new_id@ != s.id@,
        live(StoredSession { id: new_id, expiry: s.expiry, payload: s.payload }, now),
    ensures
        load_spec(store_spec(m, s, new_id), Some(s.id@), now) is None,
        load_spec(store_spec(m, s, new_id), Some(new_id@), now) == Some(
            session_of(StoredSession { id: new_id, expiry: s.expiry, payload: s.payload }),
        ),
{
}

} // verus!
