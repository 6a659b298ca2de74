//! The in-memory session store and its operations.
//!
//! The store is a mapping from 16-byte identifiers to session records.  Its
//! mathematical value is a `Map<Seq<u8>, SessionView>`; every operation's
//! contract says exactly how that map is read or changed.  Creation inserts
//! a fresh unauthenticated record under a random identifier; authentication
//! is a one-shot transition of one record; reading never changes anything.

use vstd::prelude::*;

verus! {

use crate::codec::SessionId;
use crate::codec::decoded_id;
use crate::codec::is_encoded_id;
use crate::errors::SessionError;
use crate::rng::new_system_random;
use crate::rng::random_bytes_16;

/// One client's session record.
#[derive(Debug)]
pub struct Session {
    /// The identity claimed at authentication; unset until then.
    pub user: Option<String>,
    /// Free text fixed at creation.
    pub description: String,
    /// Set to true by the one successful authentication.
    pub authenticated: bool,
}

/// The mathematical value of a session record.
pub ghost struct SessionView {
    pub user: Option<Seq<char>>,
    pub description: Seq<char>,
    pub authenticated: bool,
}

impl View for Session {
    type V = SessionView;

    open spec fn view(&self) -> SessionView {
        SessionView {
            user: match self.user {
                Some(u) => Some(u@),
                None => None,
            },
            description: self.description@,
            authenticated: self.authenticated,
        }
    }
}

impl SessionView {
    /// The state of every session at creation: unauthenticated, no user.
    pub open spec fn fresh() -> SessionView {
        SessionView { user: None, description: "Some session..."@, authenticated: false }
    }
}

impl Session {
    /// A new, unauthenticated session record.
    pub fn fresh() -> (r: Session)
        ensures
            r@ == SessionView::fresh(),
    {
        Session {
            user: None,
            description: String::from_str("Some session..."),
            authenticated: false,
        }
    }

    /// A field-for-field copy of the record.
    pub fn snapshot(&self) -> (r: Session)
        ensures
            r@ == self@,
    {
        Session {
            user: match &self.user {
                Some(u) => Some(u.clone()),
                None => None,
            },
            description: self.description.clone(),
            authenticated: self.authenticated,
        }
    }
}

/// Every identifier in the backing sequence is well formed and occurs once.
spec fn seq_wf(s: Seq<(SessionId, Session)>) -> bool {
    (forall|i: int| 0 <= i < s.len() ==> (#[trigger] s[i]).0.wf()) && (forall|i: int, j: int|
        0 <= i < s.len() && 0 <= j < s.len() && i != j ==> (#[trigger] s[i]).0@ != (
        #[trigger] s[j]).0@)
}

/// Does some entry of the backing sequence carry the identifier `k`?
spec fn seq_has_id(s: Seq<(SessionId, Session)>, k: Seq<u8>) -> bool {
    exists|i: int| 0 <= i < s.len() && (#[trigger] s[i]).0@ == k
}

/// The index of the entry carrying `k` (meaningful when `seq_has_id`).
spec fn seq_idx_of(s: Seq<(SessionId, Session)>, k: Seq<u8>) -> int {
    choose|i: int| 0 <= i < s.len() && (#[trigger] s[i]).0@ == k
}

/// The mapping that a backing sequence stands for.
spec fn seq_view(s: Seq<(SessionId, Session)>) -> Map<Seq<u8>, SessionView> {
    Map::new(|k: Seq<u8>| seq_has_id(s, k), |k: Seq<u8>| s[seq_idx_of(s, k)].1@)
}

/// An entry of a well-formed sequence is visible in its mapping.
proof fn lemma_view_contains(s: Seq<(SessionId, Session)>, i: int)
    requires
        seq_wf(s),
        0 <= i < s.len(),
    ensures
        seq_view(s).contains_key(s[i].0@),
        seq_view(s)[s[i].0@] == s[i].1@,
{
    assert(seq_has_id(s, s[i].0@));
    let w = seq_idx_of(s, s[i].0@);
    assert(0 <= w < s.len() && s[w].0@ == s[i].0@);
    assert(w == i);
}

/// Appending an entry under an absent identifier inserts it into the mapping.
proof fn lemma_view_push(s: Seq<(SessionId, Session)>, id: SessionId, sess: Session)
    requires
        seq_wf(s),
        id.wf(),
        !seq_has_id(s, id@),
    ensures
        seq_wf(s.push((id, sess))),
        seq_view(s.push((id, sess))) == seq_view(s).insert(id@, sess@),
{
    let t = s.push((id, sess));
    assert forall|i: int| 0 <= i < t.len() implies (#[trigger] t[i]).0.wf() by {
        if i < s.len() {
            assert(t[i] == s[i]);
        } else {
            assert(t[i] == (id, sess));
        }
    }
    assert forall|i: int, j: int|
        0 <= i < t.len() && 0 <= j < t.len() && i != j implies (#[trigger] t[i]).0@ != (
    #[trigger] t[j]).0@ by {
        if i < s.len() && j < s.len() {
        } else if i < s.len() {
            assert(t[i] == s[i]);
            assert(t[j] == (id, sess));
        } else {
            assert(t[i] == (id, sess));
            assert(t[j] == s[j]);
        }
    }
    assert forall|k: Seq<u8>| #[trigger] seq_has_id(t, k) implies seq_view(t)[k] == seq_view(
        s,
    ).insert(id@, sess@)[k] by {
        let w = seq_idx_of(t, k);
        assert(0 <= w < t.len() && t[w].0@ == k);
        if k == id@ {
            if w < s.len() {
                assert(t[w] == s[w]);
                assert(seq_has_id(s, id@));
            }
            assert(t[w] == (id, sess));
        } else {
            assert(w < s.len());
            assert(t[w] == s[w]);
            assert(seq_has_id(s, k));
            let w2 = seq_idx_of(s, k);
            assert(0 <= w2 < s.len() && s[w2].0@ == k);
            assert(w2 == w);
        }
    }
    assert forall|k: Seq<u8>| seq_has_id(s, k) || k == id@ implies #[trigger] seq_has_id(
        t,
        k,
    ) by {
        if seq_has_id(s, k) {
            let w = seq_idx_of(s, k);
            assert(0 <= w < s.len() && s[w].0@ == k);
            assert(t[w] == s[w]);
        } else {
            assert(t[s.len() as int] == (id, sess));
        }
    }
    assert(seq_view(t) =~= seq_view(s).insert(id@, sess@));
}

/// Replacing the entry at `i`, keeping its identifier, updates the mapping.
proof fn lemma_view_update_at(s: Seq<(SessionId, Session)>, i: int, p: (SessionId, Session))
    requires
        seq_wf(s),
        0 <= i < s.len(),
        p.0@ == s[i].0@,
        p.0.wf(),
    ensures
        seq_wf(s.update(i, p)),
        seq_view(s.update(i, p)) == seq_view(s).insert(p.0@, p.1@),
{
    let t = s.update(i, p);
    assert forall|j: int| 0 <= j < t.len() implies (#[trigger] t[j]).0.wf() by {
        if j != i {
            assert(t[j] == s[j]);
        } else {
            assert(t[j] == p);
        }
    }
    assert forall|j: int, l: int|
        0 <= j < t.len() && 0 <= l < t.len() && j != l implies (#[trigger] t[j]).0@ != (
    #[trigger] t[l]).0@ by {
        assert(t[j] == if j == i { p } else { s[j] });
        assert(t[l] == if l == i { p } else { s[l] });
    }
    assert forall|k: Seq<u8>| #[trigger] seq_has_id(t, k) implies seq_has_id(s, k) by {
        let w = seq_idx_of(t, k);
        assert(0 <= w < t.len() && t[w].0@ == k);
        if w == i {
            assert(s[i].0@ == k);
        } else {
            assert(t[w] == s[w]);
        }
    }
    assert forall|k: Seq<u8>| #[trigger] seq_has_id(s, k) implies seq_has_id(t, k) by {
        let w = seq_idx_of(s, k);
        assert(0 <= w < s.len() && s[w].0@ == k);
        if w == i {
            assert(t[i].0@ == k);
        } else {
            assert(t[w] == s[w]);
        }
    }
    assert forall|k: Seq<u8>| #[trigger] seq_has_id(t, k) implies seq_view(t)[k] == seq_view(
        s,
    ).insert(p.0@, p.1@)[k] by {
        let w = seq_idx_of(t, k);
        assert(0 <= w < t.len() && t[w].0@ == k);
        if k == p.0@ {
            assert(w == i);
            assert(t[w] == p);
        } else {
            assert(w != i);
            assert(t[w] == s[w]);
            assert(seq_has_id(s, k));
            let w2 = seq_idx_of(s, k);
            assert(0 <= w2 < s.len() && s[w2].0@ == k);
            assert(w2 == w);
        }
    }
    assert(t[i] == p);
    assert(seq_has_id(t, p.0@));
    assert(seq_has_id(s, p.0@));
    assert(seq_view(t) =~= seq_view(s).insert(p.0@, p.1@));
}

/// The session store, shared by every request of the running service.
pub struct AppState {
    rng: ring::rand::SystemRandom,
    sessions: Vec<(SessionId, Session)>,
}

impl View for AppState {
    type V = Map<Seq<u8>, SessionView>;

    closed spec fn view(&self) -> Map<Seq<u8>, SessionView> {
        seq_view(self.sessions@)
    }
}

impl AppState {
    /// The store's internal invariant: identifiers are well formed and unique.
    pub closed spec fn wf(&self) -> bool {
        seq_wf(self.sessions@)
    }

    /// An empty store with its own handle on the system's random source.
    pub fn new() -> (r: AppState)
        ensures
            r.wf(),
            r@ == Map::<Seq<u8>, SessionView>::empty(),
    {
        let r = AppState { rng: new_system_random(), sessions: Vec::new() };
        proof {
            assert forall|k: Seq<u8>| !(#[trigger] seq_has_id(r.sessions@, k)) by {}
            assert(r@ =~= Map::<Seq<u8>, SessionView>::empty());
        }
        r
    }

    /// The index of the entry holding `id`, if any.
    fn index_of(&self, id: &SessionId) -> (r: Option<usize>)
        requires
            self.wf(),
        ensures
            r matches Some(i) ==> i < self.sessions@.len() && self.sessions@[i as int].0@ == id@
                && self@.contains_key(id@) && self@[id@] == self.sessions@[i as int].1@,
            r is None ==> !self@.contains_key(id@),
    {
        let mut i: usize = 0;
        while i < self.sessions.len()
            invariant
                self.wf(),
                i <= self.sessions@.len(),
                forall|j: int| 0 <= j < i ==> (#[trigger] self.sessions@[j]).0@ != id@,
            decreases self.sessions@.len() - i,
        {
            if self.sessions[i].0.same_as(id) {
                proof {
                    lemma_view_contains(self.sessions@, i as int);
                }
                return Some(i);
            }
            i += 1;
        }
        proof {
            if seq_has_id(self.sessions@, id@) {
                let w = seq_idx_of(self.sessions@, id@);
                assert(0 <= w < self.sessions@.len() && self.sessions@[w].0@ == id@);
            }
        }
        None
    }

    /// Inserts `session` under `id`, replacing any record already there.
    fn put(&mut self, id: SessionId, session: Session)
        requires
            old(self).wf(),
            id.wf(),
        ensures
            final(self).wf(),
            final(self)@ == old(self)@.insert(id@, session@),
    {
        let found = self.index_of(&id);
        match found {
            Some(i) => {
                proof {
                    lemma_view_update_at(
                        self.sessions@,
                        i as int,
                        (id, session),
                    );
                }
                self.sessions[i] = (id, session);
            },
            None => {
                proof {
                    lemma_view_push(self.sessions@, id, session);
                }
                self.sessions.push((id, session));
            },
        }
    }

    /// Creates a session: draws a random identifier, stores a fresh record
    /// under it, and hands the identifier back.  Fails only when the
    /// operating system's entropy source does.
    pub fn new_session(&mut self) -> (r: Result<SessionId, SessionError>)
        requires
            old(self).wf(),
        ensures
            final(self).wf(),
            r matches Ok(id) ==> id.wf() && final(self)@ == old(self)@.insert(
                id@,
                SessionView::fresh(),
            ),
            r is Err ==> r == Err::<SessionId, SessionError>(SessionError::RandomFailure)
                && final(self)@ == old(self)@,
    {
        match random_bytes_16(&self.rng) {
            Some(bytes) => {
                let id = SessionId::from_bytes(bytes);
                let ret = id.duplicate();
                self.put(id, Session::fresh());
                Ok(ret)
            },
            None => Err(SessionError::RandomFailure),
        }
    }

    /// Authenticates the session named by `session_id`, claiming the
    /// identity `user`.  The outcome and the new store contents are exactly
    /// `auth_result` and `auth_next` of the old ones.
    pub fn authenticate(&mut self, session_id: &str, user: String) -> (r: Result<
        (),
        SessionError,
    >)
        requires
            old(self).wf(),
        ensures
            final(self).wf(),
            r == auth_result(old(self)@, session_id@),
            final(self)@ == auth_next(old(self)@, session_id@, user@),
    {
        let id = match SessionId::decode(session_id) {
            Ok(id) => id,
            Err(_) => {
                return Err(SessionError::MalformedId);
            },
        };
        let i = match self.index_of(&id) {
            Some(i) => i,
            None => {
                return Err(SessionError::NotFound);
            },
        };
        if self.sessions[i].1.authenticated {
            return Err(SessionError::AlreadyAuthenticated);
        }
        let ghost olds = self.sessions@;
        let description = self.sessions[i].1.description.clone();
        let replacement = Session { user: Some(user), description, authenticated: true };
        let with_id = self.sessions[i].0.duplicate();
        proof {
            lemma_view_update_at(olds, i as int, (with_id, replacement));
        }
        self.sessions[i] = (with_id, replacement);
        Ok(())
    }

    /// Reads the session named by `session_id` without changing anything:
    /// the store is taken by shared reference, so no call, however often
    /// repeated, can mutate a session.
    pub fn session_state(&self, session_id: &str) -> (r: Result<Session, SessionError>)
        requires
            self.wf(),
        ensures
            r matches Ok(sess) ==> state_result(self@, session_id@) == Ok::<
                SessionView,
                SessionError,
            >(sess@),
            r matches Err(e) ==> state_result(self@, session_id@) == Err::<
                SessionView,
                SessionError,
            >(e),
    {
        let id = match SessionId::decode(session_id) {
            Ok(id) => id,
            Err(_) => {
                return Err(SessionError::MalformedId);
            },
        };
        match self.index_of(&id) {
            Some(i) => Ok(self.sessions[i].1.snapshot()),
            None => Err(SessionError::NotFound),
        }
    }
}

/// The outcome of authenticating `sid` against the store contents `m`.
pub open spec fn auth_result(m: Map<Seq<u8>, SessionView>, sid: Seq<char>) -> Result<
    (),
    SessionError,
> {
    if !is_encoded_id(sid) {
        Err(SessionError::MalformedId)
    } else if !m.contains_key(decoded_id(sid)) {
        Err(SessionError::NotFound)
    } else if m[decoded_id(sid)].authenticated {
        Err(SessionError::AlreadyAuthenticated)
    } else {
        Ok(())
    }
}

/// The store contents after authenticating `sid` as `user`: on success the
/// one record flips to authenticated and carries the user; on any failure
/// the store is untouched.
pub open spec fn auth_next(
    m: Map<Seq<u8>, SessionView>,
    sid: Seq<char>,
    user: Seq<char>,
) -> Map<Seq<u8>, SessionView> {
    if auth_result(m, sid) is Ok {
        m.insert(
            decoded_id(sid),
            SessionView {
                user: Some(user),
                description: m[decoded_id(sid)].description,
                authenticated: true,
            },
        )
    } else {
        m
    }
}

/// The outcome of reading the session named by `sid` in the store `m`.
pub open spec fn state_result(m: Map<Seq<u8>, SessionView>, sid: Seq<char>) -> Result<
    SessionView,
    SessionError,
> {
    if !is_encoded_id(sid) {
        Err(SessionError::MalformedId)
    } else if !m.contains_key(decoded_id(sid)) {
        Err(SessionError::NotFound)
    } else {
        Ok(m[decoded_id(sid)])
    }
}

/// Authentication succeeds exactly once.  A first successful call flips the
/// record to authenticated and sets its user; from then on every further
/// attempt on the same identifier — whatever identity it claims — is
/// rejected as already authenticated and leaves the store, and so the
/// recorded user, unchanged.
pub proof fn lemma_authenticate_exactly_once(
    m: Map<Seq<u8>, SessionView>,
    sid: Seq<char>,
    u1: Seq<char>,
    u2: Seq<char>,
)
    requires
        auth_result(m, sid) is Ok,
    ensures
        auth_next(m, sid, u1)[decoded_id(sid)].authenticated,
        auth_next(m, sid, u1)[decoded_id(sid)].user == Some(u1),
        auth_result(auth_next(m, sid, u1), sid) == Err::<(), SessionError>(
            SessionError::AlreadyAuthenticated,
        ),
        auth_next(auth_next(m, sid, u1), sid, u2) == auth_next(m, sid, u1),
{
}

/// A newly created session is immediately visible under its identifier,
/// unauthenticated and without a user.
pub proof fn lemma_new_session_visible(m: Map<Seq<u8>, SessionView>, id: Seq<u8>)
    ensures
        m.insert(id, SessionView::fresh()).contains_key(id),
        m.insert(id, SessionView::fresh())[id] == SessionView::fresh(),
        !SessionView::fresh().authenticated,
        SessionView::fresh().user is None,
{
}

/// A malformed identifier is rejected the same way by authentication and by
/// the state read, and neither touches the store.
pub proof fn lemma_malformed_rejected_alike(
    m: Map<Seq<u8>, SessionView>,
    sid: Seq<char>,
    user: Seq<char>,
)
    requires
        !is_encoded_id(sid),
    ensures
        auth_result(m, sid) == Err::<(), SessionError>(SessionError::MalformedId),
        auth_next(m, sid, user) == m,
        state_result(m, sid) == Err::<SessionView, SessionError>(SessionError::MalformedId),
{
}

} // verus!
