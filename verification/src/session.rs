use vstd::prelude::*;

use crate::address::{addresses_view, contains_address, Address};

verus! {

/// Why the session registry refused a call.
#[derive(Clone, Copy, Debug, PartialEq, Eq, Structural)]
pub enum SessionError {
    /// No admin has been set yet.
    NotInitialized,
    /// The admin has already been set.
    AlreadyInitialized,
    /// The user creating a session is not whitelisted.
    NotWhitelisted,
    /// The session's expiry is not after the current ledger time.
    ExpiryNotInFuture,
    /// There is no session under the given key.
    SessionNotFound,
    /// The caller does not own the session.
    NotSessionOwner,
}

impl SessionError {
    /// The message the contract aborts with for this error.
    pub fn message(&self) -> (m: &'static str)
        ensures
            *self == SessionError::NotInitialized ==> m@ == "contract not initialized"@,
            *self == SessionError::AlreadyInitialized ==> m@ == "already initialized"@,
            *self == SessionError::NotWhitelisted ==> m@ == "caller is not whitelisted"@,
            *self == SessionError::ExpiryNotInFuture ==> m@ == "expires_at must be in the future"@,
            *self == SessionError::SessionNotFound ==> m@ == "session not found"@,
            *self == SessionError::NotSessionOwner ==> m@ == "not session owner"@,
    {
        match self {
            SessionError::NotInitialized => "contract not initialized",
            SessionError::AlreadyInitialized => "already initialized",
            SessionError::NotWhitelisted => "caller is not whitelisted",
            SessionError::ExpiryNotInFuture => "expires_at must be in the future",
            SessionError::SessionNotFound => "session not found",
            SessionError::NotSessionOwner => "not session owner",
        }
    }
}

/// A registered session key: the user it acts for, the ledger time at which
/// it expires, and the actions it may perform.
#[derive(Debug)]
pub struct SessionData {
    pub user: Address,
    pub expires_at: u64,
    pub allowed_actions: Vec<String>,
}

/// A session with its addresses and action names taken by their keys.
pub struct SessionView {
    pub user: Seq<char>,
    pub expires_at: u64,
    pub allowed_actions: Seq<Seq<char>>,
}

/// The names of a sequence of actions.
pub open spec fn actions_view(s: Seq<String>) -> Seq<Seq<char>> {
    s.map_values(|a: String| a@)
}

/// The view of a stored session.
pub open spec fn session_view(d: SessionData) -> SessionView {
    SessionView { user: d.user@, expires_at: d.expires_at, allowed_actions: actions_view(d.allowed_actions@) }
}

/// Whether the session under `key` exists, has not expired at ledger time
/// `now`, and allows `action`. A session is live while `now` is strictly
/// before its expiry.
pub open spec fn session_allows(
    sessions: Map<Seq<char>, SessionView>,
    key: Seq<char>,
    action: Seq<char>,
    now: u64,
) -> bool {
    &&& sessions.dom().contains(key)
    &&& now < sessions[key].expires_at
    &&& sessions[key].allowed_actions.contains(action)
}

/// How many ledgers a new session's storage entry is kept alive for: the
/// session's remaining seconds divided by five (one ledger closes about
/// every five seconds), truncated to 32 bits, and at least 100.
pub open spec fn session_ttl(expires_at: u64, now: u64) -> u32 {
    let secs: int = if expires_at > now {
        expires_at - now
    } else {
        0
    };
    let ledgers: int = (secs / 5) % 0x1_0000_0000;
    if ledgers < 100 {
        100
    } else {
        ledgers as u32
    }
}

/// The number of ledgers to extend a new session's storage entry by
/// (see `session_ttl`).
pub fn session_ttl_ledgers(expires_at: u64, now: u64) -> (t: u32)
    ensures
        t == session_ttl(expires_at, now),
{
    let secs: u64 = if expires_at > now {
        expires_at - now
    } else {
        0
    };
    let q: u64 = secs / 5;
    let ledgers: u32 = q as u32;
    assert(ledgers == q % 0x1_0000_0000) by (bit_vector)
        requires
            ledgers == q as u32,
    ;
    if ledgers < 100 {
        100
    } else {
        ledgers
    }
}

/// No two entries share a session key.
pub open spec fn keys_unique(s: Seq<(Address, SessionData)>) -> bool {
    forall|i: int, j: int|
        #![trigger s[i], s[j]]
        0 <= i < s.len() && 0 <= j < s.len() && i != j ==> s[i].0@ != s[j].0@
}

/// Some entry has session key `key`.
pub open spec fn has_key(s: Seq<(Address, SessionData)>, key: Seq<char>) -> bool {
    exists|i: int| 0 <= i < s.len() && #[trigger] s[i].0@ == key
}

/// The sessions by session key.
pub open spec fn sessions_map(s: Seq<(Address, SessionData)>) -> Map<Seq<char>, SessionView> {
    Map::new(
        |key: Seq<char>| has_key(s, key),
        |key: Seq<char>| session_view(s[choose|i: int| 0 <= i < s.len() && #[trigger] s[i].0@ == key].1),
    )
}

proof fn lemma_sessions_map_at(s: Seq<(Address, SessionData)>, i: int)
    requires
        keys_unique(s),
        0 <= i < s.len(),
    ensures
        sessions_map(s).dom().contains(s[i].0@),
        sessions_map(s)[s[i].0@] == session_view(s[i].1),
{
    let key = s[i].0@;
    assert(has_key(s, key));
    let j = choose|j: int| 0 <= j < s.len() && #[trigger] s[j].0@ == key;
    assert(j == i);
}

proof fn lemma_sessions_map_push(s: Seq<(Address, SessionData)>, e: (Address, SessionData))
    requires
        keys_unique(s),
        !sessions_map(s).dom().contains(e.0@),
    ensures
        keys_unique(s.push(e)),
        sessions_map(s.push(e)) =~= sessions_map(s).insert(e.0@, session_view(e.1)),
{
    let t = s.push(e);
    assert forall|i: int| 0 <= i < s.len() implies #[trigger] s[i].0@ != e.0@ by {
        if s[i].0@ == e.0@ {
            assert(has_key(s, e.0@));
        }
    }
    assert(keys_unique(t)) by {
        assert forall|i: int, j: int|
            0 <= i < t.len() && 0 <= j < t.len() && i != j implies #[trigger] t[i].0@ != #[trigger] t[j].0@ by {
            if i < s.len() && j < s.len() {
                assert(t[i] == s[i] && t[j] == s[j]);
            } else if i < s.len() {
                assert(t[i] == s[i]);
            } else {
                assert(t[j] == s[j]);
            }
        }
    }
    let m = sessions_map(s).insert(e.0@, session_view(e.1));
    assert forall|key: Seq<char>| #[trigger] m.dom().contains(key) <==> sessions_map(t).dom().contains(key) by {
        if has_key(s, key) {
            let i = choose|i: int| 0 <= i < s.len() && #[trigger] s[i].0@ == key;
            assert(t[i] == s[i]);
        }
        if key == e.0@ {
            assert(t[s.len() as int] == e);
        }
        if has_key(t, key) && key != e.0@ {
            let i = choose|i: int| 0 <= i < t.len() && #[trigger] t[i].0@ == key;
            assert(i < s.len());
            assert(s[i] == t[i]);
        }
    }
    assert forall|key: Seq<char>| #[trigger] m.dom().contains(key) implies m[key] == sessions_map(t)[key] by {
        if key == e.0@ {
            lemma_sessions_map_at(t, s.len() as int);
        } else {
            let i = choose|i: int| 0 <= i < s.len() && #[trigger] s[i].0@ == key;
            lemma_sessions_map_at(s, i);
            assert(t[i] == s[i]);
            lemma_sessions_map_at(t, i);
        }
    }
}

proof fn lemma_sessions_map_update(s: Seq<(Address, SessionData)>, i: int, e: (Address, SessionData))
    requires
        keys_unique(s),
        0 <= i < s.len(),
        e.0@ == s[i].0@,
    ensures
        keys_unique(s.update(i, e)),
        sessions_map(s.update(i, e)) =~= sessions_map(s).insert(e.0@, session_view(e.1)),
{
    let t = s.update(i, e);
    assert(keys_unique(t)) by {
        assert forall|a: int, b: int|
            0 <= a < t.len() && 0 <= b < t.len() && a != b implies #[trigger] t[a].0@ != #[trigger] t[b].0@ by {
            assert(t[a].0@ == s[a].0@);
            assert(t[b].0@ == s[b].0@);
        }
    }
    let m = sessions_map(s).insert(e.0@, session_view(e.1));
    assert forall|key: Seq<char>| #[trigger] m.dom().contains(key) <==> sessions_map(t).dom().contains(key) by {
        if has_key(s, key) {
            let k = choose|k: int| 0 <= k < s.len() && #[trigger] s[k].0@ == key;
            assert(t[k].0@ == key);
        }
        if has_key(t, key) {
            let k = choose|k: int| 0 <= k < t.len() && #[trigger] t[k].0@ == key;
            assert(s[k].0@ == key);
        }
        if key == e.0@ {
            assert(t[i] == e);
        }
    }
    assert forall|key: Seq<char>| #[trigger] m.dom().contains(key) implies m[key] == sessions_map(t)[key] by {
        if key == e.0@ {
            lemma_sessions_map_at(t, i);
        } else {
            let k = choose|k: int| 0 <= k < s.len() && #[trigger] s[k].0@ == key;
            lemma_sessions_map_at(s, k);
            assert(k != i);
            assert(t[k] == s[k]);
            lemma_sessions_map_at(t, k);
        }
    }
}

proof fn lemma_sessions_map_remove(s: Seq<(Address, SessionData)>, i: int)
    requires
        keys_unique(s),
        0 <= i < s.len(),
    ensures
        keys_unique(s.remove(i)),
        sessions_map(s.remove(i)) =~= sessions_map(s).remove(s[i].0@),
{
    let t = s.remove(i);
    let key_i = s[i].0@;
    assert forall|k: int| 0 <= k < t.len() implies #[trigger] t[k] == (if k < i {
        s[k]
    } else {
        s[k + 1]
    }) by {}
    assert(keys_unique(t)) by {
        assert forall|a: int, b: int|
            0 <= a < t.len() && 0 <= b < t.len() && a != b implies #[trigger] t[a].0@ != #[trigger] t[b].0@ by {
            let a2 = if a < i {
                a
            } else {
                a + 1
            };
            let b2 = if b < i {
                b
            } else {
                b + 1
            };
            assert(t[a] == s[a2]);
            assert(t[b] == s[b2]);
        }
    }
    let m = sessions_map(s).remove(key_i);
    assert forall|key: Seq<char>| #[trigger] m.dom().contains(key) <==> sessions_map(t).dom().contains(key) by {
        if has_key(s, key) && key != key_i {
            let k = choose|k: int| 0 <= k < s.len() && #[trigger] s[k].0@ == key;
            assert(k != i);
            let k2 = if k < i {
                k
            } else {
                k - 1
            };
            assert(t[k2] == s[k]);
        }
        if has_key(t, key) {
            let k = choose|k: int| 0 <= k < t.len() && #[trigger] t[k].0@ == key;
            let k2 = if k < i {
                k
            } else {
                k + 1
            };
            assert(t[k] == s[k2]);
            assert(k2 != i);
        }
    }
    assert forall|key: Seq<char>| #[trigger] m.dom().contains(key) implies m[key] == sessions_map(t)[key] by {
        let k = choose|k: int| 0 <= k < s.len() && #[trigger] s[k].0@ == key;
        lemma_sessions_map_at(s, k);
        assert(k != i);
        let k2 = if k < i {
            k
        } else {
            k - 1
        };
        assert(t[k2] == s[k]);
        lemma_sessions_map_at(t, k2);
    }
}

/// Stored session-registry state that its operations can work on: no
/// address appears twice on the whitelist and no session key twice.
pub open spec fn registry_parts_ok(whitelist: Seq<Address>, sessions: Seq<(Address, SessionData)>) -> bool {
    &&& addresses_view(whitelist).no_duplicates()
    &&& keys_unique(sessions)
}

/// The session-key registry.
///
/// An admin, set once, manages a whitelist of users; whitelisted users
/// register session keys that act for them on a set of actions until an
/// expiry time; a session's owner may revoke it.
pub struct SessionContract {
    admin: Option<Address>,
    whitelist: Vec<Address>,
    sessions: Vec<(Address, SessionData)>,
}

impl SessionContract {
    /// The registry's internal consistency (see `registry_parts_ok`).
    pub closed spec fn wf(self) -> bool {
        registry_parts_ok(self.whitelist@, self.sessions@)
    }

    /// The admin's key, if an admin is set.
    pub closed spec fn admin_view(self) -> Option<Seq<char>> {
        match self.admin {
            Some(a) => Some(a@),
            None => None,
        }
    }

    /// The keys of the whitelisted addresses.
    pub closed spec fn whitelist_view(self) -> Set<Seq<char>> {
        addresses_view(self.whitelist@).to_set()
    }

    /// The registered sessions, by session key.
    pub closed spec fn sessions_view(self) -> Map<Seq<char>, SessionView> {
        sessions_map(self.sessions@)
    }

    /// A registry with no admin, an empty whitelist and no sessions.
    pub fn new() -> (c: SessionContract)
        ensures
            c.wf(),
            c.admin_view() == None::<Seq<char>>,
            c.whitelist_view() == Set::<Seq<char>>::empty(),
            c.sessions_view() == Map::<Seq<char>, SessionView>::empty(),
    {
        let c = SessionContract { admin: None, whitelist: Vec::new(), sessions: Vec::new() };
        assert(c.whitelist_view() =~= Set::<Seq<char>>::empty());
        assert(c.sessions_view() =~= Map::<Seq<char>, SessionView>::empty());
        c
    }

    /// Sets the admin; this can be done once only.
    pub fn initialize(&mut self, admin: Address) -> (r: Result<(), SessionError>)
        requires
            old(self).wf(),
        ensures
            final(self).wf(),
            old(self).admin_view() is Some ==> r == Err::<(), SessionError>(SessionError::AlreadyInitialized)
                && *final(self) == *old(self),
            old(self).admin_view() is None ==> {
                &&& r is Ok
                &&& final(self).admin_view() == Some(admin@)
                &&& final(self).whitelist_view() == old(self).whitelist_view()
                &&& final(self).sessions_view() == old(self).sessions_view()
            },
    {
        if self.admin.is_some() {
            return Err(SessionError::AlreadyInitialized);
        }
        self.admin = Some(admin);
        Ok(())
    }

    /// The admin, whose authorisation the whitelist operations need.
    pub fn admin(&self) -> (a: Option<&Address>)
        ensures
            a is Some == self.admin_view() is Some,
            a matches Some(x) ==> Some(x@) == self.admin_view(),
    {
        match &self.admin {
            Some(a) => Some(a),
            None => None,
        }
    }

    fn require_admin(&self) -> (r: Result<(), SessionError>)
        ensures
            r is Ok <==> self.admin_view() is Some,
            r is Err ==> r == Err::<(), SessionError>(SessionError::NotInitialized),
    {
        if self.admin.is_some() {
            Ok(())
        } else {
            Err(SessionError::NotInitialized)
        }
    }

    fn find_whitelisted(&self, address: &Address) -> (r: Option<usize>)
        ensures
            match r {
                Some(i) => {
                    &&& i < self.whitelist.len()
                    &&& self.whitelist@[i as int]@ == address@
                    &&& self.whitelist_view().contains(address@)
                },
                None => !self.whitelist_view().contains(address@),
            },
    {
        let n = self.whitelist.len();
        for i in 0..n
            invariant
                n == self.whitelist.len(),
                forall|k: int| 0 <= k < i ==> #[trigger] self.whitelist@[k]@ != address@,
        {
            if self.whitelist[i].same_as(address) {
                assert(addresses_view(self.whitelist@)[i as int] == address@);
                return Some(i);
            }
        }
        proof {
            if self.whitelist_view().contains(address@) {
                let k = choose|k: int|
                    0 <= k < addresses_view(self.whitelist@).len() && addresses_view(self.whitelist@)[k]
                        == address@;
                assert(self.whitelist@[k]@ == address@);
            }
        }
        None
    }

    /// Adds `address` to the whitelist (a no-op when it is already there).
    /// Needs an admin to be set.
    pub fn add_to_whitelist(&mut self, address: Address) -> (r: Result<(), SessionError>)
        requires
            old(self).wf(),
        ensures
            final(self).wf(),
            old(self).admin_view() is None ==> r == Err::<(), SessionError>(SessionError::NotInitialized)
                && *final(self) == *old(self),
            old(self).admin_view() is Some ==> {
                &&& r is Ok
                &&& final(self).whitelist_view() == old(self).whitelist_view().insert(address@)
                &&& final(self).admin_view() == old(self).admin_view()
                &&& final(self).sessions_view() == old(self).sessions_view()
            },
    {
        if self.require_admin().is_err() {
            return Err(SessionError::NotInitialized);
        }
        if self.find_whitelisted(&address).is_some() {
            proof {
                assert(self.whitelist_view().insert(address@) =~= self.whitelist_view());
            }
            return Ok(());
        }
        let ghost old_w = self.whitelist@;
        let ghost key = address@;
        self.whitelist.push(address);
        proof {
            assert(addresses_view(self.whitelist@) =~= addresses_view(old_w).push(key));
            addresses_view(old_w).lemma_push_to_set_commute(key);
            let v = addresses_view(self.whitelist@);
            let ov = addresses_view(old_w);
            assert forall|a: int, b: int| 0 <= a < v.len() && 0 <= b < v.len() && a != b implies v[a] != v[b] by {
                if a < ov.len() && b < ov.len() {
                    assert(v[a] == ov[a] && v[b] == ov[b]);
                } else if a < ov.len() {
                    assert(v[a] == ov[a]);
                    assert(ov.contains(v[a]));
                } else {
                    assert(v[b] == ov[b]);
                    assert(ov.contains(v[b]));
                }
            }
        }
        Ok(())
    }

    /// Removes `address` from the whitelist (a no-op when it is not there).
    /// Needs an admin to be set. Sessions already registered stay.
    pub fn remove_from_whitelist(&mut self, address: &Address) -> (r: Result<(), SessionError>)
        requires
            old(self).wf(),
        ensures
            final(self).wf(),
            old(self).admin_view() is None ==> r == Err::<(), SessionError>(SessionError::NotInitialized)
                && *final(self) == *old(self),
            old(self).admin_view() is Some ==> {
                &&& r is Ok
                &&& final(self).whitelist_view() == old(self).whitelist_view().remove(address@)
                &&& final(self).admin_view() == old(self).admin_view()
                &&& final(self).sessions_view() == old(self).sessions_view()
            },
    {
        if self.require_admin().is_err() {
            return Err(SessionError::NotInitialized);
        }
        match self.find_whitelisted(address) {
            None => {
                proof {
                    assert(self.whitelist_view().remove(address@) =~= self.whitelist_view());
                }
                Ok(())
            },
            Some(i) => {
                let ghost old_w = self.whitelist@;
                let ghost ov = addresses_view(old_w);
                self.whitelist.remove(i);
                proof {
                    let v = addresses_view(self.whitelist@);
                    assert(v =~= ov.remove(i as int));
                    assert forall|k: int| 0 <= k < v.len() implies #[trigger] v[k] == (if k < i {
                        ov[k]
                    } else {
                        ov[k + 1]
                    }) by {}
                    assert forall|a: int, b: int|
                        0 <= a < v.len() && 0 <= b < v.len() && a != b implies v[a] != v[b] by {
                        let a2 = if a < i {
                            a
                        } else {
                            a + 1
                        };
                        let b2 = if b < i {
                            b
                        } else {
                            b + 1
                        };
                        assert(v[a] == ov[a2]);
                        assert(v[b] == ov[b2]);
                    }
                    assert forall|x: Seq<char>| v.to_set().contains(x) <==> ov.to_set().remove(address@).contains(x) by {
                        if v.contains(x) {
                            let k = choose|k: int| 0 <= k < v.len() && v[k] == x;
                            let k2 = if k < i {
                                k
                            } else {
                                k + 1
                            };
                            assert(ov[k2] == x);
                            assert(k2 != i);
                            assert(ov[i as int] == address@);
                        }
                        if ov.contains(x) && x != address@ {
                            let k = choose|k: int| 0 <= k < ov.len() && ov[k] == x;
                            assert(k != i);
                            let k2 = if k < i {
                                k
                            } else {
                                k - 1
                            };
                            assert(v[k2] == x);
                        }
                    }
                    assert(v.to_set() =~= ov.to_set().remove(address@));
                }
                Ok(())
            },
        }
    }

    /// Whether `address` is whitelisted.
    pub fn is_whitelisted(&self, address: &Address) -> (b: bool)
        ensures
            b == self.whitelist_view().contains(address@),
    {
        self.find_whitelisted(address).is_some()
    }

    fn find_session(&self, key: &Address) -> (r: Option<usize>)
        requires
            self.wf(),
        ensures
            match r {
                Some(i) => {
                    &&& i < self.sessions.len()
                    &&& self.sessions@[i as int].0@ == key@
                    &&& self.sessions_view().dom().contains(key@)
                    &&& self.sessions_view()[key@] == session_view(self.sessions@[i as int].1)
                },
                None => !self.sessions_view().dom().contains(key@),
            },
    {
        let n = self.sessions.len();
        for i in 0..n
            invariant
                n == self.sessions.len(),
                self.wf(),
                forall|k: int| 0 <= k < i ==> #[trigger] self.sessions@[k].0@ != key@,
        {
            if self.sessions[i].0.same_as(key) {
                proof {
                    lemma_sessions_map_at(self.sessions@, i as int);
                }
                return Some(i);
            }
        }
        None
    }

    /// Registers `session_key` to act for `user` on `allowed_actions` until
    /// `expires_at`, at ledger time `now`.
    ///
    /// The user must be whitelisted and the expiry must be after `now`; the
    /// checks are made in that order. A session already registered under the
    /// same key is replaced.
    pub fn create_session(
        &mut self,
        user: Address,
        session_key: Address,
        expires_at: u64,
        allowed_actions: Vec<String>,
        now: u64,
    ) -> (r: Result<(), SessionError>)
        requires
            old(self).wf(),
        ensures
            final(self).wf(),
            !old(self).whitelist_view().contains(user@) ==> r == Err::<(), SessionError>(
                SessionError::NotWhitelisted,
            ),
            old(self).whitelist_view().contains(user@) && expires_at <= now ==> r == Err::<(), SessionError>(
                SessionError::ExpiryNotInFuture,
            ),
            r is Ok <==> (old(self).whitelist_view().contains(user@) && now < expires_at),
            r is Err ==> *final(self) == *old(self),
            r is Ok ==> {
                &&& old(self).whitelist_view().contains(user@)
                &&& now < expires_at
                &&& final(self).sessions_view() == old(self).sessions_view().insert(
                    session_key@,
                    SessionView { user: user@, expires_at, allowed_actions: actions_view(allowed_actions@) },
                )
                &&& final(self).admin_view() == old(self).admin_view()
                &&& final(self).whitelist_view() == old(self).whitelist_view()
            },
    {
        if !self.is_whitelisted(&user) {
            return Err(SessionError::NotWhitelisted);
        }
        if expires_at <= now {
            return Err(SessionError::ExpiryNotInFuture);
        }
        let found = self.find_session(&session_key);
        let ghost old_s = self.sessions@;
        let data = SessionData { user, expires_at, allowed_actions };
        match found {
            Some(i) => {
                let entry = (session_key, data);
                proof {
                    lemma_sessions_map_update(old_s, i as int, entry);
                }
                self.sessions.set(i, entry);
                proof {
                    assert(self.sessions@ =~= old_s.update(i as int, entry));
                }
            },
            None => {
                let entry = (session_key, data);
                proof {
                    lemma_sessions_map_push(old_s, entry);
                }
                self.sessions.push(entry);
            },
        }
        Ok(())
    }

    /// The session registered under `session_key`.
    pub fn get_session(&self, session_key: &Address) -> (r: Result<&SessionData, SessionError>)
        requires
            self.wf(),
        ensures
            r is Ok == self.sessions_view().dom().contains(session_key@),
            r matches Ok(d) ==> session_view(*d) == self.sessions_view()[session_key@],
            r is Err ==> r == Err::<&SessionData, SessionError>(SessionError::SessionNotFound),
    {
        match self.find_session(session_key) {
            Some(i) => Ok(&self.sessions[i].1),
            None => Err(SessionError::SessionNotFound),
        }
    }

    /// Revokes the session under `session_key` on behalf of `user`, who must
    /// own it. The checks are made in this order: the session exists, then
    /// `user` owns it.
    pub fn revoke_session(&mut self, user: &Address, session_key: &Address) -> (r: Result<(), SessionError>)
        requires
            old(self).wf(),
        ensures
            final(self).wf(),
            !old(self).sessions_view().dom().contains(session_key@) ==> r == Err::<(), SessionError>(
                SessionError::SessionNotFound,
            ),
            old(self).sessions_view().dom().contains(session_key@) && old(self).sessions_view()[session_key@].user
                != user@ ==> r == Err::<(), SessionError>(SessionError::NotSessionOwner),
            r is Ok <==> (old(self).sessions_view().dom().contains(session_key@) && old(
                self,
            ).sessions_view()[session_key@].user == user@),
            r is Err ==> *final(self) == *old(self),
            r is Ok ==> {
                &&& old(self).sessions_view().dom().contains(session_key@)
                &&& old(self).sessions_view()[session_key@].user == user@
                &&& final(self).sessions_view() == old(self).sessions_view().remove(session_key@)
                &&& final(self).admin_view() == old(self).admin_view()
                &&& final(self).whitelist_view() == old(self).whitelist_view()
            },
    {
        let i = match self.find_session(session_key) {
            Some(i) => i,
            None => {
                return Err(SessionError::SessionNotFound);
            },
        };
        if !self.sessions[i].1.user.same_as(user) {
            return Err(SessionError::NotSessionOwner);
        }
        let ghost old_s = self.sessions@;
        proof {
            lemma_sessions_map_remove(old_s, i as int);
        }
        self.sessions.remove(i);
        Ok(())
    }

    /// Whether the session under `session_key` exists, is live at ledger time
    /// `now`, and allows `action`.
    pub fn validate_session(&self, session_key: &Address, action: &String, now: u64) -> (b: bool)
        requires
            self.wf(),
        ensures
            b == session_allows(self.sessions_view(), session_key@, action@, now),
    {
        match self.find_session(session_key) {
            None => false,
            Some(i) => {
                let data = &self.sessions[i].1;
                if now >= data.expires_at {
                    return false;
                }
                let actions = &data.allowed_actions;
                let ghost v = actions_view(actions@);
                let n = actions.len();
                for k in 0..n
                    invariant
                        n == actions.len(),
                        v == actions_view(actions@),
                        self.sessions_view().dom().contains(session_key@),
                        self.sessions_view()[session_key@].allowed_actions == v,
                        now < self.sessions_view()[session_key@].expires_at,
                        forall|j: int| 0 <= j < k ==> #[trigger] v[j] != action@,
                {
                    if actions[k] == *action {
                        assert(v[k as int] == action@);
                        assert(v.contains(action@));
                        return true;
                    }
                }
                proof {
                    if v.contains(action@) {
                        let j = choose|j: int| 0 <= j < v.len() && v[j] == action@;
                        assert(v[j] != action@);
                    }
                }
                false
            },
        }
    }
}

impl SessionContract {
    /// Rebuilds the registry from its stored parts: the admin, if set, the
    /// whitelisted addresses and the registered sessions. Gives `None` when
    /// an address appears twice on the whitelist or a session key twice.
    pub fn from_parts(
        admin: Option<Address>,
        whitelist: Vec<Address>,
        sessions: Vec<(Address, SessionData)>,
    ) -> (r: Option<SessionContract>)
        ensures
            r is Some <==> registry_parts_ok(whitelist@, sessions@),
            r matches Some(c) ==> {
                &&& c.wf()
                &&& c.admin_view() == (match admin {
                    Some(a) => Some(a@),
                    None => None::<Seq<char>>,
                })
                &&& c.whitelist_view() == addresses_view(whitelist@).to_set()
                &&& c.sessions_view() == sessions_map(sessions@)
            },
    {
        let ghost wv = addresses_view(whitelist@);
        let n = whitelist.len();
        for i in 0..n
            invariant
                n == whitelist.len(),
                wv == addresses_view(whitelist@),
                forall|a: int, b: int| #![trigger wv[a], wv[b]] 0 <= a < i && 0 <= b < n && a != b ==> wv[a] != wv[b],
        {
            for j in 0..n
                invariant
                    n == whitelist.len(),
                    wv == addresses_view(whitelist@),
                    0 <= i < n,
                    forall|a: int, b: int| #![trigger wv[a], wv[b]] 0 <= a < i && 0 <= b < n && a != b ==> wv[a] != wv[b],
                    forall|b: int| 0 <= b < j && b != i ==> wv[i as int] != #[trigger] wv[b],
            {
                if i != j && whitelist[i].same_as(&whitelist[j]) {
                    assert(wv[i as int] == wv[j as int]);
                    return None;
                }
            }
        }
        let m = sessions.len();
        for i in 0..m
            invariant
                m == sessions.len(),
                addresses_view(whitelist@).no_duplicates(),
                forall|a: int, b: int|
                    #![trigger sessions@[a], sessions@[b]]
                    0 <= a < i && 0 <= b < m && a != b ==> sessions@[a].0@ != sessions@[b].0@,
        {
            for j in 0..m
                invariant
                    m == sessions.len(),
                    0 <= i < m,
                    forall|a: int, b: int|
                        #![trigger sessions@[a], sessions@[b]]
                        0 <= a < i && 0 <= b < m && a != b ==> sessions@[a].0@ != sessions@[b].0@,
                    forall|b: int| 0 <= b < j && b != i ==> sessions@[i as int].0@ != #[trigger] sessions@[b].0@,
            {
                if i != j && sessions[i].0.same_as(&sessions[j].0) {
                    return None;
                }
            }
        }
        Some(SessionContract { admin, whitelist, sessions })
    }

    /// The whitelisted addresses.
    pub fn whitelist(&self) -> (w: &Vec<Address>)
        ensures
            addresses_view(w@).to_set() == self.whitelist_view(),
    {
        &self.whitelist
    }

    /// The registered sessions with their keys.
    pub fn sessions(&self) -> (s: &Vec<(Address, SessionData)>)
        ensures
            sessions_map(s@) == self.sessions_view(),
    {
        &self.sessions
    }
}

/// A session registered at ledger time `now` with expiry `view.expires_at`
/// allows each of its actions at every time from `now` until just before
/// its expiry, whatever was registered under its key before; once revoked,
/// it allows nothing.
pub proof fn lemma_session_lifecycle(
    sessions: Map<Seq<char>, SessionView>,
    key: Seq<char>,
    view: SessionView,
    action: Seq<char>,
    t: u64,
)
    ensures
        view.allowed_actions.contains(action) && t < view.expires_at ==> session_allows(
            sessions.insert(key, view),
            key,
            action,
            t,
        ),
        !view.allowed_actions.contains(action) ==> !session_allows(sessions.insert(key, view), key, action, t),
        view.expires_at <= t ==> !session_allows(sessions.insert(key, view), key, action, t),
        !session_allows(sessions.remove(key), key, action, t),
{
}

} // verus!
