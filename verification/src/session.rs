//! Session table: the games of all live sessions, filed under their session ids,
//! with expiry after a period without activity.

use std::collections::HashMap;
use std::time::Instant;

use vstd::prelude::*;

use crate::game::state::GameState;

verus! {

/// How long a session lives without activity before being reaped, in seconds (30 minutes).
pub const SESSION_TTL_SECS: u64 = 1_800;

/// The same lifetime in nanoseconds.
pub const SESSION_TTL_NANOS: u128 = 1_800_000_000_000;

/// Map of session_id → GameState.
///
/// Not shared by itself: a server that serves requests concurrently keeps it
/// behind a lock.
pub struct SessionStore {
    sessions: HashMap<u128, GameState>,
}

/// Time elapsed since `since`, in nanoseconds.
///
/// Calls `std::time::Instant::elapsed` and converts the duration with
/// `Duration::as_nanos`. Nothing is claimed of the value: it depends on the clock.
#[verifier::external_body]
fn idle_nanos(since: &Instant) -> u128 {
    since.elapsed().as_nanos()
}

/// A session idle for `idle_nanos` nanoseconds has outlived `SESSION_TTL_NANOS`.
pub fn is_expired(idle_nanos: u128) -> (expired: bool)
    ensures
        expired == (idle_nanos >= SESSION_TTL_NANOS),
{
    idle_nanos >= SESSION_TTL_NANOS
}

impl SessionStore {
    /// The games held, by session id.
    pub closed spec fn sessions(&self) -> Map<u128, GameState> {
        self.sessions@
    }

    /// Every game is filed under its own session id.
    #[verifier::type_invariant]
    spec fn keyed_by_session_id(&self) -> bool {
        forall|id: u128| #[trigger]
            self.sessions@.contains_key(id) ==> self.sessions@[id].session_id == id
    }

    /// Create a new empty session table.
    #[must_use]
    pub fn new() -> (m: Self)
        ensures
            m.sessions() == Map::<u128, GameState>::empty(),
    {
        SessionStore { sessions: HashMap::new() }
    }

    /// Insert a new game state, returning the session ID.
    pub fn create(&mut self, gs: GameState) -> (id: u128)
        ensures
            id == gs.session_id,
            final(self).sessions() == old(self).sessions().insert(id, gs),
    {
        proof {
            use_type_invariant(&*self);
        }
        let id = gs.session_id;
        let mut sessions = HashMap::new();
        std::mem::swap(&mut sessions, &mut self.sessions);
        sessions.insert(id, gs);
        self.sessions = sessions;
        id
    }

    /// The game of a session, if the session exists.
    pub fn get(&self, id: u128) -> (r: Option<&GameState>)
        ensures
            match r {
                Some(gs) => self.sessions().contains_key(id) && *gs == self.sessions()[id]
                    && gs.session_id == id,
                None => !self.sessions().contains_key(id),
            },
    {
        proof {
            use_type_invariant(self);
        }
        self.sessions.get(&id)
    }

    /// Run a closure with a shared reference to the session. Returns None if not found.
    pub fn with<F, R>(&self, id: u128, f: F) -> (r: Option<R>)
        where
            F: FnOnce(&GameState) -> R,
        requires
            forall|gs: &GameState| f.requires((gs,)),
        ensures
            match r {
                Some(x) => self.sessions().contains_key(id) && f.ensures((&self.sessions()[id],), x),
                None => !self.sessions().contains_key(id),
            },
    {
        match self.get(id) {
            Some(gs) => Some(f(gs)),
            None => None,
        }
    }

    /// Take a session's game out of the table, if the session exists.
    pub fn take(&mut self, id: u128) -> (r: Option<GameState>)
        ensures
            match r {
                Some(gs) => old(self).sessions().contains_key(id) && gs == old(self).sessions()[id]
                    && gs.session_id == id && final(self).sessions() == old(self).sessions().remove(id),
                None => !old(self).sessions().contains_key(id) && final(self).sessions() == old(
                    self,
                ).sessions(),
            },
    {
        proof {
            use_type_invariant(&*self);
        }
        let mut sessions = HashMap::new();
        std::mem::swap(&mut sessions, &mut self.sessions);
        let r = sessions.remove(&id);
        proof {
            if r is None {
                assert(sessions@ =~= old(self).sessions());
            }
        }
        self.sessions = sessions;
        r
    }

    /// Remove a session. Returns true if it existed.
    pub fn remove(&mut self, id: u128) -> (found: bool)
        ensures
            found == old(self).sessions().contains_key(id),
            final(self).sessions() == old(self).sessions().remove(id),
    {
        let r = self.take(id);
        proof {
            if r is None {
                assert(old(self).sessions().remove(id) =~= old(self).sessions());
            }
        }
        r.is_some()
    }

    /// Remove the session `id` when it exists and has been idle for
    /// `idle_nanos` nanoseconds, at least `SESSION_TTL_NANOS`. Returns true if
    /// it was removed.
    pub fn expire_if_idle(&mut self, id: u128, idle_nanos: u128) -> (removed: bool)
        ensures
            removed == (old(self).sessions().contains_key(id) && idle_nanos >= SESSION_TTL_NANOS),
            final(self).sessions() == (if removed {
                old(self).sessions().remove(id)
            } else {
                old(self).sessions()
            }),
    {
        if is_expired(idle_nanos) {
            self.remove(id)
        } else {
            false
        }
    }

    /// Remove all sessions idle for at least `SESSION_TTL_NANOS`. The sessions
    /// kept are kept unchanged; which ones expire depends on the clock.
    pub fn reap_expired(&mut self)
        ensures
            final(self).sessions().submap_of(old(self).sessions()),
    {
        let mut ids: Vec<u128> = Vec::new();
        for id in self.sessions.keys() {
            ids.push(*id);
        }
        let n = ids.len();
        for i in 0..n
            invariant
                n == ids@.len(),
                self.sessions().submap_of(old(self).sessions()),
        {
            let id = ids[i];
            let idle = match self.get(id) {
                Some(gs) => Some(idle_nanos(&gs.last_activity)),
                None => None,
            };
            if let Some(idle) = idle {
                self.expire_if_idle(id, idle);
            }
        }
    }
}

} // verus!
