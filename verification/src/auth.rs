//! Session state and the authentication agent.
//!
//! The agent owns the current session state and a registry of subscribers.
//! Requests put the session into a transitional state while the transport
//! round trip is in flight; the transport's eventual outcome arrives as a
//! [`Msg`] and resolves the session to a terminal state. Starting a new
//! request while one is in flight simply supersedes the earlier one's
//! eventual effect: the last writer wins. Every state change is broadcast
//! to all registered subscribers.
//!
//! The transport itself (an HTTP round trip against the authentication
//! service) is a collaborator of the caller: it performs the exchange and
//! hands the outcome back as a [`Msg`].

use vstd::prelude::*;

use crate::ids::Id;

verus! {

/// The identity of the logged-in user: identifier and display name.
#[derive(Debug, PartialEq)]
pub struct UserInfo {
    pub uuid: Id,
    pub name: String,
}

impl Clone for UserInfo {
    fn clone(&self) -> (r: Self)
        ensures
            r == *self,
    {
        UserInfo { uuid: self.uuid, name: self.name.clone() }
    }
}

/// How a user identifies themselves when logging in.
#[derive(Debug)]
pub enum UserIdentifier {
    Name(String),
    Uuid(Id),
}

/// The credentials presented on login.
#[derive(Debug)]
pub struct UserLogin {
    pub identifier: UserIdentifier,
    pub password: String,
    pub totp: Option<String>,
}

/// The data presented on signup.
#[derive(Debug)]
pub struct UserSignup {
    pub name: String,
    pub password: String,
}

/// A request to the authentication agent.
#[derive(Debug)]
pub enum AuthAgentRequest {
    GetAuthStatus,
    Login(UserLogin),
    Signup(UserSignup),
    Logout,
}

/// The current authentication status of the client.
#[derive(Debug, PartialEq)]
pub enum AuthState {
    /// The current status is being fetched.
    Probing,
    /// A logout round trip is in flight.
    LoggingOut,
    /// Not logged in, and nothing in flight.
    Initial,
    /// A login or signup round trip is in flight.
    LoggingIn,
    /// Logged in as the given user.
    LoggedIn(UserInfo),
    /// The last operation failed with the given message.
    Error(String),
}

impl Clone for AuthState {
    fn clone(&self) -> (r: Self)
        ensures
            r == *self,
    {
        match self {
            AuthState::Probing => AuthState::Probing,
            AuthState::LoggingOut => AuthState::LoggingOut,
            AuthState::Initial => AuthState::Initial,
            AuthState::LoggingIn => AuthState::LoggingIn,
            AuthState::LoggedIn(u) => AuthState::LoggedIn(u.clone()),
            AuthState::Error(e) => AuthState::Error(e.clone()),
        }
    }
}

impl AuthState {
    /// Whether a round trip is in flight, so that a consumer should not
    /// start another operation yet.
    pub fn is_busy(&self) -> (r: bool)
        ensures
            r == self.spec_is_busy(),
    {
        match self {
            AuthState::LoggingOut | AuthState::LoggingIn | AuthState::Probing => true,
            AuthState::Initial | AuthState::LoggedIn(_) | AuthState::Error(_) => false,
        }
    }

    /// Whether the state is one of the transitional ones.
    pub open spec fn spec_is_busy(&self) -> bool {
        match self {
            AuthState::LoggingOut | AuthState::LoggingIn | AuthState::Probing => true,
            _ => false,
        }
    }
}

/// The outcome of an authentication round trip, as handed back by the
/// transport.
#[derive(Debug)]
pub enum Msg {
    /// The service confirmed the session of the given user.
    LoggedIn(UserInfo),
    /// The service confirmed that no session exists any more.
    LoggedOut,
    /// The round trip failed with the given message.
    LoginError(String),
}

/// The transitional state a request puts the session into while its round
/// trip is in flight.
pub open spec fn begin_state(req: AuthAgentRequest) -> AuthState {
    match req {
        AuthAgentRequest::GetAuthStatus => AuthState::Probing,
        AuthAgentRequest::Login(_) => AuthState::LoggingIn,
        AuthAgentRequest::Signup(_) => AuthState::LoggingIn,
        AuthAgentRequest::Logout => AuthState::LoggingOut,
    }
}

/// The terminal state an outcome resolves the session to. A failure
/// while the current status was being probed means no session exists, so
/// it resolves to signed-out rather than to an error.
pub open spec fn resolve_state(current: AuthState, msg: Msg) -> AuthState {
    match msg {
        Msg::LoggedIn(user) => AuthState::LoggedIn(user),
        Msg::LoggedOut => AuthState::Initial,
        Msg::LoginError(e) => if (current matches AuthState::Probing) {
            AuthState::Initial
        } else {
            AuthState::Error(e)
        },
    }
}

/// The authentication agent: the session state slot and the subscriber
/// registry.
pub struct AuthAgent {
    subscribers: Vec<u64>,
    auth_state: AuthState,
}

impl AuthAgent {
    /// Each live subscriber is registered exactly once.
    pub closed spec fn wf(&self) -> bool {
        forall|i: int, j: int|
            0 <= i < j < self.subscribers@.len() ==> self.subscribers@[i] != self.subscribers@[j]
    }

    /// The registered subscribers, in registration order.
    pub closed spec fn subs(&self) -> Seq<u64> {
        self.subscribers@
    }

    /// The current session state.
    pub closed spec fn state(&self) -> AuthState {
        self.auth_state
    }

    /// A fresh agent: nothing known about the session, nobody subscribed.
    pub fn new() -> (r: AuthAgent)
        ensures
            r.wf(),
            r.subs() == Seq::<u64>::empty(),
            r.state() == AuthState::Initial,
    {
        let r = AuthAgent { subscribers: Vec::new(), auth_state: AuthState::Initial };
        proof {
            assert(r.subscribers@ =~= Seq::<u64>::empty());
        }
        r
    }

    /// Reads the current session state.
    pub fn current_state(&self) -> (r: &AuthState)
        ensures
            *r == self.state(),
    {
        &self.auth_state
    }

    /// Registers a consumer. Only a live subscriber — one that asked for
    /// unsolicited broadcasts when it connected — enters the registry; a
    /// one-shot requester is not recorded at all.
    pub fn connected(&mut self, id: u64, is_subscriber: bool)
        requires
            old(self).wf(),
        ensures
            final(self).wf(),
            final(self).state() == old(self).state(),
            final(self).subs() == (if is_subscriber && !old(self).subs().contains(id) {
                old(self).subs().push(id)
            } else {
                old(self).subs()
            }),
    {
        if is_subscriber && !contains_id(&self.subscribers, id) {
            self.subscribers.push(id);
        }
    }

    /// Deregisters a consumer.
    pub fn disconnected(&mut self, id: u64)
        requires
            old(self).wf(),
        ensures
            final(self).wf(),
            final(self).state() == old(self).state(),
            final(self).subs() == old(self).subs().remove_value(id),
            !final(self).subs().contains(id),
    {
        let mut k: usize = 0;
        while k < self.subscribers.len()
            invariant
                self.subscribers@ == old(self).subscribers@,
                self.auth_state == old(self).auth_state,
                k <= self.subscribers@.len(),
                forall|i: int| 0 <= i < k ==> old(self).subscribers@[i] != id,
                forall|i: int, j: int|
                    0 <= i < j < old(self).subscribers@.len() ==> old(self).subscribers@[i]
                        != old(self).subscribers@[j],
            decreases self.subscribers@.len() - k,
        {
            if self.subscribers[k] == id {
                let ghost pre = old(self).subscribers@;
                self.subscribers.remove(k);
                proof {
                    lemma_registry_remove(pre, k as int, id);
                    assert(self.subscribers@ == pre.remove(k as int));
                }
                return;
            }
            k += 1;
        }
        proof {
            let pre = old(self).subscribers@;
            pre.index_of_first_ensures(id);
            assert(!pre.contains(id));
            assert(pre.remove_value(id) == pre);
        }
    }

    /// Accepts a request: stores the transitional state the request puts
    /// the session into and reports it to every subscriber. The caller
    /// performs the transport round trip and later hands the outcome to
    /// [`AuthAgent::update`].
    pub fn handle_input(&mut self, msg: AuthAgentRequest) -> (r: Vec<(u64, AuthState)>)
        requires
            old(self).wf(),
        ensures
            final(self).wf(),
            final(self).subs() == old(self).subs(),
            final(self).state() == begin_state(msg),
            broadcast_to_all(r@, old(self).subs(), final(self).state()),
    {
        self.auth_state = match msg {
            AuthAgentRequest::GetAuthStatus => AuthState::Probing,
            AuthAgentRequest::Login(_) => AuthState::LoggingIn,
            AuthAgentRequest::Signup(_) => AuthState::LoggingIn,
            AuthAgentRequest::Logout => AuthState::LoggingOut,
        };
        self.broadcast_state()
    }

    /// Accepts the outcome of a round trip: resolves the session to the
    /// outcome's terminal state and reports it to every subscriber.
    pub fn update(&mut self, msg: Msg) -> (r: Vec<(u64, AuthState)>)
        requires
            old(self).wf(),
        ensures
            final(self).wf(),
            final(self).subs() == old(self).subs(),
            final(self).state() == resolve_state(old(self).state(), msg),
            broadcast_to_all(r@, old(self).subs(), final(self).state()),
    {
        self.auth_state = match msg {
            Msg::LoggedIn(user) => AuthState::LoggedIn(user),
            Msg::LoggedOut => AuthState::Initial,
            Msg::LoginError(e) => {
                match &self.auth_state {
                    AuthState::Probing => AuthState::Initial,
                    _ => AuthState::Error(e),
                }
            },
        };
        self.broadcast_state()
    }

    /// One copy of the current state per subscriber, in registration order.
    fn broadcast_state(&self) -> (r: Vec<(u64, AuthState)>)
        ensures
            broadcast_to_all(r@, self.subs(), self.state()),
    {
        let mut r: Vec<(u64, AuthState)> = Vec::new();
        let mut k: usize = 0;
        while k < self.subscribers.len()
            invariant
                k <= self.subscribers@.len(),
                r@.len() == k,
                forall|i: int| 0 <= i < k ==> (#[trigger] r@[i]).0 == self.subscribers@[i],
                forall|i: int| 0 <= i < k ==> (#[trigger] r@[i]).1 == self.auth_state,
            decreases self.subscribers@.len() - k,
        {
            r.push((self.subscribers[k], self.auth_state.clone()));
            k += 1;
        }
        r
    }
}

/// Whether `r` delivers exactly `state` to each of `subs`, in order.
pub open spec fn broadcast_to_all(
    r: Seq<(u64, AuthState)>,
    subs: Seq<u64>,
    state: AuthState,
) -> bool {
    &&& r.len() == subs.len()
    &&& forall|i: int| 0 <= i < r.len() ==> (#[trigger] r[i]).0 == subs[i]
    &&& forall|i: int| 0 <= i < r.len() ==> (#[trigger] r[i]).1 == state
}

/// Removing the first hit of a duplicate-free registry removes the
/// identifier for good and keeps the registry duplicate-free.
pub proof fn lemma_registry_remove(pre: Seq<u64>, k: int, id: u64)
    requires
        forall|i: int, j: int| 0 <= i < j < pre.len() ==> pre[i] != pre[j],
        0 <= k < pre.len(),
        pre[k] == id,
        forall|j: int| 0 <= j < k ==> pre[j] != id,
    ensures
        pre.remove_value(id) == pre.remove(k),
        pre.remove(k).len() == pre.len() - 1,
        forall|i: int, j: int|
            0 <= i < j < pre.remove(k).len() ==> pre.remove(k)[i] != pre.remove(k)[j],
        !pre.remove(k).contains(id),
{
    pre.index_of_first_ensures(id);
    assert(pre.contains(id)) by {
        assert(pre[k] == id);
    }
    assert(pre.index_of_first(id) == Some(k));
    pre.remove_ensures(k);
    let post = pre.remove(k);
    assert(post.len() == pre.len() - 1);
    assert forall|i: int, j: int| 0 <= i < j < post.len() implies post[i] != post[j] by {
        let pi: int = if i < k { i } else { i + 1 };
        let pj: int = if j < k { j } else { j + 1 };
        assert(post[i] == pre[pi]);
        assert(post[j] == pre[pj]);
        assert(pre[pi] != pre[pj]);
    }
    assert forall|i: int| 0 <= i < post.len() implies post[i] != id by {
        let pi: int = if i < k { i } else { i + 1 };
        assert(post[i] == pre[pi]);
        if pi != k {
            assert(pre[pi] != pre[k]);
        }
    }
    assert(!post.contains(id));
}

/// Finds whether the list contains the given identifier.
pub fn contains_id(v: &Vec<u64>, id: u64) -> (r: bool)
    ensures
        r == v@.contains(id),
{
    let mut k: usize = 0;
    while k < v.len()
        invariant
            k <= v@.len(),
            forall|i: int| 0 <= i < k ==> v@[i] != id,
        decreases v@.len() - k,
    {
        if v[k] == id {
            return true;
        }
        k += 1;
    }
    proof {
        assert(!v@.contains(id));
    }
    false
}

} // verus!
