use sfi_store::auth::{
    AuthAgent, AuthAgentRequest, AuthState, Msg, UserIdentifier, UserInfo, UserLogin, UserSignup,
};
use sfi_store::ids::Id;

fn user() -> UserInfo {
    UserInfo {
        uuid: Id::from_value(5),
        name: String::from("u"),
    }
}

#[test]
fn fresh_agent_knows_nothing() {
    let agent = AuthAgent::new();
    assert_eq!(*agent.current_state(), AuthState::Initial);
}

#[test]
fn requests_enter_the_transitional_states() {
    let mut agent = AuthAgent::new();
    agent.handle_input(AuthAgentRequest::GetAuthStatus);
    assert_eq!(*agent.current_state(), AuthState::Probing);
    agent.handle_input(AuthAgentRequest::Login(UserLogin {
        identifier: UserIdentifier::Name(String::from("u")),
        password: String::from("pw"),
        totp: None,
    }));
    assert_eq!(*agent.current_state(), AuthState::LoggingIn);
    agent.handle_input(AuthAgentRequest::Signup(UserSignup {
        name: String::from("u"),
        password: String::from("pw"),
    }));
    assert_eq!(*agent.current_state(), AuthState::LoggingIn);
    agent.handle_input(AuthAgentRequest::Logout);
    assert_eq!(*agent.current_state(), AuthState::LoggingOut);
}

#[test]
fn outcomes_resolve_the_session() {
    let mut agent = AuthAgent::new();
    agent.handle_input(AuthAgentRequest::GetAuthStatus);
    agent.update(Msg::LoggedIn(user()));
    assert_eq!(*agent.current_state(), AuthState::LoggedIn(user()));
    agent.handle_input(AuthAgentRequest::Logout);
    agent.update(Msg::LoggedOut);
    assert_eq!(*agent.current_state(), AuthState::Initial);
    agent.update(Msg::LoginError(String::from("bad credentials")));
    assert_eq!(
        *agent.current_state(),
        AuthState::Error(String::from("bad credentials"))
    );
}

#[test]
fn a_new_request_supersedes_the_one_in_flight() {
    let mut agent = AuthAgent::new();
    agent.handle_input(AuthAgentRequest::GetAuthStatus);
    agent.handle_input(AuthAgentRequest::Logout);
    assert_eq!(*agent.current_state(), AuthState::LoggingOut);
    agent.update(Msg::LoggedOut);
    assert_eq!(*agent.current_state(), AuthState::Initial);
}

#[test]
fn is_busy_marks_exactly_the_transitional_states() {
    assert!(AuthState::Probing.is_busy());
    assert!(AuthState::LoggingIn.is_busy());
    assert!(AuthState::LoggingOut.is_busy());
    assert!(!AuthState::Initial.is_busy());
    assert!(!AuthState::LoggedIn(user()).is_busy());
    assert!(!AuthState::Error(String::from("x")).is_busy());
}

#[test]
fn every_subscriber_hears_every_state_change() {
    let mut agent = AuthAgent::new();
    agent.connected(1, true);
    agent.connected(2, true);
    agent.connected(3, false);
    let sent = agent.handle_input(AuthAgentRequest::GetAuthStatus);
    assert_eq!(
        sent,
        vec![(1, AuthState::Probing), (2, AuthState::Probing)]
    );
    agent.disconnected(1);
    let sent = agent.update(Msg::LoggedIn(user()));
    assert_eq!(sent, vec![(2, AuthState::LoggedIn(user()))]);
}

#[test]
fn registering_twice_registers_once() {
    let mut agent = AuthAgent::new();
    agent.connected(1, true);
    agent.connected(1, true);
    let sent = agent.handle_input(AuthAgentRequest::GetAuthStatus);
    assert_eq!(sent.len(), 1);
}

#[test]
fn a_failed_probe_means_signed_out() {
    let mut agent = AuthAgent::new();
    agent.handle_input(AuthAgentRequest::GetAuthStatus);
    agent.update(Msg::LoginError(String::from("no session cookie")));
    assert_eq!(*agent.current_state(), AuthState::Initial);
}

#[test]
fn a_failed_login_surfaces_the_error() {
    let mut agent = AuthAgent::new();
    agent.handle_input(AuthAgentRequest::Login(UserLogin {
        identifier: UserIdentifier::Name(String::from("u")),
        password: String::from("pw"),
        totp: None,
    }));
    agent.update(Msg::LoginError(String::from("bad credentials")));
    assert_eq!(
        *agent.current_state(),
        AuthState::Error(String::from("bad credentials"))
    );
}
