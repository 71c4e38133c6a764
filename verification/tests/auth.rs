use hearth::auth::{
    Action, AuthenticationError, Handshake, Message, Outcome, ProtocolFailure, Role,
};

#[test]
fn client_handshake_order() {
    let mut h = Handshake::new(Role::Client);
    assert_eq!(h.pending(), Action::Compute(Message::CredentialRequest));
    assert_eq!(h.advance(Outcome::Done), Action::Write(Message::CredentialRequest));
    assert_eq!(h.advance(Outcome::Done), Action::Read(Message::CredentialResponse));
    assert_eq!(h.advance(Outcome::Done), Action::Accept(Message::CredentialResponse));
    assert_eq!(h.advance(Outcome::Done), Action::Compute(Message::CredentialFinalization));
    assert_eq!(h.advance(Outcome::Done), Action::Write(Message::CredentialFinalization));
    assert!(!h.is_final());
    assert_eq!(h.advance(Outcome::Done), Action::Finish);
    assert!(h.is_final());
    assert_eq!(h.advance(Outcome::Done), Action::Finish);
    assert_eq!(h.advance(Outcome::Failed(AuthenticationError::IoError)), Action::Finish);
}

#[test]
fn server_handshake_order() {
    let mut h = Handshake::new(Role::Server);
    assert_eq!(h.pending(), Action::Read(Message::CredentialRequest));
    assert_eq!(h.advance(Outcome::Done), Action::Accept(Message::CredentialRequest));
    assert_eq!(h.advance(Outcome::Done), Action::Compute(Message::CredentialResponse));
    assert_eq!(h.advance(Outcome::Done), Action::Write(Message::CredentialResponse));
    assert_eq!(h.advance(Outcome::Done), Action::Read(Message::CredentialFinalization));
    assert_eq!(h.advance(Outcome::Done), Action::Accept(Message::CredentialFinalization));
    assert_eq!(h.advance(Outcome::Done), Action::Finish);
}

#[test]
fn wrong_password_ends_in_invalid_login() {
    let invalid = AuthenticationError::ProtocolError(ProtocolFailure::InvalidLogin);
    let mut client = Handshake::new(Role::Client);
    for _ in 0..4 {
        client.advance(Outcome::Done);
    }
    assert_eq!(client.pending(), Action::Compute(Message::CredentialFinalization));
    assert_eq!(client.advance(Outcome::Failed(invalid)), Action::Abort(invalid));
    assert!(client.is_final());
    assert_eq!(client.advance(Outcome::Done), Action::Abort(invalid));

    let mut server = Handshake::new(Role::Server);
    for _ in 0..4 {
        server.advance(Outcome::Done);
    }
    assert_eq!(server.pending(), Action::Read(Message::CredentialFinalization));
    // The client has left: the read fails, and the server ends in the
    // protocol error.
    assert_eq!(server.advance(Outcome::Failed(AuthenticationError::IoError)), Action::Abort(invalid));
    assert!(server.is_final());
}

#[test]
fn only_the_missing_finalization_is_a_protocol_error() {
    // A read that fails earlier ends the server in the transport's error.
    let mut server = Handshake::new(Role::Server);
    assert_eq!(
        server.advance(Outcome::Failed(AuthenticationError::IoError)),
        Action::Abort(AuthenticationError::IoError)
    );
    // And so does a read that fails on the client's side.
    let mut client = Handshake::new(Role::Client);
    client.advance(Outcome::Done);
    client.advance(Outcome::Done);
    assert_eq!(client.pending(), Action::Read(Message::CredentialResponse));
    assert_eq!(
        client.advance(Outcome::Failed(AuthenticationError::IoError)),
        Action::Abort(AuthenticationError::IoError)
    );
}

#[test]
fn first_failure_decides() {
    let mut h = Handshake::new(Role::Server);
    let malformed = AuthenticationError::ProtocolError(ProtocolFailure::Malformed);
    h.advance(Outcome::Done);
    assert_eq!(h.advance(Outcome::Failed(malformed)), Action::Abort(malformed));
    assert_eq!(
        h.advance(Outcome::Failed(AuthenticationError::InternalError)),
        Action::Abort(malformed)
    );
}
