use std::collections::VecDeque;

use chacha20::cipher::Unsigned;
use hearth::auth::{
    Action, AuthenticationError, Handshake, Message, Outcome, ProtocolFailure, Role, SessionKey,
};
use hearth::encryption::{Decryptor, Encryptor, Key};
use opaque_ke::errors::ProtocolError;
use opaque_ke::{
    key_exchange, CipherSuite, ClientLogin, ClientLoginFinishParameters, ClientRegistration,
    ClientRegistrationFinishParameters, CredentialFinalization, CredentialFinalizationLen,
    CredentialRequest, CredentialRequestLen, CredentialResponse, CredentialResponseLen,
    Ristretto255, ServerLogin, ServerLoginStartParameters, ServerRegistration, ServerSetup,
};
use rand::rngs::OsRng;

struct Suite;

impl CipherSuite for Suite {
    type OprfCs = Ristretto255;
    type KeGroup = Ristretto255;
    type KeyExchange = key_exchange::tripledh::TripleDh;
    type Ksf = argon2::Argon2<'static>;
}

fn failure_of(err: ProtocolError) -> AuthenticationError {
    match err {
        ProtocolError::InvalidLoginError => {
            AuthenticationError::ProtocolError(ProtocolFailure::InvalidLogin)
        }
        _ => AuthenticationError::ProtocolError(ProtocolFailure::Malformed),
    }
}

fn outcome_of(step: Result<(), ProtocolError>) -> Outcome {
    match step {
        Ok(()) => Outcome::Done,
        Err(err) => Outcome::Failed(failure_of(err)),
    }
}

fn take(pipe: &mut VecDeque<u8>, len: usize) -> Option<Vec<u8>> {
    if pipe.len() < len {
        None
    } else {
        Some(pipe.drain(..len).collect())
    }
}

struct Server {
    setup: ServerSetup<Suite>,
    registration: ServerRegistration<Suite>,
    handshake: Handshake,
    incoming: Vec<u8>,
    outgoing: Vec<u8>,
    state: Option<ServerLogin<Suite>>,
    key: Option<SessionKey>,
}

impl Server {
    fn from_password(pw: &[u8]) -> Server {
        let mut rng = OsRng;
        let client_start = ClientRegistration::<Suite>::start(&mut rng, pw).unwrap();
        let setup = ServerSetup::<Suite>::new(&mut rng);
        let server_start =
            ServerRegistration::<Suite>::start(&setup, client_start.message, b"").unwrap();
        let client_finish = client_start
            .state
            .finish(&mut rng, pw, server_start.message, ClientRegistrationFinishParameters::default())
            .unwrap();
        let registration = ServerRegistration::finish(client_finish.message);
        Server {
            setup,
            registration,
            handshake: Handshake::new(Role::Server),
            incoming: Vec::new(),
            outgoing: Vec::new(),
            state: None,
            key: None,
        }
    }

    /// Runs until the exchange ends or the server has to wait for bytes.
    fn run(&mut self, from_client: &mut VecDeque<u8>, to_client: &mut VecDeque<u8>) {
        loop {
            let outcome = match self.handshake.pending() {
                Action::Read(message) => {
                    let len = match message {
                        Message::CredentialRequest => CredentialRequestLen::<Suite>::to_usize(),
                        _ => CredentialFinalizationLen::<Suite>::to_usize(),
                    };
                    match take(from_client, len) {
                        Some(bytes) => {
                            self.incoming = bytes;
                            Outcome::Done
                        }
                        None => return,
                    }
                }
                Action::Accept(Message::CredentialRequest) => Outcome::Done,
                Action::Compute(_) => outcome_of(
                    CredentialRequest::<Suite>::deserialize(&self.incoming).and_then(|request| {
                        let started = ServerLogin::start(
                            &mut OsRng,
                            &self.setup,
                            Some(self.registration.clone()),
                            request,
                            b"",
                            ServerLoginStartParameters::default(),
                        )?;
                        self.outgoing = started.message.serialize().to_vec();
                        self.state = Some(started.state);
                        Ok(())
                    }),
                ),
                Action::Write(_) => {
                    to_client.extend(self.outgoing.drain(..));
                    Outcome::Done
                }
                Action::Accept(_) => outcome_of(
                    CredentialFinalization::<Suite>::deserialize(&self.incoming).and_then(
                        |message| {
                            let finished = self.state.take().unwrap().finish(message)?;
                            self.key = Some(finished.session_key.into());
                            Ok(())
                        },
                    ),
                ),
                Action::Finish | Action::Abort(_) => return,
            };
            self.handshake.advance(outcome);
        }
    }
}

struct Client {
    password: Vec<u8>,
    handshake: Handshake,
    incoming: Vec<u8>,
    outgoing: Vec<u8>,
    state: Option<ClientLogin<Suite>>,
    response: Option<CredentialResponse<Suite>>,
    key: Option<SessionKey>,
}

impl Client {
    fn new(pw: &[u8]) -> Client {
        Client {
            password: pw.to_vec(),
            handshake: Handshake::new(Role::Client),
            incoming: Vec::new(),
            outgoing: Vec::new(),
            state: None,
            response: None,
            key: None,
        }
    }

    /// Runs until the exchange ends or the client has to wait for bytes.
    fn run(&mut self, from_server: &mut VecDeque<u8>, to_server: &mut VecDeque<u8>) {
        loop {
            let outcome = match self.handshake.pending() {
                Action::Compute(Message::CredentialRequest) => outcome_of(
                    ClientLogin::<Suite>::start(&mut OsRng, &self.password).map(|started| {
                        self.outgoing = started.message.serialize().to_vec();
                        self.state = Some(started.state);
                    }),
                ),
                Action::Write(_) => {
                    to_server.extend(self.outgoing.drain(..));
                    Outcome::Done
                }
                Action::Read(_) => {
                    match take(from_server, CredentialResponseLen::<Suite>::to_usize()) {
                        Some(bytes) => {
                            self.incoming = bytes;
                            Outcome::Done
                        }
                        None => return,
                    }
                }
                Action::Accept(_) => outcome_of(
                    CredentialResponse::<Suite>::deserialize(&self.incoming)
                        .map(|response| self.response = Some(response)),
                ),
                Action::Compute(_) => outcome_of(
                    self.state
                        .take()
                        .unwrap()
                        .finish(
                            &self.password,
                            self.response.take().unwrap(),
                            ClientLoginFinishParameters::default(),
                        )
                        .map(|finished| {
                            self.outgoing = finished.message.serialize().to_vec();
                            self.key = Some(finished.session_key.into());
                        }),
                ),
                Action::Finish | Action::Abort(_) => return,
            };
            self.handshake.advance(outcome);
        }
    }
}

/// Runs both sides over two in-memory pipes until neither can go on.
fn exchange(server: &mut Server, client: &mut Client) {
    let mut up = VecDeque::new();
    let mut down = VecDeque::new();
    for _ in 0..4 {
        client.run(&mut down, &mut up);
        server.run(&mut up, &mut down);
    }
}

#[test]
fn authenticator_from_password() {
    let _auth = Server::from_password(b"deadbeef");
}

#[test]
fn authenticate_correct() {
    let password = b"deadbeef";
    let mut server = Server::from_password(password);
    let mut client = Client::new(password);
    exchange(&mut server, &mut client);
    assert_eq!(client.handshake.pending(), Action::Finish);
    assert_eq!(server.handshake.pending(), Action::Finish);
    let server_key = server.key.unwrap();
    let client_key = client.key.unwrap();
    assert_eq!(server_key, client_key);
    assert_eq!(server_key.len(), 64);

    // Each side's sending key is the other side's receiving key.
    let mut client_tx = Encryptor::new(&Key::from_client_session(&client_key));
    let mut server_rx = Decryptor::new(&Key::from_client_session(&server_key));
    let mut server_tx = Encryptor::new(&Key::from_server_session(&server_key));
    let mut client_rx = Decryptor::new(&Key::from_server_session(&client_key));
    let up = client_tx.write(b"hello server").unwrap();
    let down = server_tx.write(b"hello client").unwrap();
    assert_eq!(server_rx.read(&up).unwrap(), b"hello server");
    assert_eq!(client_rx.read(&down).unwrap(), b"hello client");
}

#[test]
fn authenticate_incorrect() {
    let password = b"deadbeef";
    let wrong_password = b"bingus_love";
    let mut server = Server::from_password(password);
    let mut client = Client::new(wrong_password);
    exchange(&mut server, &mut client);
    let invalid = AuthenticationError::ProtocolError(ProtocolFailure::InvalidLogin);
    assert_eq!(client.handshake.pending(), Action::Abort(invalid));
    assert!(client.key.is_none());
    assert!(server.key.is_none());
    assert!(!server.handshake.is_final());
    // The server's read fails once the client has hung up, and the server
    // ends in the protocol error.
    server.handshake.advance(Outcome::Failed(AuthenticationError::IoError));
    assert_eq!(server.handshake.pending(), Action::Abort(invalid));
}
