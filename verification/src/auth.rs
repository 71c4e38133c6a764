//! Authentication of a connection: the session key, the errors, and the order
//! of the steps of the password-authenticated key exchange.
//!
//! The library decides what comes next; the cryptography and the transport
//! are carried out by the caller, who reports how each step ended.

use vstd::prelude::*;

verus! {

/// The 64-byte key that both sides derive from a successful exchange.
pub type SessionKey = [u8; 64];

/// How the protocol itself failed.
#[derive(Clone, Copy, Debug, PartialEq, Eq, Structural)]
pub enum ProtocolFailure {
    /// The password does not match the one the server was set up with.
    InvalidLogin,
    /// A message could not be read as what the protocol expects.
    Malformed,
}

/// Why an authentication ended without a session key.
#[derive(Clone, Copy, Debug, PartialEq, Eq, Structural)]
pub enum AuthenticationError {
    /// The transport failed.
    IoError,
    /// The peer did not follow the protocol, or the password was wrong.
    ProtocolError(ProtocolFailure),
    /// The cryptographic library failed in itself.
    InternalError,
}

/// Which side of the exchange this is.
#[derive(Clone, Copy, Debug, PartialEq, Eq, Structural)]
pub enum Role {
    Client,
    Server,
}

/// The three messages of the exchange.
#[derive(Clone, Copy, Debug, PartialEq, Eq, Structural)]
pub enum Message {
    /// Client to server: the credential request.
    CredentialRequest,
    /// Server to client: the credential response.
    CredentialResponse,
    /// Client to server: the credential finalization.
    CredentialFinalization,
}

/// What the caller is to do next.
#[derive(Clone, Copy, Debug, PartialEq, Eq, Structural)]
pub enum Action {
    /// Compute the message from the state of the exchange.
    Compute(Message),
    /// Write the message to the peer and flush.
    Write(Message),
    /// Read the message from the peer; its length is fixed by the cipher
    /// suite.
    Read(Message),
    /// Check the message that was read and take it into the exchange.
    Accept(Message),
    /// The session key is derived; hand it out.
    Finish,
    /// Give up with this error; the connection is torn down.
    Abort(AuthenticationError),
}

/// How the step that was asked for ended.
#[derive(Clone, Copy, Debug, PartialEq, Eq, Structural)]
pub enum Outcome {
    /// It was carried out.
    Done,
    /// It failed.
    Failed(AuthenticationError),
}

/// Where an exchange stands: the action that the caller was last asked to
/// carry out.
#[derive(Clone, Copy, Debug, PartialEq, Eq, Structural)]
pub struct Handshake {
    pub role: Role,
    pub pending: Action,
}

/// The action that follows `action` for `role` when it was carried out.
/// `Finish` and `Abort` are followed by themselves.
pub open spec fn action_after(role: Role, action: Action) -> Action {
    match role {
        Role::Client => match action {
            Action::Compute(Message::CredentialRequest) => Action::Write(Message::CredentialRequest),
            Action::Write(Message::CredentialRequest) => Action::Read(Message::CredentialResponse),
            Action::Read(Message::CredentialResponse) => Action::Accept(
                Message::CredentialResponse,
            ),
            Action::Accept(Message::CredentialResponse) => Action::Compute(
                Message::CredentialFinalization,
            ),
            Action::Compute(Message::CredentialFinalization) => Action::Write(
                Message::CredentialFinalization,
            ),
            Action::Write(Message::CredentialFinalization) => Action::Finish,
            Action::Finish => Action::Finish,
            Action::Abort(e) => Action::Abort(e),
            _ => Action::Abort(AuthenticationError::InternalError),
        },
        Role::Server => match action {
            Action::Read(Message::CredentialRequest) => Action::Accept(Message::CredentialRequest),
            Action::Accept(Message::CredentialRequest) => Action::Compute(
                Message::CredentialResponse,
            ),
            Action::Compute(Message::CredentialResponse) => Action::Write(
                Message::CredentialResponse,
            ),
            Action::Write(Message::CredentialResponse) => Action::Read(
                Message::CredentialFinalization,
            ),
            Action::Read(Message::CredentialFinalization) => Action::Accept(
                Message::CredentialFinalization,
            ),
            Action::Accept(Message::CredentialFinalization) => Action::Finish,
            Action::Finish => Action::Finish,
            Action::Abort(e) => Action::Abort(e),
            _ => Action::Abort(AuthenticationError::InternalError),
        },
    }
}

/// The first action of `role`.
pub open spec fn first_action(role: Role) -> Action {
    match role {
        Role::Client => Action::Compute(Message::CredentialRequest),
        Role::Server => Action::Read(Message::CredentialRequest),
    }
}

/// Whether an exchange has ended, in a key or in an error.
pub open spec fn is_final(action: Action) -> bool {
    action is Finish || action is Abort
}

/// The error in which the exchange of `role` ends when `action` failed with
/// `e`. It is `e`, with one exception: a server that cannot read the
/// credential finalization ends in the protocol error `InvalidLogin`,
/// whatever the transport said. A client whose password does not match
/// cannot compute the finalization and leaves; to the server, a client that
/// never finalizes is one that did not know the password.
pub open spec fn abort_of(role: Role, action: Action, e: AuthenticationError) -> AuthenticationError {
    if role == Role::Server && action == Action::Read(Message::CredentialFinalization) {
        AuthenticationError::ProtocolError(ProtocolFailure::InvalidLogin)
    } else {
        e
    }
}

/// The exchange after the pending action ended in `outcome`: a failure aborts
/// with the error that [`abort_of`] gives, unless the exchange had ended
/// already.
pub open spec fn handshake_after(h: Handshake, outcome: Outcome) -> Handshake {
    if is_final(h.pending) {
        h
    } else {
        match outcome {
            Outcome::Done => Handshake { role: h.role, pending: action_after(h.role, h.pending) },
            Outcome::Failed(e) => Handshake {
                role: h.role,
                pending: Action::Abort(abort_of(h.role, h.pending, e)),
            },
        }
    }
}

impl Handshake {
    /// An exchange at its start.
    pub fn new(role: Role) -> (h: Handshake)
        ensures
            h == (Handshake { role, pending: first_action(role) }),
    {
        let pending = match role {
            Role::Client => Action::Compute(Message::CredentialRequest),
            Role::Server => Action::Read(Message::CredentialRequest),
        };
        Handshake { role, pending }
    }

    /// What the caller is to do now.
    pub fn pending(&self) -> (action: Action)
        ensures
            action == self.pending,
    {
        self.pending
    }

    /// Whether the exchange has ended.
    pub fn is_final(&self) -> (r: bool)
        ensures
            r == is_final(self.pending),
    {
        match self.pending {
            Action::Finish => true,
            Action::Abort(_) => true,
            _ => false,
        }
    }

    /// Takes note of how the pending action ended and gives the next one.
    pub fn advance(&mut self, outcome: Outcome) -> (next: Action)
        ensures
            *final(self) == handshake_after(*old(self), outcome),
            next == final(self).pending,
    {
        if self.is_final() {
            return self.pending;
        }
        let next = match outcome {
            Outcome::Failed(e) => match (self.role, self.pending) {
                (Role::Server, Action::Read(Message::CredentialFinalization)) => Action::Abort(
                    AuthenticationError::ProtocolError(ProtocolFailure::InvalidLogin),
                ),
                _ => Action::Abort(e),
            },
            Outcome::Done => match self.role {
                Role::Client => match self.pending {
                    Action::Compute(Message::CredentialRequest) => Action::Write(
                        Message::CredentialRequest,
                    ),
                    Action::Write(Message::CredentialRequest) => Action::Read(
                        Message::CredentialResponse,
                    ),
                    Action::Read(Message::CredentialResponse) => Action::Accept(
                        Message::CredentialResponse,
                    ),
                    Action::Accept(Message::CredentialResponse) => Action::Compute(
                        Message::CredentialFinalization,
                    ),
                    Action::Compute(Message::CredentialFinalization) => Action::Write(
                        Message::CredentialFinalization,
                    ),
                    Action::Write(Message::CredentialFinalization) => Action::Finish,
                    Action::Finish => Action::Finish,
                    Action::Abort(e) => Action::Abort(e),
                    _ => Action::Abort(AuthenticationError::InternalError),
                },
                Role::Server => match self.pending {
                    Action::Read(Message::CredentialRequest) => Action::Accept(
                        Message::CredentialRequest,
                    ),
                    Action::Accept(Message::CredentialRequest) => Action::Compute(
                        Message::CredentialResponse,
                    ),
                    Action::Compute(Message::CredentialResponse) => Action::Write(
                        Message::CredentialResponse,
                    ),
                    Action::Write(Message::CredentialResponse) => Action::Read(
                        Message::CredentialFinalization,
                    ),
                    Action::Read(Message::CredentialFinalization) => Action::Accept(
                        Message::CredentialFinalization,
                    ),
                    Action::Accept(Message::CredentialFinalization) => Action::Finish,
                    Action::Finish => Action::Finish,
                    Action::Abort(e) => Action::Abort(e),
                    _ => Action::Abort(AuthenticationError::InternalError),
                },
            },
        };
        self.pending = next;
        next
    }
}

/// The exchange after each outcome of `outcomes`, first to last.
pub open spec fn handshake_run(h: Handshake, outcomes: Seq<Outcome>) -> Handshake
    decreases outcomes.len(),
{
    if outcomes.len() == 0 {
        h
    } else {
        handshake_run(handshake_after(h, outcomes[0]), outcomes.drop_first())
    }
}

/// An exchange that has ended stays as it is, whatever is reported.
pub proof fn lemma_final_is_final(h: Handshake, outcomes: Seq<Outcome>)
    requires
        is_final(h.pending),
    ensures
        handshake_run(h, outcomes) == h,
    decreases outcomes.len(),
{
    if outcomes.len() > 0 {
        lemma_final_is_final(h, outcomes.drop_first());
    }
}

/// The first failure decides: where the step `k` is the first to fail, with
/// error `e`, and fewer than six steps were carried out before it, the
/// exchange ends in the error that [`abort_of`] gives for the step that
/// failed, whatever is reported afterwards.
pub proof fn lemma_first_failure_aborts(
    role: Role,
    outcomes: Seq<Outcome>,
    k: int,
    e: AuthenticationError,
)
    requires
        0 <= k < outcomes.len(),
        k < 6,
        outcomes[k] == Outcome::Failed(e),
        forall|i: int| 0 <= i < k ==> outcomes[i] == Outcome::Done,
    ensures
        handshake_run((Handshake { role, pending: first_action(role) }), outcomes).pending
            == Action::Abort(abort_of(role, nth_action(role, k), e)),
{
    let start = Handshake { role, pending: first_action(role) };
    lemma_run_prefix_done(start, outcomes, k);
    let before = handshake_run(start, outcomes.take(k));
    lemma_done_steps(role, k);
    assert(before.pending == nth_action(role, k));
    assert(!is_final(before.pending));
    let rest = outcomes.skip(k);
    assert(rest[0] == Outcome::Failed(e));
    let aborted = handshake_after(before, rest[0]);
    lemma_final_is_final(aborted, rest.drop_first());
}

/// A wrong password ends both sides in `InvalidLogin`. The client learns of
/// it when it computes the credential finalization, its fifth step, and
/// ends in that error. The server has written its response by then and
/// waits for the finalization, its fifth step too: the read fails, with
/// whatever error `e` the transport gives, and the server ends in the
/// protocol error.
pub proof fn lemma_wrong_password(client: Seq<Outcome>, server: Seq<Outcome>, e: AuthenticationError)
    requires
        client.len() > 4,
        server.len() > 4,
        forall|i: int| 0 <= i < 4 ==> client[i] == Outcome::Done && server[i] == Outcome::Done,
        client[4] == Outcome::Failed(
            AuthenticationError::ProtocolError(ProtocolFailure::InvalidLogin),
        ),
        server[4] == Outcome::Failed(e),
    ensures
        handshake_run(
            (Handshake { role: Role::Client, pending: first_action(Role::Client) }),
            client,
        ).pending == Action::Abort(
            AuthenticationError::ProtocolError(ProtocolFailure::InvalidLogin),
        ),
        handshake_run(
            (Handshake { role: Role::Server, pending: first_action(Role::Server) }),
            server,
        ).pending == Action::Abort(
            AuthenticationError::ProtocolError(ProtocolFailure::InvalidLogin),
        ),
{
    reveal_with_fuel(nth_action, 6);
    lemma_first_failure_aborts(
        Role::Client,
        client,
        4,
        AuthenticationError::ProtocolError(ProtocolFailure::InvalidLogin),
    );
    lemma_first_failure_aborts(Role::Server, server, 4, e);
}

/// The pending action of `role` after `n` steps that were all carried out.
pub open spec fn nth_action(role: Role, n: int) -> Action
    decreases n,
{
    if n <= 0 {
        first_action(role)
    } else {
        action_after(role, nth_action(role, n - 1))
    }
}

/// After six steps that were all carried out the exchange has finished, and
/// not before.
pub proof fn lemma_done_steps(role: Role, n: int)
    requires
        0 <= n,
    ensures
        n < 6 ==> !is_final(nth_action(role, n)),
        n >= 6 ==> nth_action(role, n) == Action::Finish,
    decreases n,
{
    reveal_with_fuel(nth_action, 8);
    if n > 6 {
        lemma_done_steps(role, n - 1);
    }
}

/// Running an exchange over outcomes is running it over the first `k` and then
/// over the rest; and while no step has failed and the exchange has not
/// ended, the pending action is the `k`-th in order.
pub proof fn lemma_run_prefix_done(h: Handshake, outcomes: Seq<Outcome>, k: int)
    requires
        0 <= k <= outcomes.len(),
        forall|i: int| 0 <= i < k ==> outcomes[i] == Outcome::Done,
        h.pending == first_action(h.role),
    ensures
        handshake_run(h, outcomes) == handshake_run(
            handshake_run(h, outcomes.take(k)),
            outcomes.skip(k),
        ),
        handshake_run(h, outcomes.take(k)).role == h.role,
        k <= 6 ==> handshake_run(h, outcomes.take(k)).pending == nth_action(h.role, k),
{
    lemma_run_split(h, outcomes, k);
    lemma_run_done(h, outcomes.take(k), 0);
}

/// Running an exchange over outcomes is running it over a prefix and then over
/// the rest.
pub proof fn lemma_run_split(h: Handshake, outcomes: Seq<Outcome>, k: int)
    requires
        0 <= k <= outcomes.len(),
    ensures
        handshake_run(h, outcomes) == handshake_run(
            handshake_run(h, outcomes.take(k)),
            outcomes.skip(k),
        ),
    decreases k,
{
    if k == 0 {
        assert(outcomes.take(0) =~= Seq::<Outcome>::empty());
        assert(outcomes.skip(0) =~= outcomes);
    } else {
        let next = handshake_after(h, outcomes[0]);
        lemma_run_split(next, outcomes.drop_first(), k - 1);
        assert(outcomes.take(k).drop_first() =~= outcomes.drop_first().take(k - 1));
        assert(outcomes.skip(k) =~= outcomes.drop_first().skip(k - 1));
        assert(outcomes.take(k)[0] == outcomes[0]);
    }
}

/// An exchange that stands at the `at`-th action in order and sees only steps
/// carried out stands at the action that many further on, as long as that is
/// within the six steps.
pub proof fn lemma_run_done(h: Handshake, outcomes: Seq<Outcome>, at: int)
    requires
        0 <= at,
        h.pending == nth_action(h.role, at),
        forall|i: int| 0 <= i < outcomes.len() ==> outcomes[i] == Outcome::Done,
    ensures
        handshake_run(h, outcomes).role == h.role,
        at + outcomes.len() <= 6 ==> handshake_run(h, outcomes).pending == nth_action(
            h.role,
            at + outcomes.len(),
        ),
    decreases outcomes.len(),
{
    if outcomes.len() > 0 {
        let next = handshake_after(h, outcomes[0]);
        lemma_done_steps(h.role, at);
        if at < 6 {
            assert(next.pending == nth_action(h.role, at + 1));
            lemma_run_done(next, outcomes.drop_first(), at + 1);
        } else {
            lemma_final_is_final(h, outcomes);
        }
    }
}

} // verus!
