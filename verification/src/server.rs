//! The serving loop as a state machine. The loop itself waits on the network
//! and on timers, which this library does not do: it is told what happened
//! and answers with what to do next.

use crate::exchange::exchanged;
use crate::lock::{LockState, LockStateRegister};
use crate::request::HEADER_END;
use crate::response::{render, response, Documents, DocumentsView};
use crate::session::{fresh, free_space, received, ConnectionSession, SessionView, REQUEST_CAPACITY};
use crate::text::occurs_in;
use crate::timing::{millis_duration, secs_duration};
use embassy_time::Duration;
use vstd::prelude::*;
use vstd::string::StringSliceAdditionalSpecFns;

verus! {

/// The port of the control endpoint.
pub const CONTROL_PORT: u16 = 443;

/// Seconds without traffic after which a stalled peer is abandoned.
pub const IDLE_TIMEOUT_SECS: u64 = 10;

/// Milliseconds between two looks at the link while it is down.
pub const LINK_POLL_MILLIS: u64 = 500;

/// The size of each of the two buffers that a serving loop gives its
/// socket. They are set up once and used for every connection.
pub const SOCKET_BUFFER_BYTES: usize = 4096;

/// Milliseconds granted to the peer before the connection is closed, and
/// again between closing it and aborting it.
pub const CLOSE_GRACE_MILLIS: u64 = 1000;

/// The library error code with which a peer turns down a self-signed
/// certificate.
pub const SELF_SIGNED_REJECTED: i32 = -30592;

/// Where the serving loop stands: what it has asked for and waits on.
#[derive(Clone, Copy, Debug, PartialEq, Eq, Structural)]
pub enum ServerPhase {
    /// Asked whether the link is up.
    AwaitingLink,
    /// The link was down; pausing before the next look.
    LinkBackoff,
    /// Asked for the listening socket to be set up.
    Preparing,
    /// Asked for one inbound connection.
    Accepting,
    /// Asked for a handshake on a fresh encrypted session.
    Handshaking,
    /// Asked for request bytes.
    Reading,
    /// Asked for the response to be written.
    Responding,
    /// The response is out; pausing before the close.
    Lingering,
    /// Asked for the socket to be closed.
    Closing,
    /// The socket is closed; pausing before the abort.
    Draining,
    /// Asked for the socket to be aborted.
    Aborting,
    /// A fatal condition was met. Nothing follows.
    Halted,
}

/// Why a handshake failed.
#[derive(Clone, Copy, Debug, PartialEq, Eq, Structural)]
pub enum HandshakeFailure {
    /// The peer presented no client certificate.
    NoClientCertificate,
    /// The cryptographic library reported this code.
    Library(i32),
    /// Anything else.
    Other,
}

/// The failures that end the connection at hand and nothing else: a missing
/// client certificate, and the peer's rejection of a self-signed
/// certificate. Every other failure is fatal.
pub open spec fn is_benign(failure: HandshakeFailure) -> bool {
    failure == HandshakeFailure::NoClientCertificate || failure == HandshakeFailure::Library(
        SELF_SIGNED_REJECTED,
    )
}

/// What happened, as told to the serving loop. `B` is the form in which
/// received bytes are carried.
#[derive(Debug, PartialEq, Eq)]
pub enum Event<B> {
    /// The link is up, or not.
    LinkStatus(bool),
    /// A pause, or a step that cannot fail, is over.
    Done,
    /// A connection was accepted.
    Accepted,
    /// No connection could be accepted.
    AcceptFailed,
    /// The handshake succeeded.
    HandshakeDone,
    /// The handshake failed.
    HandshakeFailed(HandshakeFailure),
    /// A read returned these bytes; none means that the peer has closed.
    Received(B),
    /// A read failed.
    ReadFailed,
    /// The response was written.
    Written,
    /// The response could not be written.
    WriteFailed,
}

/// What to do next. `B` is the form in which the response is carried.
#[derive(Debug, PartialEq, Eq)]
pub enum Action<B> {
    /// Ask whether the link is up.
    CheckLink,
    /// Pause for this long.
    Sleep { duration: Duration },
    /// Set up the listening socket with this idle timeout.
    OpenSocket { idle_timeout: Duration },
    /// Accept one inbound connection on this port.
    Accept { port: u16 },
    /// Build a fresh encrypted session on the accepted socket and perform
    /// the handshake.
    Handshake,
    /// Read at most this many bytes.
    Read { limit: usize },
    /// Write the whole response in one call.
    Write { response: B },
    /// Close the socket.
    Close,
    /// Abort the socket.
    Abort,
    /// Stop: the condition is fatal.
    Halt,
}

/// An event as the serving loop hands it in.
pub type ServerEvent<'a> = Event<&'a [u8]>;

/// An action as the serving loop gets it.
pub type ServerAction = Action<Vec<u8>>;

impl<'a> View for Event<&'a [u8]> {
    type V = Event<Seq<u8>>;

    open spec fn view(&self) -> Event<Seq<u8>> {
        match *self {
            Event::LinkStatus(up) => Event::LinkStatus(up),
            Event::Done => Event::Done,
            Event::Accepted => Event::Accepted,
            Event::AcceptFailed => Event::AcceptFailed,
            Event::HandshakeDone => Event::HandshakeDone,
            Event::HandshakeFailed(failure) => Event::HandshakeFailed(failure),
            Event::Received(data) => Event::Received(data@),
            Event::ReadFailed => Event::ReadFailed,
            Event::Written => Event::Written,
            Event::WriteFailed => Event::WriteFailed,
        }
    }
}

impl View for Action<Vec<u8>> {
    type V = Action<Seq<u8>>;

    open spec fn view(&self) -> Action<Seq<u8>> {
        match *self {
            Action::CheckLink => Action::CheckLink,
            Action::Sleep { duration } => Action::Sleep { duration },
            Action::OpenSocket { idle_timeout } => Action::OpenSocket { idle_timeout },
            Action::Accept { port } => Action::Accept { port },
            Action::Handshake => Action::Handshake,
            Action::Read { limit } => Action::Read { limit },
            Action::Write { response } => Action::Write { response: response@ },
            Action::Close => Action::Close,
            Action::Abort => Action::Abort,
            Action::Halt => Action::Halt,
        }
    }
}

/// What the endpoint is configured with.
#[derive(Clone, Copy, Debug)]
pub struct ServerSettings<'a> {
    /// The secret that a credential must equal.
    pub secret: &'a str,
    /// The documents served.
    pub documents: Documents<'a>,
}

/// The settings as bytes.
pub struct SettingsView {
    pub secret: Seq<u8>,
    pub documents: DocumentsView,
}

impl<'a> View for ServerSettings<'a> {
    type V = SettingsView;

    open spec fn view(&self) -> SettingsView {
        SettingsView { secret: self.secret.spec_bytes(), documents: self.documents@ }
    }
}

/// One serving loop: its phase and the session of the connection at hand.
pub struct ConnectionServer {
    phase: ServerPhase,
    session: ConnectionSession,
}

/// A serving loop as the contracts see it.
pub struct ServerView {
    pub phase: ServerPhase,
    pub session: SessionView,
}

impl View for ConnectionServer {
    type V = ServerView;

    closed spec fn view(&self) -> ServerView {
        ServerView { phase: self.phase, session: self.session@ }
    }
}

/// The outcome of one step: the loop and the lock state after it, and what
/// to do next.
pub struct Step {
    pub server: ServerView,
    pub state: LockState,
    pub action: Action<Seq<u8>>,
}

/// Moves to `phase` with `action`; the session and the lock state stay.
pub open spec fn proceed(
    session: SessionView,
    state: LockState,
    phase: ServerPhase,
    action: Action<Seq<u8>>,
) -> Step {
    Step { server: ServerView { phase, session }, state, action }
}

/// Goes back to accepting, with a session made fresh for the connection to
/// come.
pub open spec fn accept_next(state: LockState) -> Step {
    proceed(fresh(), state, ServerPhase::Accepting, Action::Accept { port: CONTROL_PORT })
}

/// Stops reading and answers: the response is rendered from the lock state
/// as it is now and from the session's error flag.
pub open spec fn respond(session: SessionView, state: LockState, settings: SettingsView) -> Step {
    proceed(
        session,
        state,
        ServerPhase::Responding,
        Action::Write { response: response(state, session.has_error, settings.documents) },
    )
}

/// Stops for good.
pub open spec fn halt(session: SessionView, state: LockState) -> Step {
    proceed(session, state, ServerPhase::Halted, Action::Halt)
}

/// One step of the serving loop.
///
/// Before the first connection the link is polled until it is up; then the
/// socket is set up. Each connection is accepted, taken through the
/// handshake, read until the header block is complete, the peer has closed,
/// the read fails or the session is full, and answered. After the answer,
/// and after a handshake failure that only ends the connection, the socket
/// is closed, left for a moment, and aborted before the next accept. A
/// failed accept is tried again at once. A handshake failure of any other
/// kind, a failed write, and an event that the phase does not wait for are
/// fatal.
pub open spec fn step(
    server: ServerView,
    event: Event<Seq<u8>>,
    state: LockState,
    settings: SettingsView,
) -> Step {
    let session = server.session;
    match (server.phase, event) {
        (ServerPhase::AwaitingLink, Event::LinkStatus(up)) => if up {
            proceed(
                session,
                state,
                ServerPhase::Preparing,
                Action::OpenSocket { idle_timeout: secs_duration(IDLE_TIMEOUT_SECS) },
            )
        } else {
            proceed(
                session,
                state,
                ServerPhase::LinkBackoff,
                Action::Sleep { duration: millis_duration(LINK_POLL_MILLIS) },
            )
        },
        (ServerPhase::LinkBackoff, Event::Done) => proceed(
            session,
            state,
            ServerPhase::AwaitingLink,
            Action::CheckLink,
        ),
        (ServerPhase::Preparing, Event::Done) => accept_next(state),
        (ServerPhase::Accepting, Event::Accepted) => proceed(
            session,
            state,
            ServerPhase::Handshaking,
            Action::Handshake,
        ),
        (ServerPhase::Accepting, Event::AcceptFailed) => proceed(
            session,
            state,
            ServerPhase::Accepting,
            Action::Accept { port: CONTROL_PORT },
        ),
        (ServerPhase::Handshaking, Event::HandshakeDone) => proceed(
            session,
            state,
            ServerPhase::Reading,
            Action::Read { limit: free_space(session) as usize },
        ),
        (ServerPhase::Handshaking, Event::HandshakeFailed(failure)) => if is_benign(failure) {
            proceed(session, state, ServerPhase::Closing, Action::Close)
        } else {
            halt(session, state)
        },
        (ServerPhase::Reading, Event::Received(data)) => if data.len() == 0 {
            respond(session, state, settings)
        } else {
            let reception = received(session, data, settings.secret, state);
            if reception.complete || free_space(reception.session) == 0 {
                respond(reception.session, reception.state, settings)
            } else {
                proceed(
                    reception.session,
                    reception.state,
                    ServerPhase::Reading,
                    Action::Read { limit: free_space(reception.session) as usize },
                )
            }
        },
        (ServerPhase::Reading, Event::ReadFailed) => respond(session, state, settings),
        (ServerPhase::Responding, Event::Written) => proceed(
            session,
            state,
            ServerPhase::Lingering,
            Action::Sleep { duration: millis_duration(CLOSE_GRACE_MILLIS) },
        ),
        (ServerPhase::Lingering, Event::Done) => proceed(
            session,
            state,
            ServerPhase::Closing,
            Action::Close,
        ),
        (ServerPhase::Closing, Event::Done) => proceed(
            session,
            state,
            ServerPhase::Draining,
            Action::Sleep { duration: millis_duration(CLOSE_GRACE_MILLIS) },
        ),
        (ServerPhase::Draining, Event::Done) => proceed(
            session,
            state,
            ServerPhase::Aborting,
            Action::Abort,
        ),
        (ServerPhase::Aborting, Event::Done) => accept_next(state),
        _ => halt(session, state),
    }
}

/// Whether a handshake failure ends only the connection at hand.
pub fn benign(failure: HandshakeFailure) -> (r: bool)
    ensures
        r == is_benign(failure),
{
    match failure {
        HandshakeFailure::NoClientCertificate => true,
        HandshakeFailure::Library(code) => code == SELF_SIGNED_REJECTED,
        HandshakeFailure::Other => false,
    }
}

impl ConnectionServer {
    /// A serving loop before its first step, and the action that starts it.
    pub fn start() -> (r: (ConnectionServer, ServerAction))
        ensures
            r.0@ == (ServerView { phase: ServerPhase::AwaitingLink, session: fresh() }),
            r.1@ == Action::<Seq<u8>>::CheckLink,
    {
        (
            ConnectionServer { phase: ServerPhase::AwaitingLink, session: ConnectionSession::new() },
            Action::CheckLink,
        )
    }

    /// Where the loop stands.
    pub fn phase(&self) -> (phase: ServerPhase)
        ensures
            phase == self@.phase,
    {
        self.phase
    }

    /// The session of the connection at hand.
    pub fn session(&self) -> (session: &ConnectionSession)
        ensures
            session@ == self@.session,
    {
        &self.session
    }

    fn proceed(&mut self, phase: ServerPhase, action: ServerAction) -> (r: ServerAction)
        ensures
            final(self)@ == (ServerView { phase, session: old(self)@.session }),
            r == action,
    {
        self.phase = phase;
        action
    }

    fn accept_next(&mut self) -> (r: ServerAction)
        ensures
            final(self)@ == (ServerView { phase: ServerPhase::Accepting, session: fresh() }),
            r@ == (Action::<Seq<u8>>::Accept { port: CONTROL_PORT }),
    {
        self.session.reset();
        self.phase = ServerPhase::Accepting;
        Action::Accept { port: CONTROL_PORT }
    }

    fn respond(&mut self, state: LockState, settings: &ServerSettings<'_>) -> (r: ServerAction)
        ensures
            final(self)@ == (ServerView {
                phase: ServerPhase::Responding,
                session: old(self)@.session,
            }),
            r@ == (Action::<Seq<u8>>::Write {
                response: response(state, old(self)@.session.has_error, settings@.documents),
            }),
    {
        self.phase = ServerPhase::Responding;
        Action::Write { response: render(state, self.session.has_error(), &settings.documents) }
    }

    /// Advances the serving loop by one event, against the lock state as it
    /// is now, and says what to do next.
    pub fn step(
        &mut self,
        event: ServerEvent<'_>,
        device_lock: &mut LockState,
        settings: &ServerSettings<'_>,
    ) -> (action: ServerAction)
        ensures
            final(self)@ == step(old(self)@, event@, *old(device_lock), settings@).server,
            *final(device_lock) == step(old(self)@, event@, *old(device_lock), settings@).state,
            action@ == step(old(self)@, event@, *old(device_lock), settings@).action,
    {
        match (self.phase, event) {
            (ServerPhase::AwaitingLink, Event::LinkStatus(up)) => {
                if up {
                    self.proceed(
                        ServerPhase::Preparing,
                        Action::OpenSocket { idle_timeout: Duration::from_secs(IDLE_TIMEOUT_SECS) },
                    )
                } else {
                    self.proceed(
                        ServerPhase::LinkBackoff,
                        Action::Sleep { duration: Duration::from_millis(LINK_POLL_MILLIS) },
                    )
                }
            },
            (ServerPhase::LinkBackoff, Event::Done) => self.proceed(
                ServerPhase::AwaitingLink,
                Action::CheckLink,
            ),
            (ServerPhase::Preparing, Event::Done) => self.accept_next(),
            (ServerPhase::Accepting, Event::Accepted) => self.proceed(
                ServerPhase::Handshaking,
                Action::Handshake,
            ),
            (ServerPhase::Accepting, Event::AcceptFailed) => self.proceed(
                ServerPhase::Accepting,
                Action::Accept { port: CONTROL_PORT },
            ),
            (ServerPhase::Handshaking, Event::HandshakeDone) => {
                let limit = self.session.free();
                self.proceed(ServerPhase::Reading, Action::Read { limit })
            },
            (ServerPhase::Handshaking, Event::HandshakeFailed(failure)) => {
                if benign(failure) {
                    self.proceed(ServerPhase::Closing, Action::Close)
                } else {
                    self.proceed(ServerPhase::Halted, Action::Halt)
                }
            },
            (ServerPhase::Reading, Event::Received(data)) => {
                if data.len() == 0 {
                    self.respond(*device_lock, settings)
                } else {
                    let complete = self.session.receive(data, device_lock, settings.secret);
                    let limit = self.session.free();
                    if complete || limit == 0 {
                        self.respond(*device_lock, settings)
                    } else {
                        self.proceed(ServerPhase::Reading, Action::Read { limit })
                    }
                }
            },
            (ServerPhase::Reading, Event::ReadFailed) => self.respond(*device_lock, settings),
            (ServerPhase::Responding, Event::Written) => self.proceed(
                ServerPhase::Lingering,
                Action::Sleep { duration: Duration::from_millis(CLOSE_GRACE_MILLIS) },
            ),
            (ServerPhase::Lingering, Event::Done) => self.proceed(
                ServerPhase::Closing,
                Action::Close,
            ),
            (ServerPhase::Closing, Event::Done) => self.proceed(
                ServerPhase::Draining,
                Action::Sleep { duration: Duration::from_millis(CLOSE_GRACE_MILLIS) },
            ),
            (ServerPhase::Draining, Event::Done) => self.proceed(
                ServerPhase::Aborting,
                Action::Abort,
            ),
            (ServerPhase::Aborting, Event::Done) => self.accept_next(),
            _ => self.proceed(ServerPhase::Halted, Action::Halt),
        }
    }
}

/// Advances the serving loop by one event against the shared register, and
/// says what to do next. The register is read once, the step is taken
/// against the state read, and the register is written only where the step
/// changed the state. Nothing is awaited in between, so under cooperative
/// scheduling the step is atomic.
///
/// The register is shared, so the contract speaks of the state that the read
/// returned, whatever it was: `ConnectionServer::step` says what is done for
/// each such state.
pub fn serve(
    server: &mut ConnectionServer,
    event: ServerEvent<'_>,
    device_lock: &LockStateRegister,
    settings: &ServerSettings<'_>,
) -> (action: ServerAction)
    ensures
        exists|before: LockState|
            {
                &&& final(server)@ == (#[trigger] step(
                    old(server)@,
                    event@,
                    before,
                    settings@,
                )).server
                &&& action@ == step(old(server)@, event@, before, settings@).action
            },
{
    let before = device_lock.load();
    let mut state = before;
    let action = server.step(event, &mut state, settings);
    if state != before {
        device_lock.store(state);
    }
    action
}

/// The session is fresh in every phase in which no request byte has been
/// read yet, never holds more than its capacity, and has room left while
/// the loop is reading.
pub open spec fn well_formed(server: ServerView) -> bool {
    &&& server.session.bytes.len() <= REQUEST_CAPACITY
    &&& server.phase == ServerPhase::Reading ==> server.session.bytes.len() < REQUEST_CAPACITY
    &&& (server.phase == ServerPhase::AwaitingLink || server.phase == ServerPhase::LinkBackoff
        || server.phase == ServerPhase::Preparing || server.phase == ServerPhase::Accepting
        || server.phase == ServerPhase::Handshaking) ==> server.session == fresh()
}

/// A connection has been accepted and its close has not been asked for yet.
pub open spec fn connection_open(phase: ServerPhase) -> bool {
    phase == ServerPhase::Handshaking || phase == ServerPhase::Reading || phase
        == ServerPhase::Responding || phase == ServerPhase::Lingering
}

/// The close has been asked for, the abort not yet.
pub open spec fn connection_closing(phase: ServerPhase) -> bool {
    phase == ServerPhase::Closing || phase == ServerPhase::Draining
}

/// The steps that the loop takes on a sequence of events.
pub open spec fn run(
    server: ServerView,
    state: LockState,
    events: Seq<Event<Seq<u8>>>,
    settings: SettingsView,
) -> Seq<Step>
    decreases events.len(),
{
    if events.len() == 0 {
        Seq::empty()
    } else {
        let first = step(server, events[0], state, settings);
        seq![first] + run(first.server, first.state, events.drop_first(), settings)
    }
}

/// Every step keeps the loop well formed. Every accept is asked for with a
/// fresh session: nothing of an earlier connection, the one-shot record of
/// the control line included, is carried into the next. Every read asks for
/// at least one byte and for no more than the session has room for.
pub proof fn lemma_step_keeps_well_formed(
    server: ServerView,
    event: Event<Seq<u8>>,
    state: LockState,
    settings: SettingsView,
)
    requires
        well_formed(server),
    ensures
        well_formed(step(server, event, state, settings).server),
        step(server, event, state, settings).action is Accept ==> step(
            server,
            event,
            state,
            settings,
        ).server == (ServerView { phase: ServerPhase::Accepting, session: fresh() }),
        step(server, event, state, settings).action matches Action::Read { limit } ==> 1 <= limit
            && limit == free_space(step(server, event, state, settings).server.session),
{
}

/// Only the dispatch of a control line changes the lock state: every step
/// outside the reading phase leaves it as it is.
pub proof fn lemma_only_reading_writes(
    server: ServerView,
    event: Event<Seq<u8>>,
    state: LockState,
    settings: SettingsView,
)
    requires
        server.phase != ServerPhase::Reading,
    ensures
        step(server, event, state, settings).state == state,
{
}

/// The loop takes one step for each event.
pub proof fn lemma_run_len(
    server: ServerView,
    state: LockState,
    events: Seq<Event<Seq<u8>>>,
    settings: SettingsView,
)
    ensures
        run(server, state, events, settings).len() == events.len(),
    decreases events.len(),
{
    if events.len() > 0 {
        let first = step(server, events[0], state, settings);
        lemma_run_len(first.server, first.state, events.drop_first(), settings);
    }
}

/// Once halted, the loop asks for nothing but to stop.
pub proof fn lemma_halted_stays(
    server: ServerView,
    state: LockState,
    events: Seq<Event<Seq<u8>>>,
    settings: SettingsView,
    j: int,
)
    requires
        server.phase == ServerPhase::Halted,
        0 <= j < events.len(),
    ensures
        run(server, state, events, settings).len() == events.len(),
        run(server, state, events, settings)[j].action == Action::<Seq<u8>>::Halt,
    decreases events.len(),
{
    let first = step(server, events[0], state, settings);
    lemma_run_len(first.server, first.state, events.drop_first(), settings);
    if j > 0 {
        lemma_halted_stays(first.server, first.state, events.drop_first(), settings, j - 1);
    }
}

/// Whatever happens on a connection, the next accept is not asked for
/// before the socket has been closed and, after that, aborted. This holds
/// on every path: after a response, after a handshake failure, after a
/// failed read.
pub proof fn lemma_teardown_before_next_accept(
    server: ServerView,
    state: LockState,
    events: Seq<Event<Seq<u8>>>,
    settings: SettingsView,
    j: int,
)
    requires
        connection_open(server.phase) || connection_closing(server.phase) || server.phase
            == ServerPhase::Aborting,
        0 <= j < events.len(),
        run(server, state, events, settings)[j].action is Accept,
    ensures
        connection_open(server.phase) ==> exists|a: int, b: int|
            0 <= a < b < j && #[trigger] run(server, state, events, settings)[a].action
                == Action::<Seq<u8>>::Close && #[trigger] run(
                server,
                state,
                events,
                settings,
            )[b].action == Action::<Seq<u8>>::Abort,
        connection_closing(server.phase) ==> exists|b: int|
            0 <= b < j && #[trigger] run(server, state, events, settings)[b].action
                == Action::<Seq<u8>>::Abort,
    decreases events.len(),
{
    let all = run(server, state, events, settings);
    let first = step(server, events[0], state, settings);
    let later = events.drop_first();
    let rest = run(first.server, first.state, later, settings);
    let next = first.server.phase;
    lemma_run_len(first.server, first.state, later, settings);
    // An accept at the first step is answered to the abort alone; otherwise
    // the claim is that of the remaining steps, moved by one.
    if j > 0 && server.phase != ServerPhase::Aborting {
        if next == ServerPhase::Halted {
            lemma_halted_stays(first.server, first.state, later, settings, j - 1);
        } else {
            lemma_teardown_before_next_accept(first.server, first.state, later, settings, j - 1);
            if connection_open(next) {
                let (a, b) = choose|a: int, b: int|
                    0 <= a < b < j - 1 && #[trigger] rest[a].action == Action::<Seq<u8>>::Close
                        && #[trigger] rest[b].action == Action::<Seq<u8>>::Abort;
                assert(all[a + 1].action == Action::<Seq<u8>>::Close);
                assert(all[b + 1].action == Action::<Seq<u8>>::Abort);
            } else if connection_closing(next) {
                // This step asked for the close, or the close was asked for before.
                let b = choose|b: int|
                    0 <= b < j - 1 && #[trigger] rest[b].action == Action::<Seq<u8>>::Abort;
                assert(all[b + 1].action == Action::<Seq<u8>>::Abort);
                assert(connection_open(server.phase) ==> all[0].action == Action::<
                    Seq<u8>,
                >::Close);
            } else {
                // This step asked for the abort.
                assert(all[0].action == Action::<Seq<u8>>::Abort);
            }
        }
    }
}

/// A request that arrives whole in the first read, header block included,
/// is answered as `exchanged` says, and leaves the lock state that
/// `exchanged` says.
pub proof fn lemma_whole_request_in_one_read(
    data: Seq<u8>,
    state: LockState,
    settings: SettingsView,
)
    requires
        0 < data.len() <= REQUEST_CAPACITY,
        occurs_in(data, HEADER_END.spec_bytes()),
    ensures
        ({
            let reading = ServerView { phase: ServerPhase::Reading, session: fresh() };
            let taken = step(reading, Event::Received(data), state, settings);
            let whole = exchanged(data, settings.secret, state, settings.documents);
            &&& taken.server.phase == ServerPhase::Responding
            &&& taken.state == whole.state
            &&& taken.action == (Action::<Seq<u8>>::Write { response: whole.response })
        }),
{
}

} // verus!
