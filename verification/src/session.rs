//! Connection lifecycles: the server's handshake with one connecting client,
//! the client's session with the server, how module-stream frames are told
//! apart, and what network commands do.  The sockets, codecs and tasks live
//! with the caller; these machines decide what happens next.
use vstd::prelude::*;

use crate::network::ClientId;

verus! {

/// Control messages the server sends on a client's control stream.
#[derive(Debug, Clone, Copy, PartialEq, Eq, Structural)]
pub enum ServerMessage {
    /// Assigns the client its id and says how many module streams it will
    /// receive.
    Welcome { client_id: ClientId, expected_streams: u8 },
    /// Every module stream has sent its initial burst.
    InitialStateDone,
    /// The server is going away.
    Shutdown,
}

/// A control message the game asks the server task to send: to one client,
/// or to every connected client.
#[derive(Debug, Clone, PartialEq, Eq)]
pub enum ServerCommand {
    SendTo { client: ClientId, message: ServerMessage },
    Broadcast { message: ServerMessage },
}

/// What came of reading the first frame of a client's control stream.
#[derive(Debug, Clone, PartialEq, Eq)]
pub enum ControlFrame {
    /// A `Hello` carrying the client's display name.
    Hello { name: String },
    /// A well-formed message that is not `Hello`.
    Other,
    /// Bytes that do not decode as a client message.
    Undecodable,
    /// The stream failed.
    StreamError,
    /// The stream ended before any frame.
    Ended,
}

/// Where the server's handshake with one connection stands.
#[derive(Debug, Clone, PartialEq, Eq)]
pub enum ConnPhase {
    /// Opening the server-to-client module streams; `opened` are done.
    OpeningStreams { opened: usize },
    /// Waiting for the client to open its control stream.
    AwaitingControl,
    /// Waiting for the client's `Hello`.
    AwaitingHello,
    /// Sending `Welcome` to the client called `name`.
    SendingWelcome { name: String },
    /// Sending `InitialStateDone` to the client called `name`.
    SendingDone { name: String },
    /// Exchanging messages.
    Live,
    /// Over.
    Finished,
}

/// Something that happened on a connection.
#[derive(Debug, Clone, PartialEq, Eq)]
pub enum ConnEvent {
    /// The module stream being opened is open and carries its tag byte.
    StreamOpened,
    /// Opening the module stream, or writing its tag byte, failed.
    StreamFailed,
    /// The client opened its control stream.
    ControlAccepted,
    /// Accepting the control stream failed.
    ControlFailed,
    /// The first control frame was read.
    Frame(ControlFrame),
    /// The message being sent went out.
    Sent,
    /// The message being sent could not be encoded or sent.
    SendFailed,
    /// The server is shutting down.
    Shutdown,
    /// The connection closed.
    ConnectionClosed,
    /// A reader or writer task of the live connection ended.
    TaskEnded,
}

/// Why the server closes a connection.
#[derive(Debug, Clone, Copy, PartialEq, Eq, Structural)]
pub enum CloseReason {
    /// "server shutdown"
    ServerShutdown,
    /// "protocol violation: expected Hello"
    ExpectedHello,
}

/// What the server does for a connection.
#[derive(Debug, Clone, PartialEq, Eq)]
pub enum ConnAction {
    /// Open the module stream with this tag and write the tag byte.
    OpenStream { tag: u8 },
    /// Accept the client's control stream.
    AcceptControl,
    /// Read the first control frame.
    ReadHello,
    /// Send a control message.
    Send(ServerMessage),
    /// Close the connection.
    Close(CloseReason),
    /// Stop this client's module-stream writers and forget their channels.
    CleanupWriters,
    /// Register the control channel, announce the client `name` and pass its
    /// `Hello` on to the game.
    GoLive { name: String },
    /// Tear the live connection down and announce the disconnection.
    Disconnected,
}

/// A phase and the actions that lead into it.
pub struct ConnStep {
    pub next: ConnPhase,
    pub actions: Vec<ConnAction>,
}

/// How a connection starts, given the tags of the server-to-client module
/// streams in registration order.
pub open spec fn conn_start(tags: Seq<u8>) -> (ConnPhase, Seq<ConnAction>) {
    if tags.len() == 0 {
        (ConnPhase::AwaitingControl, seq![ConnAction::AcceptControl])
    } else {
        (ConnPhase::OpeningStreams { opened: 0 }, seq![ConnAction::OpenStream { tag: tags[0] }])
    }
}

/// How a connection moves on `ev`.
pub open spec fn conn_step(
    phase: ConnPhase,
    ev: ConnEvent,
    tags: Seq<u8>,
    client_id: ClientId,
    expected: u8,
) -> (ConnPhase, Seq<ConnAction>) {
    match phase {
        ConnPhase::OpeningStreams { opened } => match ev {
            ConnEvent::StreamOpened => if opened + 1 < tags.len() {
                (
                    ConnPhase::OpeningStreams { opened: (opened + 1) as usize },
                    seq![ConnAction::OpenStream { tag: tags[opened + 1] }],
                )
            } else {
                (ConnPhase::AwaitingControl, seq![ConnAction::AcceptControl])
            },
            ConnEvent::StreamFailed => (ConnPhase::Finished, seq![ConnAction::CleanupWriters]),
            ConnEvent::Shutdown => (
                ConnPhase::Finished,
                seq![ConnAction::Close(CloseReason::ServerShutdown)],
            ),
            ConnEvent::ConnectionClosed => (ConnPhase::Finished, Seq::empty()),
            _ => (phase, Seq::empty()),
        },
        ConnPhase::AwaitingControl => match ev {
            ConnEvent::ControlAccepted => (ConnPhase::AwaitingHello, seq![ConnAction::ReadHello]),
            ConnEvent::ControlFailed => (ConnPhase::Finished, seq![ConnAction::CleanupWriters]),
            ConnEvent::Shutdown => (
                ConnPhase::Finished,
                seq![ConnAction::Close(CloseReason::ServerShutdown), ConnAction::CleanupWriters],
            ),
            ConnEvent::ConnectionClosed => (ConnPhase::Finished, seq![ConnAction::CleanupWriters]),
            _ => (phase, Seq::empty()),
        },
        ConnPhase::AwaitingHello => match ev {
            ConnEvent::Frame(ControlFrame::Hello { name }) => (
                ConnPhase::SendingWelcome { name },
                seq![
                    ConnAction::Send(
                        ServerMessage::Welcome { client_id, expected_streams: expected },
                    ),
                ],
            ),
            ConnEvent::Frame(ControlFrame::Other) => (
                ConnPhase::Finished,
                seq![ConnAction::Close(CloseReason::ExpectedHello), ConnAction::CleanupWriters],
            ),
            ConnEvent::Frame(_) => (ConnPhase::Finished, seq![ConnAction::CleanupWriters]),
            ConnEvent::Shutdown => (
                ConnPhase::Finished,
                seq![ConnAction::Close(CloseReason::ServerShutdown), ConnAction::CleanupWriters],
            ),
            ConnEvent::ConnectionClosed => (ConnPhase::Finished, seq![ConnAction::CleanupWriters]),
            _ => (phase, Seq::empty()),
        },
        ConnPhase::SendingWelcome { name } => match ev {
            ConnEvent::Sent => (
                ConnPhase::SendingDone { name },
                seq![ConnAction::Send(ServerMessage::InitialStateDone)],
            ),
            ConnEvent::SendFailed => (ConnPhase::Finished, seq![ConnAction::CleanupWriters]),
            _ => (phase, Seq::empty()),
        },
        ConnPhase::SendingDone { name } => match ev {
            ConnEvent::Sent => (ConnPhase::Live, seq![ConnAction::GoLive { name }]),
            ConnEvent::SendFailed => (ConnPhase::Finished, seq![ConnAction::CleanupWriters]),
            _ => (phase, Seq::empty()),
        },
        ConnPhase::Live => match ev {
            ConnEvent::TaskEnded | ConnEvent::ConnectionClosed | ConnEvent::Shutdown => (
                ConnPhase::Finished,
                seq![ConnAction::Disconnected],
            ),
            _ => (phase, Seq::empty()),
        },
        ConnPhase::Finished => (phase, Seq::empty()),
    }
}

/// The first phase of a new connection and the action that starts it.
pub fn conn_start_step(tags: &Vec<u8>) -> (r: ConnStep)
    ensures
        (r.next, r.actions@) == conn_start(tags@),
{
    if tags.len() == 0 {
        ConnStep { next: ConnPhase::AwaitingControl, actions: vec![ConnAction::AcceptControl] }
    } else {
        let r = ConnStep {
            next: ConnPhase::OpeningStreams { opened: 0 },
            actions: vec![ConnAction::OpenStream { tag: tags[0] }],
        };
        assert(r.actions@ =~= seq![ConnAction::OpenStream { tag: tags@[0] }]);
        r
    }
}

/// The next phase of a connection after `ev`, and what to do on the way:
/// module streams are opened one by one, then the control stream is
/// accepted, the client's `Hello` is read and answered with `Welcome` and
/// `InitialStateDone` before the connection goes live.  Every failure after
/// the module streams were set up cleans their writers up; a message other
/// than `Hello` closes the connection as a protocol violation.
pub fn conn_advance(
    phase: &ConnPhase,
    ev: ConnEvent,
    tags: &Vec<u8>,
    client_id: ClientId,
    expected: u8,
) -> (r: ConnStep)
    ensures
        (r.next, r.actions@) == conn_step(*phase, ev, tags@, client_id, expected),
{
    let none: Vec<ConnAction> = Vec::new();
    let r = match phase {
        ConnPhase::OpeningStreams { opened } => match ev {
            ConnEvent::StreamOpened => {
                if *opened < tags.len() && *opened + 1 < tags.len() {
                    let n = *opened + 1;
                    ConnStep {
                        next: ConnPhase::OpeningStreams { opened: n },
                        actions: vec![ConnAction::OpenStream { tag: tags[n] }],
                    }
                } else {
                    ConnStep {
                        next: ConnPhase::AwaitingControl,
                        actions: vec![ConnAction::AcceptControl],
                    }
                }
            },
            ConnEvent::StreamFailed => ConnStep {
                next: ConnPhase::Finished,
                actions: vec![ConnAction::CleanupWriters],
            },
            ConnEvent::Shutdown => ConnStep {
                next: ConnPhase::Finished,
                actions: vec![ConnAction::Close(CloseReason::ServerShutdown)],
            },
            ConnEvent::ConnectionClosed => ConnStep { next: ConnPhase::Finished, actions: none },
            _ => ConnStep { next: ConnPhase::OpeningStreams { opened: *opened }, actions: none },
        },
        ConnPhase::AwaitingControl => match ev {
            ConnEvent::ControlAccepted => ConnStep {
                next: ConnPhase::AwaitingHello,
                actions: vec![ConnAction::ReadHello],
            },
            ConnEvent::ControlFailed => ConnStep {
                next: ConnPhase::Finished,
                actions: vec![ConnAction::CleanupWriters],
            },
            ConnEvent::Shutdown => ConnStep {
                next: ConnPhase::Finished,
                actions: vec![
                    ConnAction::Close(CloseReason::ServerShutdown),
                    ConnAction::CleanupWriters,
                ],
            },
            ConnEvent::ConnectionClosed => ConnStep {
                next: ConnPhase::Finished,
                actions: vec![ConnAction::CleanupWriters],
            },
            _ => ConnStep { next: ConnPhase::AwaitingControl, actions: none },
        },
        ConnPhase::AwaitingHello => match ev {
            ConnEvent::Frame(ControlFrame::Hello { name }) => ConnStep {
                next: ConnPhase::SendingWelcome { name },
                actions: vec![
                    ConnAction::Send(
                        ServerMessage::Welcome { client_id, expected_streams: expected },
                    ),
                ],
            },
            ConnEvent::Frame(ControlFrame::Other) => ConnStep {
                next: ConnPhase::Finished,
                actions: vec![
                    ConnAction::Close(CloseReason::ExpectedHello),
                    ConnAction::CleanupWriters,
                ],
            },
            ConnEvent::Frame(_) => ConnStep {
                next: ConnPhase::Finished,
                actions: vec![ConnAction::CleanupWriters],
            },
            ConnEvent::Shutdown => ConnStep {
                next: ConnPhase::Finished,
                actions: vec![
                    ConnAction::Close(CloseReason::ServerShutdown),
                    ConnAction::CleanupWriters,
                ],
            },
            ConnEvent::ConnectionClosed => ConnStep {
                next: ConnPhase::Finished,
                actions: vec![ConnAction::CleanupWriters],
            },
            _ => ConnStep { next: ConnPhase::AwaitingHello, actions: none },
        },
        ConnPhase::SendingWelcome { name } => match ev {
            ConnEvent::Sent => ConnStep {
                next: ConnPhase::SendingDone { name: name.clone() },
                actions: vec![ConnAction::Send(ServerMessage::InitialStateDone)],
            },
            ConnEvent::SendFailed => ConnStep {
                next: ConnPhase::Finished,
                actions: vec![ConnAction::CleanupWriters],
            },
            _ => ConnStep { next: ConnPhase::SendingWelcome { name: name.clone() }, actions: none },
        },
        ConnPhase::SendingDone { name } => match ev {
            ConnEvent::Sent => ConnStep {
                next: ConnPhase::Live,
                actions: vec![ConnAction::GoLive { name: name.clone() }],
            },
            ConnEvent::SendFailed => ConnStep {
                next: ConnPhase::Finished,
                actions: vec![ConnAction::CleanupWriters],
            },
            _ => ConnStep { next: ConnPhase::SendingDone { name: name.clone() }, actions: none },
        },
        ConnPhase::Live => match ev {
            ConnEvent::TaskEnded | ConnEvent::ConnectionClosed | ConnEvent::Shutdown => ConnStep {
                next: ConnPhase::Finished,
                actions: vec![ConnAction::Disconnected],
            },
            _ => ConnStep { next: ConnPhase::Live, actions: none },
        },
        ConnPhase::Finished => ConnStep { next: ConnPhase::Finished, actions: none },
    };
    assert(r.actions@ =~= conn_step(*phase, ev, tags@, client_id, expected).1);
    r
}

/// Where the client's session with the server stands once the connection
/// is up.
#[derive(Debug, Clone, Copy, PartialEq, Eq, Structural)]
pub enum SessionPhase {
    /// Opening the control stream.
    OpeningControl,
    /// Sending `Hello`.
    SendingHello,
    /// Exchanging messages.
    Live,
    /// Over.
    Finished,
}

/// Something that happened to the client's session.
#[derive(Debug, Clone, PartialEq, Eq)]
pub enum SessionEvent {
    ControlOpened,
    ControlOpenFailed { error: String },
    HelloSent,
    HelloSendFailed { error: String },
    HelloEncodeFailed,
    /// The game asked to disconnect.
    Cancelled,
    /// The server closed the connection.
    ConnectionClosed,
    /// The control-stream reader ended.
    ReadEnded,
    /// The control-stream writer ended.
    WriteEnded,
}

/// What the client does for its session.
#[derive(Debug, Clone, PartialEq, Eq)]
pub enum SessionAction {
    /// Send `Hello` with the player's display name.
    SendHello { name: String },
    /// Start the control-stream reader and writer and the module-stream
    /// acceptor.
    StartLoops,
    /// Close the connection ("disconnect requested").
    CloseConnection,
    /// Stop every session task and wait for it.
    StopTasks,
    /// Report the end of the session.
    Disconnected { reason: String },
}

/// A session phase and the actions that lead into it.
pub struct SessionStep {
    pub next: SessionPhase,
    pub actions: Vec<SessionAction>,
}

/// A session action as seen by a specification: texts by their characters.
pub enum SessionActionView {
    SendHello(Seq<char>),
    StartLoops,
    CloseConnection,
    StopTasks,
    Disconnected(Seq<char>),
}

/// How the session moves on `ev`; `name` is the player's display name.
pub open spec fn session_step(phase: SessionPhase, ev: SessionEvent, name: Seq<char>) -> (
    SessionPhase,
    Seq<SessionActionView>,
) {
    match phase {
        SessionPhase::OpeningControl => match ev {
            SessionEvent::ControlOpened => (
                SessionPhase::SendingHello,
                seq![SessionActionView::SendHello(name)],
            ),
            SessionEvent::ControlOpenFailed { error } => (
                SessionPhase::Finished,
                seq![SessionActionView::Disconnected("Failed to open stream: "@ + error@)],
            ),
            SessionEvent::Cancelled => (
                SessionPhase::Finished,
                seq![
                    SessionActionView::CloseConnection,
                    SessionActionView::Disconnected("Disconnect requested"@),
                ],
            ),
            SessionEvent::ConnectionClosed => (
                SessionPhase::Finished,
                seq![SessionActionView::Disconnected("Connection closed by remote"@)],
            ),
            _ => (phase, Seq::empty()),
        },
        SessionPhase::SendingHello => match ev {
            SessionEvent::HelloSent => (SessionPhase::Live, seq![SessionActionView::StartLoops]),
            SessionEvent::HelloSendFailed { error } => (
                SessionPhase::Finished,
                seq![SessionActionView::Disconnected("Failed to send client hello: "@ + error@)],
            ),
            SessionEvent::HelloEncodeFailed => (
                SessionPhase::Finished,
                seq![SessionActionView::Disconnected("Failed to encode client hello"@)],
            ),
            _ => (phase, Seq::empty()),
        },
        SessionPhase::Live => match ev {
            SessionEvent::Cancelled => (
                SessionPhase::Finished,
                seq![
                    SessionActionView::CloseConnection,
                    SessionActionView::StopTasks,
                    SessionActionView::Disconnected("Disconnect requested"@),
                ],
            ),
            SessionEvent::ReadEnded => (
                SessionPhase::Finished,
                seq![
                    SessionActionView::StopTasks,
                    SessionActionView::Disconnected("Read stream closed"@),
                ],
            ),
            SessionEvent::WriteEnded => (
                SessionPhase::Finished,
                seq![
                    SessionActionView::StopTasks,
                    SessionActionView::Disconnected("Write stream closed"@),
                ],
            ),
            SessionEvent::ConnectionClosed => (
                SessionPhase::Finished,
                seq![
                    SessionActionView::StopTasks,
                    SessionActionView::Disconnected("Connection closed by remote"@),
                ],
            ),
            _ => (phase, Seq::empty()),
        },
        SessionPhase::Finished => (phase, Seq::empty()),
    }
}

impl View for SessionAction {
    type V = SessionActionView;

    open spec fn view(&self) -> SessionActionView {
        match self {
            SessionAction::SendHello { name } => SessionActionView::SendHello(name@),
            SessionAction::StartLoops => SessionActionView::StartLoops,
            SessionAction::CloseConnection => SessionActionView::CloseConnection,
            SessionAction::StopTasks => SessionActionView::StopTasks,
            SessionAction::Disconnected { reason } => SessionActionView::Disconnected(reason@),
        }
    }
}

/// Every action by its view.
pub open spec fn actions_view(acts: Seq<SessionAction>) -> Seq<SessionActionView> {
    acts.map_values(|a: SessionAction| a@)
}

/// A `Disconnected` action with the given reason.
fn disconnected(reason: String) -> (r: SessionAction)
    ensures
        r@ == SessionActionView::Disconnected(reason@),
{
    SessionAction::Disconnected { reason }
}

/// The next phase of the client's session after `ev`, and what to do on
/// the way: once the control stream is open the client sends `Hello` with
/// its name and starts its loops; every way the session ends reports
/// `Disconnected` with the reason, last.
pub fn session_advance(phase: SessionPhase, ev: SessionEvent, name: &str) -> (r: SessionStep)
    ensures
        (r.next, actions_view(r.actions@)) == session_step(phase, ev, name@),
{
    let none: Vec<SessionAction> = Vec::new();
    let r = match phase {
        SessionPhase::OpeningControl => match ev {
            SessionEvent::ControlOpened => SessionStep {
                next: SessionPhase::SendingHello,
                actions: vec![SessionAction::SendHello { name: String::from_str(name) }],
            },
            SessionEvent::ControlOpenFailed { error } => {
                let mut reason = String::from_str("Failed to open stream: ");
                reason.append(error.as_str());
                SessionStep { next: SessionPhase::Finished, actions: vec![disconnected(reason)] }
            },
            SessionEvent::Cancelled => SessionStep {
                next: SessionPhase::Finished,
                actions: vec![
                    SessionAction::CloseConnection,
                    disconnected(String::from_str("Disconnect requested")),
                ],
            },
            SessionEvent::ConnectionClosed => SessionStep {
                next: SessionPhase::Finished,
                actions: vec![disconnected(String::from_str("Connection closed by remote"))],
            },
            _ => SessionStep { next: phase, actions: none },
        },
        SessionPhase::SendingHello => match ev {
            SessionEvent::HelloSent => SessionStep {
                next: SessionPhase::Live,
                actions: vec![SessionAction::StartLoops],
            },
            SessionEvent::HelloSendFailed { error } => {
                let mut reason = String::from_str("Failed to send client hello: ");
                reason.append(error.as_str());
                SessionStep { next: SessionPhase::Finished, actions: vec![disconnected(reason)] }
            },
            SessionEvent::HelloEncodeFailed => SessionStep {
                next: SessionPhase::Finished,
                actions: vec![disconnected(String::from_str("Failed to encode client hello"))],
            },
            _ => SessionStep { next: phase, actions: none },
        },
        SessionPhase::Live => match ev {
            SessionEvent::Cancelled => SessionStep {
                next: SessionPhase::Finished,
                actions: vec![
                    SessionAction::CloseConnection,
                    SessionAction::StopTasks,
                    disconnected(String::from_str("Disconnect requested")),
                ],
            },
            SessionEvent::ReadEnded => SessionStep {
                next: SessionPhase::Finished,
                actions: vec![
                    SessionAction::StopTasks,
                    disconnected(String::from_str("Read stream closed")),
                ],
            },
            SessionEvent::WriteEnded => SessionStep {
                next: SessionPhase::Finished,
                actions: vec![
                    SessionAction::StopTasks,
                    disconnected(String::from_str("Write stream closed")),
                ],
            },
            SessionEvent::ConnectionClosed => SessionStep {
                next: SessionPhase::Finished,
                actions: vec![
                    SessionAction::StopTasks,
                    disconnected(String::from_str("Connection closed by remote")),
                ],
            },
            _ => SessionStep { next: phase, actions: none },
        },
        SessionPhase::Finished => SessionStep { next: phase, actions: none },
    };
    assert(actions_view(r.actions@) =~= session_step(phase, ev, name@).1);
    r
}

/// What a module-stream frame means to the client.
#[derive(Debug, Clone, Copy, PartialEq, Eq, Structural)]
pub enum StreamFrameKind {
    /// The stream's initial burst is complete.
    Ready { tag: u8 },
    /// Data for the module that owns the stream.
    Data { tag: u8 },
}

/// The tag of an accepted server-to-client stream, or `None` for the
/// reserved control tag 0, which is ignored.
pub fn accept_stream_tag(tag: u8) -> (r: Option<u8>)
    ensures
        r == if tag == 0 {
            None::<u8>
        } else {
            Some(tag)
        },
{
    if tag == 0 {
        None
    } else {
        Some(tag)
    }
}

/// A frame on stream `tag` is the ready sentinel exactly when its bytes are
/// the sentinel's encoding; anything else is data.
pub fn classify_stream_frame(tag: u8, frame: &[u8], ready: &[u8]) -> (r: StreamFrameKind)
    ensures
        r == if frame@ == ready@ {
            StreamFrameKind::Ready { tag }
        } else {
            StreamFrameKind::Data { tag }
        },
{
    if frame.len() != ready.len() {
        return StreamFrameKind::Data { tag };
    }
    let mut i: usize = 0;
    while i < frame.len()
        invariant
            frame@.len() == ready@.len(),
            i <= frame@.len(),
            forall|j: int| 0 <= j < i ==> frame@[j] == ready@[j],
        decreases frame@.len() - i,
    {
        if frame[i] != ready[i] {
            return StreamFrameKind::Data { tag };
        }
        i = i + 1;
    }
    assert(frame@ =~= ready@);
    StreamFrameKind::Ready { tag }
}

/// The message of the error reported when the client task fails: the
/// reason given in the `Disconnected` that follows it.
pub fn client_failure_reason(error: &str) -> (r: String)
    ensures
        r@ == "Client error: "@ + error@,
{
    let mut r = String::from_str("Client error: ");
    r.append(error);
    r
}

/// The message of the error reported when the server task fails.
pub fn server_failure_message(error: &str) -> (r: String)
    ensures
        r@ == "Server error: "@ + error@,
{
    let mut r = String::from_str("Server error: ");
    r.append(error);
    r
}

/// A command from the game to the network layer.
#[derive(Debug, Clone, Copy, PartialEq, Eq, Structural)]
pub enum NetCommandKind {
    Host,
    Connect,
    StopHosting,
    Disconnect,
}

/// What the network layer does with a command.
#[derive(Debug, Clone, Copy, PartialEq, Eq, Structural)]
pub enum NetCommandPlan {
    /// Insert the server session and start the server task.
    StartServer,
    /// Insert the client session and start the client task.
    StartClient,
    /// Report "Already hosting a server".
    AlreadyHosting,
    /// Report "Already connected to a server".
    AlreadyConnected,
    /// Cancel the server task; it stays tracked until it ends.
    CancelServer,
    /// Cancel the client task; it stays tracked until it ends.
    CancelClient,
}

/// Whether a tracked task counts as running: it exists and has not ended.
pub open spec fn task_running(task: Option<bool>) -> bool {
    match task {
        Some(finished) => !finished,
        None => false,
    }
}

/// What to do with `cmd`, given whether a server task and a client task
/// are tracked and, if so, whether each has ended.  A second host or a
/// second connection is refused while the first task runs.
pub fn plan_net_command(cmd: NetCommandKind, server_task: Option<bool>, client_task: Option<bool>) -> (r:
    NetCommandPlan)
    ensures
        r == match cmd {
            NetCommandKind::Host => if task_running(server_task) {
                NetCommandPlan::AlreadyHosting
            } else {
                NetCommandPlan::StartServer
            },
            NetCommandKind::Connect => if task_running(client_task) {
                NetCommandPlan::AlreadyConnected
            } else {
                NetCommandPlan::StartClient
            },
            NetCommandKind::StopHosting => NetCommandPlan::CancelServer,
            NetCommandKind::Disconnect => NetCommandPlan::CancelClient,
        },
{
    let hosting = match server_task {
        Some(finished) => !finished,
        None => false,
    };
    let connected = match client_task {
        Some(finished) => !finished,
        None => false,
    };
    match cmd {
        NetCommandKind::Host => if hosting {
            NetCommandPlan::AlreadyHosting
        } else {
            NetCommandPlan::StartServer
        },
        NetCommandKind::Connect => if connected {
            NetCommandPlan::AlreadyConnected
        } else {
            NetCommandPlan::StartClient
        },
        NetCommandKind::StopHosting => NetCommandPlan::CancelServer,
        NetCommandKind::Disconnect => NetCommandPlan::CancelClient,
    }
}

/// A tracked task is kept while it runs and dropped once it has ended.
pub fn keep_task(task: Option<bool>) -> (r: bool)
    ensures
        r == task_running(task),
{
    match task {
        Some(finished) => !finished,
        None => false,
    }
}

/// A client goes live only after the server answered its `Hello` with
/// `Welcome` (carrying its id and the number of module streams) and then
/// `InitialStateDone`: each of those phases is entered only from the one
/// before it.
pub proof fn lemma_live_only_after_greeting(
    phase: ConnPhase,
    ev: ConnEvent,
    tags: Seq<u8>,
    client_id: ClientId,
    expected: u8,
)
    ensures
        ({
            let (next, acts) = conn_step(phase, ev, tags, client_id, expected);
            &&& next is Live ==> phase is Live || phase is SendingDone
            &&& next is SendingDone ==> phase is SendingDone || phase is SendingWelcome
            &&& next is SendingWelcome ==> phase is SendingWelcome || (phase is AwaitingHello
                && ev is Frame)
            &&& (phase is AwaitingHello && next is SendingWelcome) ==> acts == seq![
                ConnAction::Send(ServerMessage::Welcome { client_id, expected_streams: expected }),
            ]
            &&& (phase is SendingWelcome && next is SendingDone) ==> acts == seq![
                ConnAction::Send(ServerMessage::InitialStateDone),
            ]
        }),
{
}

/// Once the module streams are set up, every way a connection ends before
/// it goes live stops this client's stream writers, and a live connection
/// ends by tearing down and announcing the disconnection.  A finished
/// connection stays finished and does nothing.
pub proof fn lemma_conn_end_cleans_up(
    phase: ConnPhase,
    ev: ConnEvent,
    tags: Seq<u8>,
    client_id: ClientId,
    expected: u8,
)
    ensures
        ({
            let (next, acts) = conn_step(phase, ev, tags, client_id, expected);
            &&& (!(phase is OpeningStreams) && !(phase is Live) && !(phase is Finished)
                && next is Finished) ==> acts.len() > 0 && acts.last() == ConnAction::CleanupWriters
            &&& (phase is Live && next is Finished) ==> acts == seq![ConnAction::Disconnected]
            &&& phase is Finished ==> next is Finished && acts.len() == 0
        }),
{
}

/// Every way the client's session ends reports `Disconnected` exactly once,
/// as the last action; a finished session stays finished and does nothing.
pub proof fn lemma_session_reports_end_once(phase: SessionPhase, ev: SessionEvent, name: Seq<char>)
    ensures
        ({
            let (next, acts) = session_step(phase, ev, name);
            &&& (phase != SessionPhase::Finished && next == SessionPhase::Finished) ==> {
                &&& acts.len() > 0
                &&& acts.last() is Disconnected
                &&& forall|i: int| 0 <= i < acts.len() - 1 ==> !(acts[i] is Disconnected)
            }
            &&& next != SessionPhase::Finished ==> forall|i: int|
                0 <= i < acts.len() ==> !(#[trigger] acts[i] is Disconnected)
            &&& phase == SessionPhase::Finished ==> next == SessionPhase::Finished && acts.len()
                == 0
        }),
{
}

} // verus!
