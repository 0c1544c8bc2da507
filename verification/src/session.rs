//! The client side of a session, as a state machine.
//!
//! The session performs no I/O. Its driver tells it what happened, and the
//! session answers with what to do next: the bytes to write on the control
//! channel, which only the session ever writes to, or the step to perform.
//!
//! A session runs through `Connecting`, `AwaitingServerInfo`, `Active`,
//! `Disconnecting` and `Closed`, in this order, and may skip states on the
//! way to `Closed`.

use crate::frame::{frame, MAX_FRAME_LEN};
use crate::proto::{
    client_request_bytes, ClientRequest, ClientRequestView, ServerInfo, ServerInfoView,
    ServerPush,
};
use crate::stream::{FramedSendStream, RecvError};
use vstd::prelude::*;
use vstd::string::StringExecFns;
use vstd::utf8::{is_ascii_chars, is_ascii_chars_concat, is_ascii_chars_encode_utf8};

verus! {

broadcast use crate::wire::lemma_be32_len;

/// The steps of a graceful shutdown, in the order in which they are taken.
#[derive(Clone, Copy, Debug, PartialEq, Eq)]
pub enum ShutdownStep {
    /// Writing the disconnect message.
    Notify,
    /// Flushing the control channel.
    Flush,
    /// Closing the send half of the control channel.
    Close,
}

/// State of a session.
#[derive(Clone, Copy, Debug, PartialEq, Eq)]
pub enum SessionState {
    /// Nothing was sent yet.
    Connecting,
    /// The connect request was sent; the first push message is awaited.
    AwaitingServerInfo,
    /// Both consumers run.
    Active,
    /// The shutdown step named is under way.
    Disconnecting(ShutdownStep),
    /// Terminal: nothing happens any more.
    Closed,
}

/// Why a session closed with an error.
#[derive(Clone, Copy, Debug, PartialEq, Eq)]
pub enum SessionError {
    /// The connect request is longer than a frame may carry.
    RequestTooLarge,
    /// The push channel failed before its first message.
    Handshake(RecvError),
    /// The driver reported a failure of the connection.
    Transport,
    /// The shutdown step named failed.
    Shutdown(ShutdownStep),
}

/// Which of the three events that end the `Active` state came first.
#[derive(Clone, Copy, Debug, PartialEq, Eq)]
pub enum ActiveEnd {
    /// The cancellation signal from outside.
    Cancelled,
    /// The push consumer stopped.
    PushConsumerDone,
    /// The diff consumer stopped.
    DiffConsumerDone,
}

/// What the driver tells the session.
#[derive(Clone, Debug, PartialEq, Eq)]
pub enum SessionEvent {
    /// The control channel is open.
    Start,
    /// The first message of the push channel.
    FirstPush(ServerPush),
    /// The push channel ended before its first message.
    FirstPushMissing,
    /// The push channel failed before its first message.
    FirstPushFailed(RecvError),
    /// The `Active` state is over, for the reason given.
    ActiveEnded(ActiveEnd),
    /// The shutdown step under way succeeded.
    StepDone,
    /// The shutdown step under way failed.
    StepFailed,
    /// The connection failed.
    TransportFailed,
}

/// What the session tells the driver to do.
#[derive(Debug, PartialEq, Eq)]
pub enum SessionAction {
    /// Write these bytes on the control channel, then read the first message
    /// of the push channel.
    SendConnect(Vec<u8>),
    /// Start both consumers and wait for the first of them to stop, or for
    /// the cancellation signal. Carries the server's description, if the
    /// server gave one.
    StartConsumers(Option<ServerInfo>),
    /// Write these bytes on the control channel.
    SendDisconnect(Vec<u8>),
    /// Flush the control channel.
    Flush,
    /// Close the send half of the control channel.
    Close,
    /// The session is closed, with this result.
    Done(Result<(), SessionError>),
    /// The event has no meaning in the session's state. Nothing changed.
    Rejected,
}

/// A `SessionAction` as a mathematical value.
pub enum SessionActionView {
    SendConnect(Seq<u8>),
    StartConsumers(Option<ServerInfoView>),
    SendDisconnect(Seq<u8>),
    Flush,
    Close,
    Done(Result<(), SessionError>),
    Rejected,
}

impl View for SessionAction {
    type V = SessionActionView;

    open spec fn view(&self) -> SessionActionView {
        match self {
            SessionAction::SendConnect(bytes) => SessionActionView::SendConnect(bytes@),
            SessionAction::StartConsumers(Some(info)) => SessionActionView::StartConsumers(
                Some(info@),
            ),
            SessionAction::StartConsumers(None) => SessionActionView::StartConsumers(None),
            SessionAction::SendDisconnect(bytes) => SessionActionView::SendDisconnect(bytes@),
            SessionAction::Flush => SessionActionView::Flush,
            SessionAction::Close => SessionActionView::Close,
            SessionAction::Done(result) => SessionActionView::Done(*result),
            SessionAction::Rejected => SessionActionView::Rejected,
        }
    }
}

/// The frame of the connect request of the user `user_id`.
pub open spec fn connect_frame(user_id: Seq<char>) -> Seq<u8> {
    frame(client_request_bytes(ClientRequestView::Connect(user_id)))
}

/// The frame of the disconnect request.
pub open spec fn disconnect_frame() -> Seq<u8> {
    frame(client_request_bytes(ClientRequestView::Disconnect))
}

/// Whether the connect request of the user `user_id` fits into a frame.
pub open spec fn connect_fits(user_id: Seq<char>) -> bool {
    client_request_bytes(ClientRequestView::Connect(user_id)).len() <= MAX_FRAME_LEN
}

/// The state that follows `state` on `event`, in the session of the user
/// `user_id`.
pub open spec fn next_state(state: SessionState, event: SessionEvent, user_id: Seq<char>)
    -> SessionState {
    match (state, event) {
        (SessionState::Connecting, SessionEvent::Start) => if connect_fits(user_id) {
            SessionState::AwaitingServerInfo
        } else {
            SessionState::Closed
        },
        (
            SessionState::AwaitingServerInfo,
            SessionEvent::FirstPush(ServerPush::ServerInfo(_)),
        ) => SessionState::Active,
        (SessionState::AwaitingServerInfo, SessionEvent::FirstPushMissing) => SessionState::Active,
        (
            SessionState::AwaitingServerInfo,
            SessionEvent::FirstPush(ServerPush::Disconnect),
        ) => SessionState::Closed,
        (
            SessionState::AwaitingServerInfo,
            SessionEvent::FirstPushFailed(_),
        ) => SessionState::Closed,
        (SessionState::Active, SessionEvent::ActiveEnded(_)) => SessionState::Disconnecting(
            ShutdownStep::Notify,
        ),
        (
            SessionState::Disconnecting(ShutdownStep::Notify),
            SessionEvent::StepDone,
        ) => SessionState::Disconnecting(ShutdownStep::Flush),
        (
            SessionState::Disconnecting(ShutdownStep::Flush),
            SessionEvent::StepDone,
        ) => SessionState::Disconnecting(ShutdownStep::Close),
        (
            SessionState::Disconnecting(ShutdownStep::Close),
            SessionEvent::StepDone,
        ) => SessionState::Closed,
        (SessionState::Disconnecting(_), SessionEvent::StepFailed) => SessionState::Closed,
        (SessionState::Connecting, SessionEvent::TransportFailed) => SessionState::Closed,
        (SessionState::AwaitingServerInfo, SessionEvent::TransportFailed) => SessionState::Closed,
        (SessionState::Active, SessionEvent::TransportFailed) => SessionState::Closed,
        (state, _) => state,
    }
}

/// What the session of the user `user_id` tells its driver to do when
/// `event` happens in `state`.
pub open spec fn next_action(state: SessionState, event: SessionEvent, user_id: Seq<char>)
    -> SessionActionView {
    match (state, event) {
        (SessionState::Connecting, SessionEvent::Start) => if connect_fits(user_id) {
            SessionActionView::SendConnect(connect_frame(user_id))
        } else {
            SessionActionView::Done(Err(SessionError::RequestTooLarge))
        },
        (
            SessionState::AwaitingServerInfo,
            SessionEvent::FirstPush(ServerPush::ServerInfo(info)),
        ) => SessionActionView::StartConsumers(Some(info@)),
        (
            SessionState::AwaitingServerInfo,
            SessionEvent::FirstPushMissing,
        ) => SessionActionView::StartConsumers(None),
        (
            SessionState::AwaitingServerInfo,
            SessionEvent::FirstPush(ServerPush::Disconnect),
        ) => SessionActionView::Done(Ok(())),
        (
            SessionState::AwaitingServerInfo,
            SessionEvent::FirstPushFailed(error),
        ) => SessionActionView::Done(Err(SessionError::Handshake(error))),
        (SessionState::Active, SessionEvent::ActiveEnded(_)) => SessionActionView::SendDisconnect(
            disconnect_frame(),
        ),
        (
            SessionState::Disconnecting(ShutdownStep::Notify),
            SessionEvent::StepDone,
        ) => SessionActionView::Flush,
        (
            SessionState::Disconnecting(ShutdownStep::Flush),
            SessionEvent::StepDone,
        ) => SessionActionView::Close,
        (
            SessionState::Disconnecting(ShutdownStep::Close),
            SessionEvent::StepDone,
        ) => SessionActionView::Done(Ok(())),
        (SessionState::Disconnecting(step), SessionEvent::StepFailed) => SessionActionView::Done(
            Err(SessionError::Shutdown(step)),
        ),
        (SessionState::Connecting, SessionEvent::TransportFailed) => SessionActionView::Done(
            Err(SessionError::Transport),
        ),
        (
            SessionState::AwaitingServerInfo,
            SessionEvent::TransportFailed,
        ) => SessionActionView::Done(Err(SessionError::Transport)),
        (SessionState::Active, SessionEvent::TransportFailed) => SessionActionView::Done(
            Err(SessionError::Transport),
        ),
        (_, _) => SessionActionView::Rejected,
    }
}

/// How far a state lies on the way from `Connecting` to `Closed`.
pub open spec fn progress(state: SessionState) -> nat {
    match state {
        SessionState::Connecting => 0,
        SessionState::AwaitingServerInfo => 1,
        SessionState::Active => 2,
        SessionState::Disconnecting(ShutdownStep::Notify) => 3,
        SessionState::Disconnecting(ShutdownStep::Flush) => 4,
        SessionState::Disconnecting(ShutdownStep::Close) => 5,
        SessionState::Closed => 6,
    }
}

/// The state that a session reaches from `state` through `events`, in
/// order.
pub open spec fn state_after(state: SessionState, events: Seq<SessionEvent>, user_id: Seq<char>)
    -> SessionState
    decreases events.len(),
{
    if events.len() == 0 {
        state
    } else {
        next_state(state_after(state, events.drop_last(), user_id), events.last(), user_id)
    }
}

/// `Closed` is terminal: every event is rejected there and the session
/// stays closed.
pub proof fn lemma_closed_is_terminal(event: SessionEvent, user_id: Seq<char>)
    ensures
        next_state(SessionState::Closed, event, user_id) == SessionState::Closed,
        next_action(SessionState::Closed, event, user_id) == SessionActionView::Rejected,
{
}

/// A session never goes back: no event leads to an earlier state. An event
/// is rejected exactly where it leaves the state as it is, and the session
/// reports its result exactly when it enters `Closed`.
pub proof fn lemma_session_advances(state: SessionState, event: SessionEvent, user_id: Seq<char>)
    ensures
        progress(state) <= progress(next_state(state, event, user_id)),
        next_action(state, event, user_id) == SessionActionView::Rejected <==> next_state(
            state,
            event,
            user_id,
        ) == state,
        next_action(state, event, user_id) is Done <==> state != SessionState::Closed
            && next_state(state, event, user_id) == SessionState::Closed,
{
}

/// `Active` is entered from `AwaitingServerInfo` only, and only when the
/// push channel began with a server description or ended before its first
/// message. In particular a session whose first push message is a
/// disconnect closes without ever being active.
pub proof fn lemma_active_entered_after_handshake(
    state: SessionState,
    event: SessionEvent,
    user_id: Seq<char>,
)
    requires
        state != SessionState::Active,
        next_state(state, event, user_id) == SessionState::Active,
    ensures
        state == SessionState::AwaitingServerInfo,
        event is FirstPushMissing || (event matches SessionEvent::FirstPush(push)
            && push is ServerInfo),
{
}

/// Of the events that can end `Active`, the first one wins: it begins the
/// shutdown, and whichever of them comes later is rejected.
pub proof fn lemma_first_end_wins(first: ActiveEnd, later: ActiveEnd, user_id: Seq<char>)
    ensures
        next_state(SessionState::Active, SessionEvent::ActiveEnded(first), user_id)
            == SessionState::Disconnecting(ShutdownStep::Notify),
        next_action(
            SessionState::Disconnecting(ShutdownStep::Notify),
            SessionEvent::ActiveEnded(later),
            user_id,
        ) == SessionActionView::Rejected,
{
}

/// States never go back along a run of events either.
pub proof fn lemma_run_advances(state: SessionState, events: Seq<SessionEvent>, user_id: Seq<char>)
    ensures
        progress(state) <= progress(state_after(state, events, user_id)),
    decreases events.len(),
{
    if events.len() > 0 {
        lemma_run_advances(state, events.drop_last(), user_id);
        lemma_session_advances(
            state_after(state, events.drop_last(), user_id),
            events.last(),
            user_id,
        );
    }
}

/// A run of events begins with its first event and goes on from the state
/// that this event leads to.
pub proof fn lemma_state_after_first(
    state: SessionState,
    events: Seq<SessionEvent>,
    user_id: Seq<char>,
)
    requires
        events.len() > 0,
    ensures
        state_after(state, events, user_id) == state_after(
            next_state(state, events.first(), user_id),
            events.drop_first(),
            user_id,
        ),
    decreases events.len(),
{
    if events.len() == 1 {
        assert(events.drop_last().len() == 0);
        assert(events.drop_first().len() == 0);
    } else {
        lemma_state_after_first(state, events.drop_last(), user_id);
        assert(events.drop_last().first() == events.first());
        assert(events.drop_last().drop_first() =~= events.drop_first().drop_last());
        assert(events.drop_first().last() == events.last());
    }
}

/// A session whose first push message is a disconnect closes at once and
/// with success: it is never active.
pub proof fn lemma_disconnect_first_closes(user_id: Seq<char>)
    ensures
        next_state(
            SessionState::AwaitingServerInfo,
            SessionEvent::FirstPush(ServerPush::Disconnect),
            user_id,
        ) == SessionState::Closed,
        next_action(
            SessionState::AwaitingServerInfo,
            SessionEvent::FirstPush(ServerPush::Disconnect),
            user_id,
        ) == SessionActionView::Done(Ok(())),
{
}

/// A session whose first push message is a server description becomes
/// active. When its push consumer then stops, as it does at a disconnect
/// message, three successful shutdown steps close the session.
pub proof fn lemma_server_info_then_disconnect_closes(info: ServerInfo, user_id: Seq<char>)
    ensures
        next_state(
            SessionState::AwaitingServerInfo,
            SessionEvent::FirstPush(ServerPush::ServerInfo(info)),
            user_id,
        ) == SessionState::Active,
        state_after(
            SessionState::AwaitingServerInfo,
            seq![
                SessionEvent::FirstPush(ServerPush::ServerInfo(info)),
                SessionEvent::ActiveEnded(ActiveEnd::PushConsumerDone),
                SessionEvent::StepDone,
                SessionEvent::StepDone,
                SessionEvent::StepDone,
            ],
            user_id,
        ) == SessionState::Closed,
{
    let events = seq![
        SessionEvent::FirstPush(ServerPush::ServerInfo(info)),
        SessionEvent::ActiveEnded(ActiveEnd::PushConsumerDone),
        SessionEvent::StepDone,
        SessionEvent::StepDone,
        SessionEvent::StepDone,
    ];
    let shutdown = seq![
        SessionEvent::ActiveEnded(ActiveEnd::PushConsumerDone),
        SessionEvent::StepDone,
        SessionEvent::StepDone,
        SessionEvent::StepDone,
    ];
    lemma_state_after_first(SessionState::AwaitingServerInfo, events, user_id);
    assert(events.drop_first() =~= shutdown);
    lemma_shutdown_closes(ActiveEnd::PushConsumerDone, user_id);
}

/// Once `Active` is over, three successful shutdown steps close the
/// session, whichever of the three events ended `Active`; the session waits
/// for nothing else.
pub proof fn lemma_shutdown_closes(end: ActiveEnd, user_id: Seq<char>)
    ensures
        state_after(
            SessionState::Active,
            seq![
                SessionEvent::ActiveEnded(end),
                SessionEvent::StepDone,
                SessionEvent::StepDone,
                SessionEvent::StepDone,
            ],
            user_id,
        ) == SessionState::Closed,
{
    let events = seq![
        SessionEvent::ActiveEnded(end),
        SessionEvent::StepDone,
        SessionEvent::StepDone,
        SessionEvent::StepDone,
    ];
    let three = events.drop_last();
    let two = three.drop_last();
    let one = two.drop_last();
    assert(one.drop_last().len() == 0);
    assert(state_after(SessionState::Active, one.drop_last(), user_id) == SessionState::Active);
    assert(one.last() == SessionEvent::ActiveEnded(end));
    assert(state_after(SessionState::Active, one, user_id) == SessionState::Disconnecting(
        ShutdownStep::Notify,
    ));
    assert(two.last() == SessionEvent::StepDone);
    assert(state_after(SessionState::Active, two, user_id) == SessionState::Disconnecting(
        ShutdownStep::Flush,
    ));
    assert(three.last() == SessionEvent::StepDone);
    assert(state_after(SessionState::Active, three, user_id) == SessionState::Disconnecting(
        ShutdownStep::Close,
    ));
    assert(events.last() == SessionEvent::StepDone);
}

/// A session: its state, the id of its user, and the send half of the
/// control channel.
pub struct Session {
    state: SessionState,
    user_id: String,
    control: FramedSendStream,
}

impl Session {
    /// Validity: nothing is left queued on the control channel between two
    /// events, and its send half is closed exactly when the session is.
    pub closed spec fn wf(&self) -> bool {
        &&& self.control.queued() == Seq::<u8>::empty()
        &&& self.control.is_closed() <==> self.state == SessionState::Closed
    }

    /// The session's state.
    pub closed spec fn state(&self) -> SessionState {
        self.state
    }

    /// The id of the session's user.
    pub closed spec fn user_id(&self) -> Seq<char> {
        self.user_id@
    }

    /// A session of the user `user_id` that has sent nothing yet.
    pub fn new(user_id: String) -> (session: Session)
        ensures
            session.wf(),
            session.state() == SessionState::Connecting,
            session.user_id() == user_id@,
    {
        Session { state: SessionState::Connecting, user_id, control: FramedSendStream::new() }
    }

    /// The session's state.
    pub fn current_state(&self) -> (state: SessionState)
        ensures
            state == self.state(),
    {
        self.state
    }

    /// Closes the session with `result`.
    fn finish(&mut self, result: Result<(), SessionError>) -> (action: SessionAction)
        requires
            old(self).wf(),
        ensures
            final(self).wf(),
            final(self).state() == SessionState::Closed,
            final(self).user_id() == old(self).user_id(),
            action == SessionAction::Done(result),
    {
        self.control.close();
        self.state = SessionState::Closed;
        SessionAction::Done(result)
    }

    /// Queues `request` on the control channel and takes the bytes to write.
    fn request_bytes(&mut self, request: &ClientRequest) -> (bytes: Option<Vec<u8>>)
        requires
            old(self).wf(),
            old(self).state() != SessionState::Closed,
        ensures
            final(self).wf(),
            final(self).state() == old(self).state(),
            final(self).user_id() == old(self).user_id(),
            bytes is Some <==> client_request_bytes(request@).len() <= MAX_FRAME_LEN,
            bytes matches Some(b) ==> b@ == frame(client_request_bytes(request@)),
    {
        match self.control.send(request) {
            Ok(()) => {
                let bytes = self.control.flush();
                assert(bytes@ =~= frame(client_request_bytes(request@)));
                Some(bytes)
            },
            Err(_) => None,
        }
    }

    /// Takes in `event` and answers with what the driver is to do.
    ///
    /// An event that has no meaning in the session's state is rejected and
    /// changes nothing. A closed session rejects every event.
    pub fn step(&mut self, event: SessionEvent) -> (action: SessionAction)
        requires
            old(self).wf(),
        ensures
            final(self).wf(),
            final(self).user_id() == old(self).user_id(),
            final(self).state() == next_state(old(self).state(), event, old(self).user_id()),
            action@ == next_action(old(self).state(), event, old(self).user_id()),
    {
        match (self.state, event) {
            (SessionState::Connecting, SessionEvent::Start) => {
                let request = ClientRequest::Connect(self.user_id.clone());
                match self.request_bytes(&request) {
                    Some(bytes) => {
                        self.state = SessionState::AwaitingServerInfo;
                        SessionAction::SendConnect(bytes)
                    },
                    None => self.finish(Err(SessionError::RequestTooLarge)),
                }
            },
            (
                SessionState::AwaitingServerInfo,
                SessionEvent::FirstPush(ServerPush::ServerInfo(info)),
            ) => {
                self.state = SessionState::Active;
                SessionAction::StartConsumers(Some(info))
            },
            (SessionState::AwaitingServerInfo, SessionEvent::FirstPushMissing) => {
                self.state = SessionState::Active;
                SessionAction::StartConsumers(None)
            },
            (SessionState::AwaitingServerInfo, SessionEvent::FirstPush(ServerPush::Disconnect)) => {
                self.finish(Ok(()))
            },
            (SessionState::AwaitingServerInfo, SessionEvent::FirstPushFailed(error)) => {
                self.finish(Err(SessionError::Handshake(error)))
            },
            (SessionState::Active, SessionEvent::ActiveEnded(_)) => {
                // A disconnect request is one byte long: it always fits.
                match self.request_bytes(&ClientRequest::Disconnect) {
                    Some(bytes) => {
                        self.state = SessionState::Disconnecting(ShutdownStep::Notify);
                        SessionAction::SendDisconnect(bytes)
                    },
                    None => self.finish(Err(SessionError::RequestTooLarge)),
                }
            },
            (SessionState::Disconnecting(ShutdownStep::Notify), SessionEvent::StepDone) => {
                self.state = SessionState::Disconnecting(ShutdownStep::Flush);
                SessionAction::Flush
            },
            (SessionState::Disconnecting(ShutdownStep::Flush), SessionEvent::StepDone) => {
                self.state = SessionState::Disconnecting(ShutdownStep::Close);
                SessionAction::Close
            },
            (SessionState::Disconnecting(ShutdownStep::Close), SessionEvent::StepDone) => {
                self.finish(Ok(()))
            },
            (SessionState::Disconnecting(step), SessionEvent::StepFailed) => {
                self.finish(Err(SessionError::Shutdown(step)))
            },
            (SessionState::Connecting, SessionEvent::TransportFailed) => {
                self.finish(Err(SessionError::Transport))
            },
            (SessionState::AwaitingServerInfo, SessionEvent::TransportFailed) => {
                self.finish(Err(SessionError::Transport))
            },
            (SessionState::Active, SessionEvent::TransportFailed) => {
                self.finish(Err(SessionError::Transport))
            },
            (_, _) => SessionAction::Rejected,
        }
    }
}

/// Number of characters of the random part of a user id.
pub const TOKEN_LEN: usize = 36;

/// The user id with the random part `token`.
pub open spec fn user_id_with(token: Seq<char>) -> Seq<char> {
    "dummy-user-"@ + token
}

/// Whether `id` is a user id with a random part of the usual form: 36 ASCII
/// characters.
pub open spec fn is_generated_user_id(id: Seq<char>) -> bool {
    exists|token: Seq<char>|
        token.len() == TOKEN_LEN && is_ascii_chars(token) && id == #[trigger] user_id_with(token)
}

/// A fresh random UUID in its usual notation.
///
/// Calls `uuid::Uuid::new_v4` and formats the result. Trusted: the notation
/// is 36 ASCII characters long. Which UUID it is depends on chance.
#[verifier::external_body]
fn random_token() -> (token: String)
    ensures
        token@.len() == TOKEN_LEN,
        is_ascii_chars(token@),
{
    uuid::Uuid::new_v4().to_string()
}

/// The user id with the random part `token`.
pub fn user_id_from(token: &str) -> (id: String)
    ensures
        id@ == user_id_with(token@),
{
    String::from_str("dummy-user-").concat(token)
}

/// Makes the id of a session's user. It is made once per session; two ids
/// are the same only by a chance that can be neglected.
pub fn generate_user_id() -> (id: String)
    ensures
        is_generated_user_id(id@),
{
    let token = random_token();
    user_id_from(token.as_str())
}

/// The connect request of a generated user id fits into a frame, so a
/// session of such a user sends its connect request when it starts.
pub proof fn lemma_generated_user_id_fits(id: Seq<char>)
    requires
        is_generated_user_id(id),
    ensures
        id.len() == 11 + TOKEN_LEN,
        connect_fits(id),
        next_state(SessionState::Connecting, SessionEvent::Start, id)
            == SessionState::AwaitingServerInfo,
{
    let token = choose|token: Seq<char>|
        token.len() == TOKEN_LEN && is_ascii_chars(token) && id == #[trigger] user_id_with(token);
    reveal_strlit("dummy-user-");
    is_ascii_chars_concat(id, "dummy-user-"@, token);
    is_ascii_chars_encode_utf8(id);
}

} // verus!
