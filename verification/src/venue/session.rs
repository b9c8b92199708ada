//! The rules of a live session: when to connect, what to do next, when to give up.
use vstd::prelude::*;

use crate::market_data::event::EventView;
use crate::market_data::NormalizedMarketEvent;
use crate::venue::action::{action_views, ActionView, AdapterAction, MarketKey};

verus! {

/// The pause before the first new attempt, in seconds.
pub const INITIAL_RECONNECT_DELAY: u64 = 2;

/// The longest pause before a new attempt, in seconds.
pub const MAX_RECONNECT_DELAY: u64 = 30;

/// A frame that arrived.
#[derive(Debug, Eq, PartialEq)]
pub enum IncomingFrame {
    Text(String),
    Ping(Vec<u8>),
    Closed(String),
    Other,
}

/// A frame to send.
#[derive(Debug, Eq, PartialEq)]
pub enum OutgoingFrame {
    Text(String),
    Pong(Vec<u8>),
    Ping(Vec<u8>),
}

/// What is asked of whoever runs the session.
#[derive(Debug, Eq, PartialEq)]
pub enum Request {
    /// Tell that a connection is attempted.
    TellConnecting,
    /// Connect to the endpoint.
    Connect,
    /// Tell that the connection is there.
    TellConnected,
    /// Ask the adapter what is due now that the connection is there.
    AskConnected,
    /// Ask the adapter what is due at a heartbeat.
    AskHeartbeat,
    /// Ask the adapter what is due after a text.
    AskText(String),
    /// Ask the adapter what is due now that the connection is lost.
    AskDisconnected(String),
    /// Tell that a market is subscribed.
    TellSubscribed(MarketKey),
    /// Tell that a trade came twice.
    TellDeduplicated(MarketKey),
    /// Tell of a market event.
    TellData(NormalizedMarketEvent),
    /// Tell that the connection is lost and when the next attempt is made, in seconds.
    TellDisconnected(String, u64),
    /// Send a frame.
    Send(OutgoingFrame),
    /// Wait for a frame, a heartbeat or the end.
    Receive,
    /// Close the connection.
    Close,
    /// Wait for a number of seconds, or for the end.
    Sleep(u64),
    /// The session is over.
    Finish(Result<(), String>),
}

/// What came of a request.
#[derive(Debug, Eq, PartialEq)]
pub enum Reply {
    Told(Result<(), String>),
    Connected(Result<(), String>),
    Actions(Vec<AdapterAction>),
    Sent(Result<(), String>),
    Received(Result<Option<IncomingFrame>, String>),
    Heartbeat,
    Closed,
    Slept,
    /// The end was asked for.
    Shutdown(Result<(), String>),
}

/// The model of `IncomingFrame`.
pub enum IncomingView {
    Text(Seq<char>),
    Ping(Seq<u8>),
    Closed(Seq<char>),
    Other,
}

/// The model of `OutgoingFrame`.
pub enum OutgoingView {
    Text(Seq<char>),
    Pong(Seq<u8>),
    Ping(Seq<u8>),
}

/// The model of `Request`.
pub enum RequestView {
    TellConnecting,
    Connect,
    TellConnected,
    AskConnected,
    AskHeartbeat,
    AskText(Seq<char>),
    AskDisconnected(Seq<char>),
    TellSubscribed(nat),
    TellDeduplicated(nat),
    TellData(EventView),
    TellDisconnected(Seq<char>, u64),
    Send(OutgoingView),
    Receive,
    Close,
    Sleep(u64),
    Finish(Result<(), Seq<char>>),
}

/// The model of `Reply`.
pub enum ReplyView {
    Told(Result<(), Seq<char>>),
    Connected(Result<(), Seq<char>>),
    Actions(Seq<ActionView>),
    Sent(Result<(), Seq<char>>),
    Received(Result<Option<IncomingView>, Seq<char>>),
    Heartbeat,
    Closed,
    Slept,
    Shutdown(Result<(), Seq<char>>),
}

/// The model of a result.
pub open spec fn result_view(result: Result<(), String>) -> Result<(), Seq<char>> {
    match result {
        Ok(_) => Ok(()),
        Err(error) => Err(error@),
    }
}

impl View for IncomingFrame {
    type V = IncomingView;

    open spec fn view(&self) -> IncomingView {
        match *self {
            IncomingFrame::Text(text) => IncomingView::Text(text@),
            IncomingFrame::Ping(payload) => IncomingView::Ping(payload@),
            IncomingFrame::Closed(frame) => IncomingView::Closed(frame@),
            IncomingFrame::Other => IncomingView::Other,
        }
    }
}

impl View for OutgoingFrame {
    type V = OutgoingView;

    open spec fn view(&self) -> OutgoingView {
        match *self {
            OutgoingFrame::Text(text) => OutgoingView::Text(text@),
            OutgoingFrame::Pong(payload) => OutgoingView::Pong(payload@),
            OutgoingFrame::Ping(payload) => OutgoingView::Ping(payload@),
        }
    }
}

impl View for Request {
    type V = RequestView;

    open spec fn view(&self) -> RequestView {
        match *self {
            Request::TellConnecting => RequestView::TellConnecting,
            Request::Connect => RequestView::Connect,
            Request::TellConnected => RequestView::TellConnected,
            Request::AskConnected => RequestView::AskConnected,
            Request::AskHeartbeat => RequestView::AskHeartbeat,
            Request::AskText(text) => RequestView::AskText(text@),
            Request::AskDisconnected(reason) => RequestView::AskDisconnected(reason@),
            Request::TellSubscribed(key) => RequestView::TellSubscribed(key.0 as nat),
            Request::TellDeduplicated(key) => RequestView::TellDeduplicated(key.0 as nat),
            Request::TellData(event) => RequestView::TellData(event@),
            Request::TellDisconnected(reason, retry_in) => RequestView::TellDisconnected(
                reason@,
                retry_in,
            ),
            Request::Send(frame) => RequestView::Send(frame@),
            Request::Receive => RequestView::Receive,
            Request::Close => RequestView::Close,
            Request::Sleep(seconds) => RequestView::Sleep(seconds),
            Request::Finish(result) => RequestView::Finish(result_view(result)),
        }
    }
}

/// The model of what was received.
pub open spec fn received_view(received: Result<Option<IncomingFrame>, String>) -> Result<
    Option<IncomingView>,
    Seq<char>,
> {
    match received {
        Ok(Some(frame)) => Ok(Some(frame@)),
        Ok(None) => Ok(None),
        Err(error) => Err(error@),
    }
}

impl View for Reply {
    type V = ReplyView;

    open spec fn view(&self) -> ReplyView {
        match *self {
            Reply::Told(result) => ReplyView::Told(result_view(result)),
            Reply::Connected(result) => ReplyView::Connected(result_view(result)),
            Reply::Actions(actions) => ReplyView::Actions(action_views(actions@)),
            Reply::Sent(result) => ReplyView::Sent(result_view(result)),
            Reply::Received(received) => ReplyView::Received(received_view(received)),
            Reply::Heartbeat => ReplyView::Heartbeat,
            Reply::Closed => ReplyView::Closed,
            Reply::Slept => ReplyView::Slept,
            Reply::Shutdown(result) => ReplyView::Shutdown(result_view(result)),
        }
    }
}

/// What the session waits for.
pub enum Phase {
    /// An attempt was announced.
    Attempting,
    /// A connection is being made.
    Connecting,
    /// A connection was announced.
    Greeting,
    /// The adapter was asked.
    Asking,
    /// A frame of an action is being sent.
    Sending,
    /// An action is being told.
    Telling,
    /// A frame, a heartbeat or the end may come.
    Receiving,
    /// A ping is being answered.
    Answering,
    /// The connection is being closed because the end was asked for.
    Closing(Result<(), String>),
    /// The adapter was asked after a loss.
    Losing(String),
    /// What the loss means for the markets is being told.
    Publishing(String),
    /// The loss was announced.
    Lost,
    /// The pause before a new attempt.
    Waiting,
    /// Nothing more is to come.
    Finished,
}

/// The model of `Phase`.
pub enum PhaseView {
    Attempting,
    Connecting,
    Greeting,
    Asking,
    Sending,
    Telling,
    Receiving,
    Answering,
    Closing(Result<(), Seq<char>>),
    Losing(Seq<char>),
    Publishing(Seq<char>),
    Lost,
    Waiting,
    Finished,
}

impl View for Phase {
    type V = PhaseView;

    open spec fn view(&self) -> PhaseView {
        match *self {
            Phase::Attempting => PhaseView::Attempting,
            Phase::Connecting => PhaseView::Connecting,
            Phase::Greeting => PhaseView::Greeting,
            Phase::Asking => PhaseView::Asking,
            Phase::Sending => PhaseView::Sending,
            Phase::Telling => PhaseView::Telling,
            Phase::Receiving => PhaseView::Receiving,
            Phase::Answering => PhaseView::Answering,
            Phase::Closing(result) => PhaseView::Closing(result_view(result)),
            Phase::Losing(reason) => PhaseView::Losing(reason@),
            Phase::Publishing(reason) => PhaseView::Publishing(reason@),
            Phase::Lost => PhaseView::Lost,
            Phase::Waiting => PhaseView::Waiting,
            Phase::Finished => PhaseView::Finished,
        }
    }
}

/// The state of a session.
pub struct Session {
    phase: Phase,
    delay: u64,
    queue: Vec<AdapterAction>,
}

/// The model of `Session`.
pub struct SessionView {
    pub phase: PhaseView,
    /// The pause before the next attempt, in seconds.
    pub delay: u64,
    /// What the adapter asked for and is still to be done, first things first.
    pub queue: Seq<ActionView>,
}

/// The pause after a pause.
pub open spec fn next_delay(delay: u64) -> u64 {
    if delay * 2 < MAX_RECONNECT_DELAY {
        (delay * 2) as u64
    } else {
        MAX_RECONNECT_DELAY
    }
}

/// The events that actions publish, in order.
pub open spec fn published(actions: Seq<ActionView>) -> Seq<EventView>
    decreases actions.len(),
{
    if actions.len() == 0 {
        Seq::empty()
    } else {
        match actions[0] {
            ActionView::Publish(event) => seq![event] + published(actions.drop_first()),
            _ => published(actions.drop_first()),
        }
    }
}

impl SessionView {
    /// At the start.
    pub open spec fn fresh() -> SessionView {
        SessionView {
            phase: PhaseView::Attempting,
            delay: INITIAL_RECONNECT_DELAY,
            queue: Seq::empty(),
        }
    }

    /// Whether a reply may come now.
    pub open spec fn expects(self, reply: ReplyView) -> bool {
        match reply {
            ReplyView::Told(_) => self.phase is Attempting || self.phase is Greeting || self.phase
                is Telling || self.phase is Publishing || self.phase is Lost,
            ReplyView::Connected(_) => self.phase is Connecting,
            ReplyView::Actions(_) => self.phase is Asking || self.phase is Losing,
            ReplyView::Sent(_) => self.phase is Sending || self.phase is Answering,
            ReplyView::Received(_) => self.phase is Receiving,
            ReplyView::Heartbeat => self.phase is Receiving,
            ReplyView::Closed => self.phase is Closing,
            ReplyView::Slept => self.phase is Waiting,
            ReplyView::Shutdown(_) => self.phase is Connecting || self.phase is Receiving
                || self.phase is Waiting,
        }
    }

    /// The session is over.
    pub open spec fn finish(self, result: Result<(), Seq<char>>) -> (SessionView, RequestView) {
        (
            SessionView { phase: PhaseView::Finished, queue: Seq::empty(), ..self },
            RequestView::Finish(result),
        )
    }

    /// The connection is lost: the adapter is asked what that means for the markets.
    pub open spec fn lose(self, reason: Seq<char>) -> (SessionView, RequestView) {
        (
            SessionView { phase: PhaseView::Losing(reason), queue: Seq::empty(), ..self },
            RequestView::AskDisconnected(reason),
        )
    }

    /// The first thing that is still to be done. A published event brings the pause back
    /// to its start.
    pub open spec fn perform(self) -> (SessionView, RequestView) {
        if self.queue.len() == 0 {
            (SessionView { phase: PhaseView::Receiving, ..self }, RequestView::Receive)
        } else {
            let rest = self.queue.drop_first();
            match self.queue[0] {
                ActionView::SendText(text) => (
                    SessionView { phase: PhaseView::Sending, queue: rest, ..self },
                    RequestView::Send(OutgoingView::Text(text)),
                ),
                ActionView::SendPing(payload) => (
                    SessionView { phase: PhaseView::Sending, queue: rest, ..self },
                    RequestView::Send(OutgoingView::Ping(payload)),
                ),
                ActionView::MarketSubscribed(index) => (
                    SessionView { phase: PhaseView::Telling, queue: rest, ..self },
                    RequestView::TellSubscribed(index),
                ),
                ActionView::TradeDeduplicated(index) => (
                    SessionView { phase: PhaseView::Telling, queue: rest, ..self },
                    RequestView::TellDeduplicated(index),
                ),
                ActionView::Publish(event) => (
                    SessionView {
                        phase: PhaseView::Telling,
                        delay: INITIAL_RECONNECT_DELAY,
                        queue: rest,
                    },
                    RequestView::TellData(event),
                ),
                ActionView::Reconnect { reason } => self.lose(reason),
                ActionView::Stop { reason } => self.finish(Err(reason)),
            }
        }
    }

    /// The first event that is still to be published after a loss, or its announcement.
    pub open spec fn publish(self, reason: Seq<char>) -> (SessionView, RequestView)
        decreases self.queue.len(),
    {
        if self.queue.len() == 0 {
            (
                SessionView { phase: PhaseView::Lost, ..self },
                RequestView::TellDisconnected(reason, self.delay),
            )
        } else {
            let rest = SessionView { queue: self.queue.drop_first(), ..self };
            match self.queue[0] {
                ActionView::Publish(event) => (
                    SessionView { phase: PhaseView::Publishing(reason), ..rest },
                    RequestView::TellData(event),
                ),
                _ => rest.publish(reason),
            }
        }
    }

    /// After a frame.
    pub open spec fn after_received(
        self,
        received: Result<Option<IncomingView>, Seq<char>>,
    ) -> (SessionView, RequestView) {
        match received {
            Err(error) => self.lose("transport receive failed: "@ + error),
            Ok(None) => self.lose("connection closed by remote peer"@),
            Ok(Some(frame)) => match frame {
                IncomingView::Text(text) => (
                    SessionView { phase: PhaseView::Asking, ..self },
                    RequestView::AskText(text),
                ),
                IncomingView::Ping(payload) => (
                    SessionView { phase: PhaseView::Answering, ..self },
                    RequestView::Send(OutgoingView::Pong(payload)),
                ),
                IncomingView::Closed(frame) => self.lose("connection closed: "@ + frame),
                IncomingView::Other => (self, RequestView::Receive),
            },
        }
    }

    /// After what was told was taken.
    pub open spec fn after_told(self) -> (SessionView, RequestView) {
        match self.phase {
            PhaseView::Attempting => (
                SessionView { phase: PhaseView::Connecting, ..self },
                RequestView::Connect,
            ),
            PhaseView::Greeting => (
                SessionView { phase: PhaseView::Asking, ..self },
                RequestView::AskConnected,
            ),
            PhaseView::Publishing(reason) => self.publish(reason),
            PhaseView::Lost => (
                SessionView { phase: PhaseView::Waiting, ..self },
                RequestView::Sleep(self.delay),
            ),
            _ => self.perform(),
        }
    }

    /// After a reply: the state then, and the next request.
    pub open spec fn after(self, reply: ReplyView) -> (SessionView, RequestView) {
        match reply {
            ReplyView::Told(Err(error)) => self.finish(Err(error)),
            ReplyView::Told(Ok(_)) => self.after_told(),
            ReplyView::Connected(Ok(_)) => (
                SessionView { phase: PhaseView::Greeting, ..self },
                RequestView::TellConnected,
            ),
            ReplyView::Connected(Err(error)) => self.lose("connection failed: "@ + error),
            ReplyView::Actions(actions) => {
                let next = SessionView { queue: actions, ..self };
                match self.phase {
                    PhaseView::Losing(reason) => next.publish(reason),
                    _ => next.perform(),
                }
            },
            ReplyView::Sent(Ok(_)) => if self.phase is Answering {
                (SessionView { phase: PhaseView::Receiving, ..self }, RequestView::Receive)
            } else {
                self.perform()
            },
            ReplyView::Sent(Err(error)) => if self.phase is Answering {
                self.lose("pong send failed: "@ + error)
            } else {
                self.lose("transport send failed: "@ + error)
            },
            ReplyView::Received(received) => self.after_received(received),
            ReplyView::Heartbeat => (
                SessionView { phase: PhaseView::Asking, ..self },
                RequestView::AskHeartbeat,
            ),
            ReplyView::Closed => match self.phase {
                PhaseView::Closing(result) => self.finish(result),
                _ => self.finish(Ok(())),
            },
            ReplyView::Slept => (
                SessionView {
                    phase: PhaseView::Attempting,
                    delay: next_delay(self.delay),
                    ..self
                },
                RequestView::TellConnecting,
            ),
            ReplyView::Shutdown(result) => if self.phase is Receiving {
                (
                    SessionView { phase: PhaseView::Closing(result), ..self },
                    RequestView::Close,
                )
            } else {
                self.finish(result)
            },
        }
    }

    /// One while events are told after a loss, nothing otherwise.
    pub open spec fn telling(self) -> nat {
        if self.phase is Publishing {
            1
        } else {
            0
        }
    }

    /// The pause stays between its limits, and there is nothing left to do where the
    /// session waits for something new.
    pub open spec fn valid(self) -> bool {
        &&& INITIAL_RECONNECT_DELAY <= self.delay <= MAX_RECONNECT_DELAY
        &&& self.phase is Sending || self.phase is Telling || self.phase is Publishing
            || self.queue.len() == 0
    }
}

impl View for Session {
    type V = SessionView;

    closed spec fn view(&self) -> SessionView {
        SessionView { phase: self.phase@, delay: self.delay, queue: action_views(self.queue@) }
    }
}

fn joined(prefix: &str, text: &str) -> (whole: String)
    ensures
        whole@ == prefix@ + text@,
{
    let mut whole: String = prefix.to_owned();
    whole.append(text);
    whole
}

impl Session {
    /// A new session, and the first request.
    pub fn begin() -> (result: (Self, Request))
        ensures
            result.0@ == SessionView::fresh(),
            result.0@.valid(),
            result.1@ == RequestView::TellConnecting,
    {
        let session = Session {
            phase: Phase::Attempting,
            delay: INITIAL_RECONNECT_DELAY,
            queue: Vec::new(),
        };
        assert(session@.queue =~= Seq::<ActionView>::empty());
        (session, Request::TellConnecting)
    }

    fn finish(&mut self, result: Result<(), String>) -> (request: Request)
        ensures
            (final(self)@, request@) == old(self)@.finish(result_view(result)),
    {
        self.phase = Phase::Finished;
        self.queue = Vec::new();
        assert(self@.queue =~= Seq::<ActionView>::empty());
        Request::Finish(result)
    }

    fn lose(&mut self, reason: String) -> (request: Request)
        ensures
            (final(self)@, request@) == old(self)@.lose(reason@),
    {
        self.phase = Phase::Losing(reason.clone());
        self.queue = Vec::new();
        assert(self@.queue =~= Seq::<ActionView>::empty());
        Request::AskDisconnected(reason)
    }

    fn perform(&mut self) -> (request: Request)
        ensures
            (final(self)@, request@) == old(self)@.perform(),
    {
        let ghost before = self@;
        if self.queue.len() == 0 {
            self.phase = Phase::Receiving;
            return Request::Receive;
        }
        let ghost actions = self.queue@;
        let action: AdapterAction = self.queue.remove(0);
        proof {
            assert(action_views(self.queue@) =~= before.queue.drop_first());
            assert(before.queue[0] == action@);
        }
        match action {
            AdapterAction::SendText(text) => {
                self.phase = Phase::Sending;
                Request::Send(OutgoingFrame::Text(text))
            },
            AdapterAction::SendPing(payload) => {
                self.phase = Phase::Sending;
                Request::Send(OutgoingFrame::Ping(payload))
            },
            AdapterAction::MarketSubscribed(key) => {
                self.phase = Phase::Telling;
                Request::TellSubscribed(key)
            },
            AdapterAction::TradeDeduplicated(key) => {
                self.phase = Phase::Telling;
                Request::TellDeduplicated(key)
            },
            AdapterAction::Publish(event) => {
                self.phase = Phase::Telling;
                self.delay = INITIAL_RECONNECT_DELAY;
                Request::TellData(event)
            },
            AdapterAction::Reconnect { reason } => self.lose(reason),
            AdapterAction::Stop { reason } => self.finish(Err(reason)),
        }
    }

    fn publish(&mut self, reason: String) -> (request: Request)
        ensures
            (final(self)@, request@) == old(self)@.publish(reason@),
        decreases old(self)@.queue.len(),
    {
        let ghost before = self@;
        if self.queue.len() == 0 {
            self.phase = Phase::Lost;
            return Request::TellDisconnected(reason, self.delay);
        }
        let action: AdapterAction = self.queue.remove(0);
        proof {
            assert(action_views(self.queue@) =~= before.queue.drop_first());
            assert(before.queue[0] == action@);
        }
        match action {
            AdapterAction::Publish(event) => {
                self.phase = Phase::Publishing(reason);
                Request::TellData(event)
            },
            _ => self.publish(reason),
        }
    }

    fn after_received(&mut self, received: Result<Option<IncomingFrame>, String>) -> (request:
        Request)
        ensures
            (final(self)@, request@) == old(self)@.after_received(received_view(received)),
    {
        match received {
            Err(error) => self.lose(joined("transport receive failed: ", error.as_str())),
            Ok(None) => self.lose("connection closed by remote peer".to_owned()),
            Ok(Some(frame)) => match frame {
                IncomingFrame::Text(text) => {
                    self.phase = Phase::Asking;
                    Request::AskText(text)
                },
                IncomingFrame::Ping(payload) => {
                    self.phase = Phase::Answering;
                    Request::Send(OutgoingFrame::Pong(payload))
                },
                IncomingFrame::Closed(frame) => self.lose(
                    joined("connection closed: ", frame.as_str()),
                ),
                IncomingFrame::Other => Request::Receive,
            },
        }
    }

    fn after_told(&mut self) -> (request: Request)
        ensures
            (final(self)@, request@) == old(self)@.after_told(),
    {
        let publishing: Option<String> = match &self.phase {
            Phase::Publishing(reason) => Some(reason.clone()),
            _ => None,
        };
        if let Some(reason) = publishing {
            return self.publish(reason);
        }
        match &self.phase {
            Phase::Attempting => {
                self.phase = Phase::Connecting;
                Request::Connect
            },
            Phase::Greeting => {
                self.phase = Phase::Asking;
                Request::AskConnected
            },
            Phase::Lost => {
                self.phase = Phase::Waiting;
                Request::Sleep(self.delay)
            },
            _ => self.perform(),
        }
    }

    fn after_sent(&mut self, result: Result<(), String>) -> (request: Request)
        ensures
            (final(self)@, request@) == old(self)@.after(ReplyView::Sent(result_view(result))),
    {
        let answering: bool = match &self.phase {
            Phase::Answering => true,
            _ => false,
        };
        match result {
            Ok(_) => {
                if answering {
                    self.phase = Phase::Receiving;
                    Request::Receive
                } else {
                    self.perform()
                }
            },
            Err(error) => {
                if answering {
                    self.lose(joined("pong send failed: ", error.as_str()))
                } else {
                    self.lose(joined("transport send failed: ", error.as_str()))
                }
            },
        }
    }

    fn after_actions(&mut self, actions: Vec<AdapterAction>) -> (request: Request)
        ensures
            (final(self)@, request@) == old(self)@.after(
                ReplyView::Actions(action_views(actions@)),
            ),
    {
        self.queue = actions;
        let losing: Option<String> = match &self.phase {
            Phase::Losing(reason) => Some(reason.clone()),
            _ => None,
        };
        match losing {
            Some(reason) => self.publish(reason),
            None => self.perform(),
        }
    }

    fn after_closed(&mut self) -> (request: Request)
        ensures
            (final(self)@, request@) == old(self)@.after(ReplyView::Closed),
    {
        let failure: Option<String> = match &self.phase {
            Phase::Closing(Err(error)) => Some(error.clone()),
            _ => None,
        };
        match failure {
            Some(error) => self.finish(Err(error)),
            None => self.finish(Ok(())),
        }
    }

    /// Takes in what came of the last request, and says what is next.
    pub fn advance(&mut self, reply: Reply) -> (request: Request)
        requires
            old(self)@.expects(reply@),
            old(self)@.valid(),
        ensures
            (final(self)@, request@) == old(self)@.after(reply@),
            final(self)@.valid(),
    {
        let ghost before = self@;
        let ghost model = reply@;
        let request: Request = match reply {
            Reply::Told(Err(error)) => self.finish(Err(error)),
            Reply::Told(Ok(_)) => self.after_told(),
            Reply::Connected(Ok(_)) => {
                self.phase = Phase::Greeting;
                Request::TellConnected
            },
            Reply::Connected(Err(error)) => self.lose(joined("connection failed: ", error.as_str())),
            Reply::Actions(actions) => self.after_actions(actions),
            Reply::Sent(result) => self.after_sent(result),
            Reply::Received(received) => self.after_received(received),
            Reply::Heartbeat => {
                self.phase = Phase::Asking;
                Request::AskHeartbeat
            },
            Reply::Closed => self.after_closed(),
            Reply::Slept => {
                self.delay = if self.delay * 2 < MAX_RECONNECT_DELAY {
                    self.delay * 2
                } else {
                    MAX_RECONNECT_DELAY
                };
                self.phase = Phase::Attempting;
                Request::TellConnecting
            },
            Reply::Shutdown(result) => {
                let receiving: bool = match &self.phase {
                    Phase::Receiving => true,
                    _ => false,
                };
                if receiving {
                    self.phase = Phase::Closing(result);
                    Request::Close
                } else {
                    self.finish(result)
                }
            },
        };
        proof {
            lemma_stays_valid(before, model);
        }
        request
    }
}

proof fn lemma_publish_valid(session: SessionView, reason: Seq<char>)
    requires
        INITIAL_RECONNECT_DELAY <= session.delay <= MAX_RECONNECT_DELAY,
    ensures
        session.publish(reason).0.valid(),
    decreases session.queue.len(),
{
    if session.queue.len() > 0 {
        lemma_publish_valid(
            SessionView { queue: session.queue.drop_first(), ..session },
            reason,
        );
    }
}

/// A session stays valid: the pause before a new attempt never leaves its limits.
pub proof fn lemma_stays_valid(session: SessionView, reply: ReplyView)
    requires
        session.valid(),
        session.expects(reply),
    ensures
        session.after(reply).0.valid(),
{
    match reply {
        ReplyView::Told(Ok(_)) => {
            if let PhaseView::Publishing(reason) = session.phase {
                lemma_publish_valid(session, reason);
            }
        },
        ReplyView::Actions(actions) => {
            if let PhaseView::Losing(reason) = session.phase {
                lemma_publish_valid(SessionView { queue: actions, ..session }, reason);
            }
        },
        _ => {},
    }
}

/// What is told from a state after a loss on, as long as everything that is told is taken,
/// until the pause begins.
pub open spec fn told_after_loss(session: SessionView, request: RequestView) -> Seq<RequestView>
    decreases session.queue.len(), session.telling(),
    via told_after_loss_ends
{
    if session.phase is Publishing {
        let next = session.after(ReplyView::Told(Ok(())));
        seq![request] + told_after_loss(next.0, next.1)
    } else {
        seq![request]
    }
}

#[via_fn]
proof fn told_after_loss_ends(session: SessionView, request: RequestView) {
    if let PhaseView::Publishing(reason) = session.phase {
        lemma_publish_shrinks(session, reason);
    }
}

proof fn lemma_publish_shrinks(session: SessionView, reason: Seq<char>)
    ensures
        session.queue.len() > 0 ==> session.publish(reason).0.queue.len() < session.queue.len(),
    decreases session.queue.len(),
{
    if session.queue.len() > 0 {
        lemma_publish_shrinks(
            SessionView { queue: session.queue.drop_first(), ..session },
            reason,
        );
    }
}

/// The requests that tell of events.
pub open spec fn data_told(events: Seq<EventView>) -> Seq<RequestView> {
    events.map_values(|event: EventView| RequestView::TellData(event))
}

proof fn lemma_published_told(session: SessionView, reason: Seq<char>)
    ensures
        ({
            let next = session.publish(reason);
            told_after_loss(next.0, next.1) == data_told(published(session.queue)).push(
                RequestView::TellDisconnected(reason, session.delay),
            )
        }),
    decreases session.queue.len(),
{
    let next = session.publish(reason);
    if session.queue.len() == 0 {
        assert(data_told(published(session.queue)) =~= Seq::<RequestView>::empty());
        assert(told_after_loss(next.0, next.1) =~= seq![next.1]);
        assert(data_told(published(session.queue)).push(next.1) =~= seq![next.1]);
    } else {
        let rest = SessionView { queue: session.queue.drop_first(), ..session };
        lemma_published_told(rest, reason);
        match session.queue[0] {
            ActionView::Publish(event) => {
                let after = SessionView { phase: PhaseView::Publishing(reason), ..rest };
                assert(next == (after, RequestView::TellData(event)));
                lemma_same_publish(rest, after, reason);
                lemma_publish_shrinks(after, reason);
                assert(data_told(published(session.queue)) =~= seq![RequestView::TellData(event)]
                    + data_told(published(rest.queue)));
                if after.queue.len() == 0 {
                    assert(published(rest.queue) =~= Seq::<EventView>::empty());
                    assert(told_after_loss(after, next.1) =~= data_told(
                        published(session.queue),
                    ).push(RequestView::TellDisconnected(reason, session.delay)));
                } else {
                    let later = after.publish(reason);
                    assert(told_after_loss(after, next.1) =~= seq![next.1] + told_after_loss(
                        later.0,
                        later.1,
                    ));
                    assert(told_after_loss(after, next.1) =~= data_told(
                        published(session.queue),
                    ).push(RequestView::TellDisconnected(reason, session.delay)));
                }
            },
            _ => {},
        }
    }
}

proof fn lemma_same_publish(left: SessionView, right: SessionView, reason: Seq<char>)
    requires
        left.queue == right.queue,
        left.delay == right.delay,
    ensures
        left.publish(reason) == right.publish(reason),
    decreases left.queue.len(),
{
    if left.queue.len() > 0 {
        lemma_same_publish(
            SessionView { queue: left.queue.drop_first(), ..left },
            SessionView { queue: right.queue.drop_first(), ..right },
            reason,
        );
    }
}

/// After a loss, everything that it means for the markets is told, in order, before the
/// loss itself is announced with its reason and the pause that follows.
pub proof fn lemma_markets_invalidated_before_loss(
    session: SessionView,
    reason: Seq<char>,
    actions: Seq<ActionView>,
)
    requires
        session.phase == PhaseView::Losing(reason),
    ensures
        ({
            let next = session.after(ReplyView::Actions(actions));
            told_after_loss(next.0, next.1) == data_told(published(actions)).push(
                RequestView::TellDisconnected(reason, session.delay),
            )
        }),
{
    lemma_published_told(SessionView { queue: actions, ..session }, reason);
}

/// An adapter that asks to stop ends the session with its reason: nothing that it asked for
/// behind is done, and no new attempt is made.
pub proof fn lemma_stop_ends_session(session: SessionView, actions: Seq<ActionView>)
    requires
        session.phase is Asking,
        actions.len() > 0,
        actions[0] is Stop,
    ensures
        session.after(ReplyView::Actions(actions)).1 == RequestView::Finish(
            Err(actions[0]->Stop_reason),
        ),
        session.after(ReplyView::Actions(actions)).0.phase is Finished,
        forall|reply: ReplyView| !(#[trigger] session.after(
            ReplyView::Actions(actions),
        ).0.expects(reply)),
{
}

/// The pauses between failing attempts double up to the longest, and a published event
/// brings them back to the first.
pub proof fn lemma_pauses(session: SessionView, event: EventView, rest: Seq<ActionView>)
    requires
        session.valid(),
    ensures
        session.phase is Waiting ==> session.after(ReplyView::Slept).0.delay == if session.delay
            * 2 <= 30 {
            session.delay * 2
        } else {
            30
        },
        session.phase is Asking ==> session.after(
            ReplyView::Actions(seq![ActionView::Publish(event)] + rest),
        ).0.delay == 2,
        session.phase is Lost ==> session.after(ReplyView::Told(Ok(()))).1 == RequestView::Sleep(
            session.delay,
        ),
{
    let actions = seq![ActionView::Publish(event)] + rest;
    assert(actions[0] == ActionView::Publish(event));
}

/// What is asked of whoever runs the session to do an action.
pub open spec fn request_for(action: ActionView) -> RequestView {
    match action {
        ActionView::SendText(text) => RequestView::Send(OutgoingView::Text(text)),
        ActionView::SendPing(payload) => RequestView::Send(OutgoingView::Ping(payload)),
        ActionView::MarketSubscribed(index) => RequestView::TellSubscribed(index),
        ActionView::TradeDeduplicated(index) => RequestView::TellDeduplicated(index),
        ActionView::Publish(event) => RequestView::TellData(event),
        ActionView::Reconnect { reason } => RequestView::AskDisconnected(reason),
        ActionView::Stop { reason } => RequestView::Finish(Err(reason)),
    }
}

/// What is asked for from a state on, as long as every frame can be sent and everything that
/// is told is taken, until the session waits for something new.
pub open spec fn asked_until_idle(session: SessionView, request: RequestView) -> Seq<RequestView>
    decreases session.queue.len(), 1nat,
{
    if session.phase is Sending || session.phase is Telling {
        let next = if session.phase is Sending {
            session.after(ReplyView::Sent(Ok(())))
        } else {
            session.after(ReplyView::Told(Ok(())))
        };
        if next.0.queue.len() < session.queue.len() {
            seq![request] + asked_until_idle(next.0, next.1)
        } else {
            seq![request, next.1]
        }
    } else {
        seq![request]
    }
}

/// Everything that the adapter asks for is done, once and in order, and the session then
/// waits for the next frame.
pub proof fn lemma_actions_done_in_order(session: SessionView, actions: Seq<ActionView>)
    requires
        session.phase is Asking,
        forall|i: int|
            0 <= i < actions.len() ==> !((#[trigger] actions[i]) is Reconnect)
                && !(actions[i] is Stop),
    ensures
        ({
            let next = session.after(ReplyView::Actions(actions));
            asked_until_idle(next.0, next.1) == Seq::new(
                actions.len(),
                |i: int| request_for(actions[i]),
            ).push(RequestView::Receive)
        }),
{
    lemma_queue_done_in_order(SessionView { queue: actions, ..session });
}

proof fn lemma_queue_done_in_order(session: SessionView)
    requires
        forall|i: int|
            0 <= i < session.queue.len() ==> !((#[trigger] session.queue[i]) is Reconnect)
                && !(session.queue[i] is Stop),
    ensures
        ({
            let next = session.perform();
            asked_until_idle(next.0, next.1) == Seq::new(
                session.queue.len(),
                |i: int| request_for(session.queue[i]),
            ).push(RequestView::Receive)
        }),
    decreases session.queue.len(),
{
    let next = session.perform();
    let all = Seq::new(session.queue.len(), |i: int| request_for(session.queue[i]));
    if session.queue.len() == 0 {
        assert(asked_until_idle(next.0, next.1) =~= all.push(RequestView::Receive));
    } else {
        let rest = session.queue.drop_first();
        assert(next.0.queue == rest);
        assert(next.1 == request_for(session.queue[0]));
        assert forall|i: int| 0 <= i < rest.len() implies !((#[trigger] rest[i]) is Reconnect)
            && !(rest[i] is Stop) by {
            assert(rest[i] == session.queue[i + 1]);
        }
        lemma_queue_done_in_order(next.0);
        let others = Seq::new(rest.len(), |i: int| request_for(rest[i]));
        assert(all =~= seq![next.1] + others);
        let later = next.0.perform();
        if rest.len() == 0 {
            assert(others.push(RequestView::Receive) =~= seq![RequestView::Receive]);
            assert(asked_until_idle(next.0, next.1) =~= all.push(RequestView::Receive));
        } else {
            assert(later.0.queue == rest.drop_first());
            assert(asked_until_idle(next.0, next.1) =~= seq![next.1] + asked_until_idle(
                later.0,
                later.1,
            ));
            assert(seq![next.1] + others.push(RequestView::Receive) =~= all.push(
                RequestView::Receive,
            ));
        }
    }
}

/// What a frame leads to: a text goes to the adapter as it came, a ping is answered with its
/// own payload and nothing else happens, and what ends the connection loses it with a reason
/// that says how; any other frame is passed over.
pub proof fn lemma_frames_answered(
    session: SessionView,
    text: Seq<char>,
    payload: Seq<u8>,
    detail: Seq<char>,
)
    requires
        session.phase is Receiving,
    ensures
        session.after(ReplyView::Received(Ok(Some(IncomingView::Text(text))))).1
            == RequestView::AskText(text),
        session.after(ReplyView::Received(Ok(Some(IncomingView::Ping(payload))))).1
            == RequestView::Send(OutgoingView::Pong(payload)),
        session.after(ReplyView::Received(Ok(Some(IncomingView::Ping(payload))))).0.after(
            ReplyView::Sent(Ok(())),
        ) == (session, RequestView::Receive),
        session.after(ReplyView::Received(Ok(Some(IncomingView::Other)))) == (
            session,
            RequestView::Receive,
        ),
        session.after(ReplyView::Received(Ok(Some(IncomingView::Closed(detail))))).1
            == RequestView::AskDisconnected("connection closed: "@ + detail),
        session.after(ReplyView::Received(Ok(None))).1 == RequestView::AskDisconnected(
            "connection closed by remote peer"@,
        ),
        session.after(ReplyView::Received(Err(detail))).1 == RequestView::AskDisconnected(
            "transport receive failed: "@ + detail,
        ),
        session.after(ReplyView::Heartbeat).1 == RequestView::AskHeartbeat,
        session.after(ReplyView::Heartbeat).0.phase is Asking,
{
}

/// A connection that is lost is asked for again: the adapter is asked what the loss means,
/// the loss is announced with the pause, and after the pause a new attempt is announced and
/// made.
pub proof fn lemma_loss_leads_to_new_attempt(session: SessionView, reason: Seq<char>)
    requires
        session.phase == PhaseView::Losing(reason),
    ensures
        ({
            let announced = session.after(ReplyView::Actions(Seq::empty()));
            let pausing = announced.0.after(ReplyView::Told(Ok(())));
            let trying = pausing.0.after(ReplyView::Slept);
            let connecting = trying.0.after(ReplyView::Told(Ok(())));
            let greeting = connecting.0.after(ReplyView::Connected(Ok(())));
            let asking = greeting.0.after(ReplyView::Told(Ok(())));
            &&& announced.1 == RequestView::TellDisconnected(reason, session.delay)
            &&& pausing.1 == RequestView::Sleep(session.delay)
            &&& trying.1 == RequestView::TellConnecting
            &&& connecting.1 == RequestView::Connect
            &&& greeting.1 == RequestView::TellConnected
            &&& asking.1 == RequestView::AskConnected
            &&& asking.0.phase is Asking
        }),
{
}

/// What fails loses the connection with a reason that says what failed, and an adapter that
/// asks for a new connection loses it with its own; nothing of what was still to be done is
/// done.
pub proof fn lemma_failures_lose_connection(
    session: SessionView,
    error: Seq<char>,
    rest: Seq<ActionView>,
)
    ensures
        session.phase is Connecting ==> session.after(ReplyView::Connected(Err(error))).1
            == RequestView::AskDisconnected("connection failed: "@ + error),
        session.phase is Sending ==> session.after(ReplyView::Sent(Err(error))).1
            == RequestView::AskDisconnected("transport send failed: "@ + error)
            && session.after(ReplyView::Sent(Err(error))).0.queue.len() == 0,
        session.phase is Answering ==> session.after(ReplyView::Sent(Err(error))).1
            == RequestView::AskDisconnected("pong send failed: "@ + error),
        session.phase is Asking ==> ({
            let next = session.after(
                ReplyView::Actions(seq![ActionView::Reconnect { reason: error }] + rest),
            );
            next.1 == RequestView::AskDisconnected(error) && next.0.queue.len() == 0
        }),
        session.expects(ReplyView::Told(Err(error))) ==> session.after(
            ReplyView::Told(Err(error)),
        ).1 == RequestView::Finish(Err(error)),
{
    let actions = seq![ActionView::Reconnect { reason: error }] + rest;
    assert(actions[0] == ActionView::Reconnect { reason: error });
}

/// The end can be asked for while the session waits. An open connection is closed first; the
/// session then ends with what the end was asked for with.
pub proof fn lemma_shutdown_ends_session(session: SessionView, result: Result<(), Seq<char>>)
    requires
        session.expects(ReplyView::Shutdown(result)),
    ensures
        ({
            let next = session.after(ReplyView::Shutdown(result));
            &&& session.phase is Receiving ==> next.1 == RequestView::Close && next.0.after(
                ReplyView::Closed,
            ).1 == RequestView::Finish(result)
            &&& !(session.phase is Receiving) ==> next.1 == RequestView::Finish(result)
        }),
{
}

/// The pause before the attempt after a number of attempts that failed one after the other
/// without a published event between them.
pub open spec fn pause_after(failures: nat) -> nat
    decreases failures,
{
    if failures == 0 {
        2
    } else if pause_after((failures - 1) as nat) * 2 < 30 {
        pause_after((failures - 1) as nat) * 2
    } else {
        30
    }
}

/// The state of a session that has failed to connect a number of times since it began.
pub open spec fn after_failures(failures: nat, error: Seq<char>) -> SessionView
    decreases failures,
{
    if failures == 0 {
        SessionView::fresh()
    } else {
        let connecting = after_failures((failures - 1) as nat, error).after(
            ReplyView::Told(Ok(())),
        );
        let losing = connecting.0.after(ReplyView::Connected(Err(error)));
        let announced = losing.0.after(ReplyView::Actions(Seq::empty()));
        let pausing = announced.0.after(ReplyView::Told(Ok(())));
        pausing.0.after(ReplyView::Slept).0
    }
}

/// A session begins by announcing an attempt and connecting. As long as every attempt fails, it
/// tries again after pauses of 2, 4, 8, 16 and then 30 seconds, however often.
pub proof fn lemma_failing_attempts_pause(failures: nat, error: Seq<char>)
    ensures
        ({
            let session = after_failures(failures, error);
            let connecting = session.after(ReplyView::Told(Ok(())));
            let losing = connecting.0.after(ReplyView::Connected(Err(error)));
            let announced = losing.0.after(ReplyView::Actions(Seq::empty()));
            let pausing = announced.0.after(ReplyView::Told(Ok(())));
            let reason = "connection failed: "@ + error;
            &&& session.phase is Attempting
            &&& session.delay == pause_after(failures)
            &&& connecting.1 == RequestView::Connect
            &&& losing.1 == RequestView::AskDisconnected(reason)
            &&& announced.1 == RequestView::TellDisconnected(reason, session.delay)
            &&& pausing.1 == RequestView::Sleep(session.delay)
        }),
        pause_after(0) == 2,
        pause_after(1) == 4,
        pause_after(2) == 8,
        pause_after(3) == 16,
        failures >= 4 ==> pause_after(failures) == 30,
    decreases failures,
{
    reveal_with_fuel(pause_after, 5);
    if failures > 0 {
        lemma_failing_attempts_pause((failures - 1) as nat, error);
    }
}

} // verus!
