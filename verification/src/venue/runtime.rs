//! A live session: an adapter, run by the rules of the session.
use vstd::prelude::*;

use crate::domain::{MarketCoin, Venue};
use crate::market_data::event::EventView;
use crate::market_data::{LocalObservationTime, NormalizedMarketEvent};
use crate::venue::action::{
    action_views, actions_within, completions_read, ActionView, AdapterAction, AdapterIdentity,
    MarketDataAdapter, MarketKey,
};
use crate::venue::clock::{MonotonicClock, ObservationClock};
use crate::venue::session::{
    OutgoingFrame, OutgoingView, PhaseView, Reply, ReplyView, Request, RequestView, Session,
    SessionView,
};

verus! {

/// What a session tells.
#[allow(inconsistent_fields)]
#[derive(Debug, Eq, PartialEq)]
pub enum LiveSessionEvent {
    Connecting { venue: Venue, endpoint: String },
    Connected { venue: Venue },
    MarketSubscribed { venue: Venue, market_coin: MarketCoin },
    MarketData { event: NormalizedMarketEvent },
    TradeDeduplicated { venue: Venue, market_coin: MarketCoin },
    /// The pause before the next attempt is in seconds.
    Disconnected { venue: Venue, reason: String, retry_in: u64 },
}

/// The model of `LiveSessionEvent`.
#[allow(inconsistent_fields)]
pub enum LiveEventView {
    Connecting { venue: Venue, endpoint: Seq<char> },
    Connected { venue: Venue },
    MarketSubscribed { venue: Venue, coin: Seq<char> },
    MarketData { event: EventView },
    TradeDeduplicated { venue: Venue, coin: Seq<char> },
    Disconnected { venue: Venue, reason: Seq<char>, retry_in: u64 },
}

impl View for LiveSessionEvent {
    type V = LiveEventView;

    open spec fn view(&self) -> LiveEventView {
        match *self {
            LiveSessionEvent::Connecting { venue, endpoint } => LiveEventView::Connecting {
                venue,
                endpoint: endpoint@,
            },
            LiveSessionEvent::Connected { venue } => LiveEventView::Connected { venue },
            LiveSessionEvent::MarketSubscribed { venue, market_coin } =>
                LiveEventView::MarketSubscribed { venue, coin: market_coin@ },
            LiveSessionEvent::MarketData { event } => LiveEventView::MarketData { event: event@ },
            LiveSessionEvent::TradeDeduplicated { venue, market_coin } =>
                LiveEventView::TradeDeduplicated { venue, coin: market_coin@ },
            LiveSessionEvent::Disconnected { venue, reason, retry_in } =>
                LiveEventView::Disconnected { venue, reason: reason@, retry_in },
        }
    }
}

/// What is asked of the host of a session.
#[derive(Debug, Eq, PartialEq)]
pub enum HostRequest {
    Emit(LiveSessionEvent),
    Connect(String),
    Send(OutgoingFrame),
    /// Wait for a frame, a heartbeat or the end.
    Receive,
    Close,
    /// Wait for a number of seconds, or for the end.
    Sleep(u64),
    Finish(Result<(), String>),
}

/// The model of `HostRequest`.
pub enum HostView {
    Emit(LiveEventView),
    Connect(Seq<char>),
    Send(OutgoingView),
    Receive,
    Close,
    Sleep(u64),
    Finish(Result<(), Seq<char>>),
}

impl View for HostRequest {
    type V = HostView;

    open spec fn view(&self) -> HostView {
        match *self {
            HostRequest::Emit(event) => HostView::Emit(event@),
            HostRequest::Connect(endpoint) => HostView::Connect(endpoint@),
            HostRequest::Send(frame) => HostView::Send(frame@),
            HostRequest::Receive => HostView::Receive,
            HostRequest::Close => HostView::Close,
            HostRequest::Sleep(seconds) => HostView::Sleep(seconds),
            HostRequest::Finish(result) => HostView::Finish(
                crate::venue::session::result_view(result),
            ),
        }
    }
}

/// Whether a request is for the adapter.
pub open spec fn for_adapter(request: RequestView) -> bool {
    request is AskConnected || request is AskHeartbeat || request is AskText || request
        is AskDisconnected
}

/// A request of the session, put to the host.
pub open spec fn host_view(identity: AdapterIdentity, request: RequestView) -> HostView {
    match request {
        RequestView::TellConnecting => HostView::Emit(
            LiveEventView::Connecting { venue: identity.venue, endpoint: identity.endpoint },
        ),
        RequestView::Connect => HostView::Connect(identity.endpoint),
        RequestView::TellConnected => HostView::Emit(
            LiveEventView::Connected { venue: identity.venue },
        ),
        RequestView::TellSubscribed(index) => HostView::Emit(
            LiveEventView::MarketSubscribed {
                venue: identity.venue,
                coin: identity.coins[index as int],
            },
        ),
        RequestView::TellDeduplicated(index) => HostView::Emit(
            LiveEventView::TradeDeduplicated {
                venue: identity.venue,
                coin: identity.coins[index as int],
            },
        ),
        RequestView::TellData(event) => HostView::Emit(LiveEventView::MarketData { event }),
        RequestView::TellDisconnected(reason, retry_in) => HostView::Emit(
            LiveEventView::Disconnected { venue: identity.venue, reason, retry_in },
        ),
        RequestView::Send(frame) => HostView::Send(frame),
        RequestView::Close => HostView::Close,
        RequestView::Sleep(seconds) => HostView::Sleep(seconds),
        RequestView::Finish(result) => HostView::Finish(result),
        _ => HostView::Receive,
    }
}

/// Whether the adapter answers a request of the session with the actions, which are about its
/// own markets, and comes from one state to another by that. A text goes to it as it came, and
/// so does the reason of a loss; when either was observed, and when processing was complete,
/// is read off the clock.
pub open spec fn answered<A: MarketDataAdapter>(
    clock: MonotonicClock,
    before: A,
    request: RequestView,
    after: A,
    actions: Seq<ActionView>,
) -> bool {
    &&& actions_within(actions, before.identity_of().coins.len())
    &&& match request {
        RequestView::AskConnected => A::answers_connected(before, after, actions),
        RequestView::AskHeartbeat => A::answers_heartbeat(before, after, actions),
        RequestView::AskText(text) => {
            &&& completions_read(actions, clock)
            &&& exists|local_receive: LocalObservationTime|
                clock.reads(local_receive) && #[trigger] A::answers_text(
                    before,
                    text,
                    local_receive,
                    after,
                    actions,
                )
        },
        RequestView::AskDisconnected(reason) => exists|observed_at: LocalObservationTime|
            clock.reads(observed_at) && #[trigger] A::answers_disconnected(
                before,
                reason,
                observed_at,
                after,
                actions,
            ),
        _ => false,
    }
}

/// Whether session and adapter come from one state and request to another by asking the
/// adapter what is due after a loss, where that is requested.
pub open spec fn loss_settled<A: MarketDataAdapter>(
    clock: MonotonicClock,
    before: SessionView,
    adapter: A,
    request: RequestView,
    after: SessionView,
    adapter_after: A,
    last: RequestView,
) -> bool {
    if request is AskDisconnected {
        exists|actions: Seq<ActionView>|
            answered(clock, adapter, request, adapter_after, actions) && #[trigger] before.after(
                ReplyView::Actions(actions),
            ) == (after, last)
    } else {
        before == after && adapter == adapter_after && request == last
    }
}

/// Whether session and adapter come from one state and request to another by asking the
/// adapter what is due, where that is requested: the session goes on with the actions that the
/// adapter asked for.
pub open spec fn settled<A: MarketDataAdapter>(
    clock: MonotonicClock,
    before: SessionView,
    adapter: A,
    request: RequestView,
    after: SessionView,
    adapter_after: A,
    last: RequestView,
) -> bool {
    if for_adapter(request) && !(request is AskDisconnected) {
        exists|actions: Seq<ActionView>, between: A| #[trigger]
            answered(clock, adapter, request, between, actions) && loss_settled(
                clock,
                before.after(ReplyView::Actions(actions)).0,
                between,
                before.after(ReplyView::Actions(actions)).1,
                after,
                adapter_after,
                last,
            )
    } else {
        loss_settled(clock, before, adapter, request, after, adapter_after, last)
    }
}

/// Whether a request names no market outside the first `markets`.
pub open spec fn request_within(request: RequestView, markets: nat) -> bool {
    match request {
        RequestView::TellSubscribed(index) => index < markets,
        RequestView::TellDeduplicated(index) => index < markets,
        _ => true,
    }
}

proof fn lemma_publish_within(session: SessionView, reason: Seq<char>, markets: nat)
    requires
        actions_within(session.queue, markets),
    ensures
        actions_within(session.publish(reason).0.queue, markets),
        request_within(session.publish(reason).1, markets),
        !for_adapter(session.publish(reason).1),
    decreases session.queue.len(),
{
    if session.queue.len() > 0 {
        lemma_publish_within(
            SessionView { queue: session.queue.drop_first(), ..session },
            reason,
            markets,
        );
    }
}

proof fn lemma_after_within(session: SessionView, reply: ReplyView, markets: nat)
    requires
        actions_within(session.queue, markets),
        reply matches ReplyView::Actions(actions) ==> actions_within(actions, markets),
    ensures
        actions_within(session.after(reply).0.queue, markets),
        request_within(session.after(reply).1, markets),
        session.phase is Losing && reply is Actions ==> !for_adapter(session.after(reply).1),
        session.phase is Asking && reply is Actions && for_adapter(session.after(reply).1)
            ==> session.after(reply).1 is AskDisconnected && session.after(reply).0.phase is Losing,
        session.expects(reply) && for_adapter(session.after(reply).1) ==> if session.after(reply).1
            is AskDisconnected {
            session.after(reply).0.phase is Losing
        } else {
            session.after(reply).0.phase is Asking
        },
{
    match reply {
        ReplyView::Told(Ok(_)) => {
            if let PhaseView::Publishing(reason) = session.phase {
                lemma_publish_within(session, reason, markets);
            }
        },
        ReplyView::Actions(actions) => {
            if let PhaseView::Losing(reason) = session.phase {
                lemma_publish_within(SessionView { queue: actions, ..session }, reason, markets);
            } else if actions.len() > 0 {
                assert(actions[0].within(markets));
            }
        },
        _ => {
            if session.queue.len() > 0 {
                assert(session.queue[0].within(markets));
            }
        },
    }
}

/// A live session of one adapter.
pub struct LiveMarketDataSession<A: MarketDataAdapter> {
    adapter: A,
    clock: MonotonicClock,
    session: Session,
}

impl<A: MarketDataAdapter> LiveMarketDataSession<A> {
    /// The state of the session.
    pub closed spec fn state(self) -> SessionView {
        self.session@
    }

    /// The adapter in its present state.
    pub closed spec fn adapter_state(self) -> A {
        self.adapter
    }

    /// The clock of the session.
    pub closed spec fn clock(self) -> MonotonicClock {
        self.clock
    }

    /// What never changes of the adapter.
    pub closed spec fn identity(self) -> AdapterIdentity {
        self.adapter.identity_of()
    }

    /// The adapter and the session are sound, and what is still to be done is about markets
    /// of the adapter.
    pub closed spec fn well_formed(self) -> bool {
        &&& self.adapter.well_formed()
        &&& self.session@.valid()
        &&& actions_within(self.session@.queue, self.adapter.identity_of().coins.len())
    }

    /// A new session, and the first thing that is asked of its host.
    pub fn new(adapter: A, clock: MonotonicClock) -> (result: (Self, HostRequest))
        requires
            adapter.well_formed(),
        ensures
            result.0.well_formed(),
            result.0.state() == SessionView::fresh(),
            result.0.adapter_state() == adapter,
            result.0.clock() == clock,
            result.0.identity() == adapter.identity_of(),
            result.1@ == host_view(adapter.identity_of(), RequestView::TellConnecting),
    {
        let (session, request) = Session::begin();
        let live = LiveMarketDataSession { adapter, clock, session };
        let host = live.put_to_host(request);
        (live, host)
    }

    /// The pause between two heartbeats in seconds, if there are any.
    pub fn heartbeat_interval(&self) -> (seconds: Option<u64>)
        ensures
            seconds == self.identity().heartbeat,
    {
        self.adapter.heartbeat_interval()
    }

    fn coin_of(&self, key: MarketKey) -> (coin: MarketCoin)
        requires
            self.adapter.well_formed(),
            key.0 < self.identity().coins.len(),
        ensures
            coin@ == self.identity().coins[key.0 as int],
    {
        match self.adapter.market_coin(key) {
            Some(coin) => coin.clone(),
            None => {
                proof {
                    assert(false);
                }
                vstd::pervasive::unreached()
            },
        }
    }

    fn put_to_host(&self, request: Request) -> (host: HostRequest)
        requires
            self.adapter.well_formed(),
            !for_adapter(request@),
            request_within(request@, self.identity().coins.len()),
        ensures
            host@ == host_view(self.identity(), request@),
    {
        let venue: Venue = self.adapter.venue();
        match request {
            Request::TellConnecting => HostRequest::Emit(
                LiveSessionEvent::Connecting {
                    venue,
                    endpoint: self.adapter.endpoint().to_owned(),
                },
            ),
            Request::Connect => HostRequest::Connect(self.adapter.endpoint().to_owned()),
            Request::TellConnected => HostRequest::Emit(LiveSessionEvent::Connected { venue }),
            Request::TellSubscribed(key) => HostRequest::Emit(
                LiveSessionEvent::MarketSubscribed { venue, market_coin: self.coin_of(key) },
            ),
            Request::TellDeduplicated(key) => HostRequest::Emit(
                LiveSessionEvent::TradeDeduplicated { venue, market_coin: self.coin_of(key) },
            ),
            Request::TellData(event) => HostRequest::Emit(LiveSessionEvent::MarketData { event }),
            Request::TellDisconnected(reason, retry_in) => HostRequest::Emit(
                LiveSessionEvent::Disconnected { venue, reason, retry_in },
            ),
            Request::Send(frame) => HostRequest::Send(frame),
            Request::Receive => HostRequest::Receive,
            Request::Close => HostRequest::Close,
            Request::Sleep(seconds) => HostRequest::Sleep(seconds),
            Request::Finish(result) => HostRequest::Finish(result),
            _ => HostRequest::Receive,
        }
    }

    fn settle_loss(&mut self, request: Request) -> (host: HostRequest)
        requires
            old(self).well_formed(),
            request@ is AskDisconnected ==> old(self).state().phase is Losing,
            !(request@ is AskDisconnected) ==> !for_adapter(request@),
            request_within(request@, old(self).identity().coins.len()),
        ensures
            final(self).well_formed(),
            final(self).identity() == old(self).identity(),
            final(self).clock() == old(self).clock(),
            exists|last: RequestView|
                host@ == host_view(old(self).identity(), last) && #[trigger] loss_settled(
                    old(self).clock(),
                    old(self).state(),
                    old(self).adapter_state(),
                    request@,
                    final(self).state(),
                    final(self).adapter_state(),
                    last,
                ),
    {
        let ghost before = self.state();
        let ghost adapter = self.adapter_state();
        let ghost identity = self.identity();
        let ghost model = request@;
        match request {
            Request::AskDisconnected(reason) => {
                let observed_at: LocalObservationTime = self.clock.now();
                let actions = self.adapter.on_disconnected(reason.as_str(), observed_at);
                let ghost views = action_views(actions@);
                let next = self.session.advance(Reply::Actions(actions));
                proof {
                    lemma_after_within(before, ReplyView::Actions(views), identity.coins.len());
                    assert(A::answers_disconnected(
                        adapter,
                        model->AskDisconnected_0,
                        observed_at,
                        self.adapter_state(),
                        views,
                    ));
                    assert(answered(self.clock(), adapter, model, self.adapter_state(), views));
                    assert(before.after(ReplyView::Actions(views)) == (self.state(), next@));
                    assert(loss_settled(
                        self.clock(),
                        before,
                        adapter,
                        model,
                        self.state(),
                        self.adapter_state(),
                        next@,
                    ));
                }
                self.put_to_host(next)
            },
            other => {
                assert(loss_settled(
                    self.clock(),
                    before,
                    adapter,
                    model,
                    self.state(),
                    self.adapter_state(),
                    model,
                ));
                self.put_to_host(other)
            },
        }
    }

    /// Takes in what came of the last request, asks the adapter where that is due, and says
    /// what is next.
    pub fn advance(&mut self, reply: Reply) -> (host: HostRequest)
        requires
            old(self).well_formed(),
            old(self).state().expects(reply@),
            !(reply@ is Actions),
        ensures
            final(self).well_formed(),
            final(self).identity() == old(self).identity(),
            final(self).clock() == old(self).clock(),
            exists|last: RequestView|
                host@ == host_view(old(self).identity(), last) && #[trigger] settled(
                    old(self).clock(),
                    old(self).state().after(reply@).0,
                    old(self).adapter_state(),
                    old(self).state().after(reply@).1,
                    final(self).state(),
                    final(self).adapter_state(),
                    last,
                ),
    {
        let ghost start = self.state();
        let ghost adapter = self.adapter_state();
        let ghost identity = self.identity();
        let ghost model = reply@;
        let ghost markets = identity.coins.len();
        let request: Request = self.session.advance(reply);
        let ghost middle = self.state();
        let ghost asked = request@;
        proof {
            lemma_after_within(start, model, markets);
        }
        let actions: Option<Vec<AdapterAction>> = match &request {
            Request::AskConnected => Some(self.adapter.on_connected()),
            Request::AskHeartbeat => Some(self.adapter.on_heartbeat()),
            Request::AskText(text) => {
                let local_receive: LocalObservationTime = self.clock.now();
                let actions = self.adapter.on_text(text.as_str(), local_receive, &self.clock);
                assert(A::answers_text(
                    adapter,
                    asked->AskText_0,
                    local_receive,
                    self.adapter_state(),
                    action_views(actions@),
                ));
                Some(actions)
            },
            _ => None,
        };
        let ghost between = self.adapter_state();
        match actions {
            Some(actions) => {
                let ghost views = action_views(actions@);
                proof {
                    assert(answered(self.clock(), adapter, asked, between, views));
                    lemma_after_within(middle, ReplyView::Actions(views), markets);
                }
                let next: Request = self.session.advance(Reply::Actions(actions));
                let ghost following = next@;
                let ghost state = self.state();
                let host = self.settle_loss(next);
                proof {
                    let last = choose|last: RequestView|
                        host@ == host_view(identity, last) && #[trigger] loss_settled(
                            self.clock(),
                            state,
                            between,
                            following,
                            self.state(),
                            self.adapter_state(),
                            last,
                        );
                    assert(middle.after(ReplyView::Actions(views)) == (state, following));
                    assert(settled(
                        self.clock(),
                        middle,
                        adapter,
                        asked,
                        self.state(),
                        self.adapter_state(),
                        last,
                    ));
                }
                host
            },
            None => {
                let host = self.settle_loss(request);
                proof {
                    let last = choose|last: RequestView|
                        host@ == host_view(identity, last) && #[trigger] loss_settled(
                            self.clock(),
                            middle,
                            adapter,
                            asked,
                            self.state(),
                            self.adapter_state(),
                            last,
                        );
                    assert(settled(
                        self.clock(),
                        middle,
                        adapter,
                        asked,
                        self.state(),
                        self.adapter_state(),
                        last,
                    ));
                }
                host
            },
        }
    }
}

} // verus!
