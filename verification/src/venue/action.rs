//! What an adapter asks of the session that runs it.
use vstd::prelude::*;

use crate::domain::{MarketCoin, Venue};
use crate::market_data::event::EventView;
use crate::market_data::{LocalObservationTime, NormalizedMarketEvent};
use crate::venue::clock::ObservationClock;

verus! {

/// A market by its place among the markets of an adapter.
#[derive(Clone, Copy, Debug, Eq, PartialEq, Structural)]
pub struct MarketKey(pub usize);

impl MarketKey {
    pub fn new(index: usize) -> (key: Self)
        ensures
            key.0 == index,
    {
        MarketKey(index)
    }

    pub fn index(self) -> (index: usize)
        ensures
            index == self.0,
    {
        self.0
    }
}

/// What an adapter asks for.
#[allow(inconsistent_fields)]
#[derive(Debug, Eq, PartialEq)]
pub enum AdapterAction {
    SendText(String),
    SendPing(Vec<u8>),
    MarketSubscribed(MarketKey),
    TradeDeduplicated(MarketKey),
    Publish(NormalizedMarketEvent),
    Reconnect { reason: String },
    Stop { reason: String },
}

/// The model of `AdapterAction`.
#[allow(inconsistent_fields)]
pub enum ActionView {
    SendText(Seq<char>),
    SendPing(Seq<u8>),
    MarketSubscribed(nat),
    TradeDeduplicated(nat),
    Publish(EventView),
    Reconnect { reason: Seq<char> },
    Stop { reason: Seq<char> },
}

impl View for AdapterAction {
    type V = ActionView;

    open spec fn view(&self) -> ActionView {
        match *self {
            AdapterAction::SendText(text) => ActionView::SendText(text@),
            AdapterAction::SendPing(payload) => ActionView::SendPing(payload@),
            AdapterAction::MarketSubscribed(key) => ActionView::MarketSubscribed(key.0 as nat),
            AdapterAction::TradeDeduplicated(key) => ActionView::TradeDeduplicated(key.0 as nat),
            AdapterAction::Publish(event) => ActionView::Publish(event@),
            AdapterAction::Reconnect { reason } => ActionView::Reconnect { reason: reason@ },
            AdapterAction::Stop { reason } => ActionView::Stop { reason: reason@ },
        }
    }
}

impl ActionView {
    /// Whether the action names no market outside the first `markets`.
    pub open spec fn within(self, markets: nat) -> bool {
        match self {
            ActionView::MarketSubscribed(index) => index < markets,
            ActionView::TradeDeduplicated(index) => index < markets,
            _ => true,
        }
    }
}

/// The models of actions.
pub open spec fn action_views(actions: Seq<AdapterAction>) -> Seq<ActionView> {
    actions.map_values(|action: AdapterAction| action@)
}

/// Whether the actions name no market outside the first `markets`.
pub open spec fn actions_within(actions: Seq<ActionView>, markets: nat) -> bool {
    forall|i: int| 0 <= i < actions.len() ==> (#[trigger] actions[i]).within(markets)
}

/// Whether the processing of an event, if one is published, was complete at a reading of the
/// clock.
pub open spec fn completion_read<C: ObservationClock>(action: ActionView, clock: C) -> bool {
    action matches ActionView::Publish(event) ==> (event.completion() matches Some(time)
        ==> clock.reads(time))
}

/// Whether the processing of every event that is published was complete at a reading of the
/// clock.
pub open spec fn completions_read<C: ObservationClock>(actions: Seq<ActionView>, clock: C) -> bool {
    forall|i: int| 0 <= i < actions.len() ==> completion_read(#[trigger] actions[i], clock)
}

/// What never changes of an adapter: its venue, its endpoint, the coins of its markets
/// by their keys, and the pause between two heartbeats in seconds, if there are any.
pub struct AdapterIdentity {
    pub venue: Venue,
    pub endpoint: Seq<char>,
    pub coins: Seq<Seq<char>>,
    pub heartbeat: Option<u64>,
}

/// Turns the messages of one venue into market events.
pub trait MarketDataAdapter: Sized {
    /// What never changes of the adapter.
    spec fn identity_of(&self) -> AdapterIdentity;

    /// Whether the adapter is in a state that can be reached.
    spec fn well_formed(&self) -> bool;

    /// Whether the adapter comes from one state to another, and asks for the actions, once a
    /// connection is there.
    spec fn answers_connected(before: Self, after: Self, actions: Seq<ActionView>) -> bool;

    /// Whether the adapter comes from one state to another, and asks for the actions, at a
    /// heartbeat.
    spec fn answers_heartbeat(before: Self, after: Self, actions: Seq<ActionView>) -> bool;

    /// Whether the adapter comes from one state to another, and asks for the actions, once a
    /// text message is there.
    spec fn answers_text(
        before: Self,
        text: Seq<char>,
        local_receive: LocalObservationTime,
        after: Self,
        actions: Seq<ActionView>,
    ) -> bool;

    /// Whether the adapter comes from one state to another, and asks for the actions, once a
    /// connection is gone.
    spec fn answers_disconnected(
        before: Self,
        reason: Seq<char>,
        observed_at: LocalObservationTime,
        after: Self,
        actions: Seq<ActionView>,
    ) -> bool;

    fn venue(&self) -> (venue: Venue)
        ensures
            venue == self.identity_of().venue,
    ;

    fn endpoint(&self) -> (endpoint: &str)
        ensures
            endpoint@ == self.identity_of().endpoint,
    ;

    /// The pause between two heartbeats in seconds, if there are any.
    fn heartbeat_interval(&self) -> (seconds: Option<u64>)
        ensures
            seconds == self.identity_of().heartbeat,
    ;

    /// What is due once a connection is there.
    fn on_connected(&mut self) -> (actions: Vec<AdapterAction>)
        requires
            old(self).well_formed(),
        ensures
            final(self).well_formed(),
            final(self).identity_of() == old(self).identity_of(),
            actions_within(action_views(actions@), old(self).identity_of().coins.len()),
            Self::answers_connected(*old(self), *final(self), action_views(actions@)),
    ;

    /// What is due at a heartbeat.
    fn on_heartbeat(&mut self) -> (actions: Vec<AdapterAction>)
        requires
            old(self).well_formed(),
        ensures
            final(self).well_formed(),
            final(self).identity_of() == old(self).identity_of(),
            actions_within(action_views(actions@), old(self).identity_of().coins.len()),
            Self::answers_heartbeat(*old(self), *final(self), action_views(actions@)),
    ;

    /// What is due once a text message is there.
    fn on_text<C: ObservationClock>(
        &mut self,
        text: &str,
        local_receive: LocalObservationTime,
        clock: &C,
    ) -> (actions: Vec<AdapterAction>)
        requires
            old(self).well_formed(),
        ensures
            final(self).well_formed(),
            final(self).identity_of() == old(self).identity_of(),
            actions_within(action_views(actions@), old(self).identity_of().coins.len()),
            completions_read(action_views(actions@), *clock),
            Self::answers_text(
                *old(self),
                text@,
                local_receive,
                *final(self),
                action_views(actions@),
            ),
    ;

    /// What is due once a connection is gone.
    fn on_disconnected(&mut self, reason: &str, observed_at: LocalObservationTime) -> (actions: Vec<
        AdapterAction,
    >)
        requires
            old(self).well_formed(),
        ensures
            final(self).well_formed(),
            final(self).identity_of() == old(self).identity_of(),
            actions_within(action_views(actions@), old(self).identity_of().coins.len()),
            Self::answers_disconnected(
                *old(self),
                reason@,
                observed_at,
                *final(self),
                action_views(actions@),
            ),
    ;

    /// The coin of a market.
    fn market_coin(&self, market: MarketKey) -> (coin: Option<&MarketCoin>)
        requires
            self.well_formed(),
        ensures
            match coin {
                Some(coin) => market.0 < self.identity_of().coins.len() && coin@ == self.identity_of().coins[market.0 as int],
                None => market.0 >= self.identity_of().coins.len(),
            },
    ;
}

} // verus!
