use market_capture::domain::{MarketCoin, Venue};
use market_capture::market_data::NormalizedMarketEvent;
use market_capture::venue::clock::MonotonicClock;
use market_capture::venue::deduplication::{BoundedDeduplicator, DeduplicationResult};
use market_capture::venue::hyperliquid::HyperliquidAdapter;
use market_capture::venue::lighter::metadata::LighterMarket;
use market_capture::venue::lighter::LighterAdapter;
use market_capture::venue::runtime::{HostRequest, LiveMarketDataSession, LiveSessionEvent};
use market_capture::venue::session::{IncomingFrame, OutgoingFrame, Reply};

const SNAPSHOT: &str = r#"{"channel":"l2Book","data":{"coin":"BTC","time":10,"levels":[[{"px":"100","sz":"1","n":2}],[{"px":"101","sz":"2","n":1}]]}}"#;
const TRADES: &str = r#"{"channel":"trades","data":[{"coin":"BTC","side":"B","px":"100","sz":"1","hash":"0x1","time":10,"tid":1},{"coin":"BTC","side":"A","px":"101","sz":"2","hash":"0x2","time":11,"tid":2}]}"#;

/// A host that plays frames back and notes what it is asked.
struct Host {
    frames: Vec<Vec<IncomingFrame>>,
    connection: Vec<IncomingFrame>,
    told: Vec<&'static str>,
    sent: Vec<OutgoingFrame>,
    pauses: Vec<u64>,
    stop_after_update: bool,
    stopping: bool,
}

impl Host {
    fn new(frames: Vec<Vec<IncomingFrame>>) -> Self {
        Host {
            frames,
            connection: Vec::new(),
            told: Vec::new(),
            sent: Vec::new(),
            pauses: Vec::new(),
            stop_after_update: false,
            stopping: false,
        }
    }

    fn tell(&mut self, event: LiveSessionEvent) {
        self.told.push(match event {
            LiveSessionEvent::Connecting { .. } => "connecting",
            LiveSessionEvent::Connected { .. } => "connected",
            LiveSessionEvent::MarketSubscribed { .. } => "subscribed",
            LiveSessionEvent::TradeDeduplicated { .. } => "deduplicated",
            LiveSessionEvent::Disconnected { .. } => "disconnected",
            LiveSessionEvent::MarketData { event } => match event {
                NormalizedMarketEvent::OrderBookSnapshot(_) => {
                    self.stopping = self.stop_after_update;
                    "updated"
                }
                NormalizedMarketEvent::OrderBookUnavailable(_) => "unavailable",
                NormalizedMarketEvent::TradeStreamUnavailable(_) => "trades lost",
                NormalizedMarketEvent::TradeStreamResumed(_) => "trades resumed",
                NormalizedMarketEvent::MarketTrade(_) => "trade",
                NormalizedMarketEvent::BestBidOfferUpdated(_) => "offer",
            },
        });
    }

    fn run(&mut self, adapter: HyperliquidAdapter) -> Result<(), String> {
        let (mut session, mut request) =
            LiveMarketDataSession::new(adapter, MonotonicClock::start());
        for _ in 0..1_000 {
            let reply = match request {
                HostRequest::Emit(event) => {
                    self.tell(event);
                    Reply::Told(Ok(()))
                }
                HostRequest::Connect(_) => {
                    if self.frames.is_empty() {
                        Reply::Connected(Err("script exhausted".into()))
                    } else {
                        self.connection = self.frames.remove(0);
                        Reply::Connected(Ok(()))
                    }
                }
                HostRequest::Send(frame) => {
                    self.sent.push(frame);
                    Reply::Sent(Ok(()))
                }
                HostRequest::Receive => {
                    if self.stopping || self.connection.is_empty() {
                        Reply::Shutdown(Ok(()))
                    } else {
                        Reply::Received(Ok(Some(self.connection.remove(0))))
                    }
                }
                HostRequest::Close => Reply::Closed,
                HostRequest::Sleep(seconds) => {
                    self.pauses.push(seconds);
                    if self.pauses.len() == 7 {
                        Reply::Shutdown(Ok(()))
                    } else {
                        Reply::Slept
                    }
                }
                HostRequest::Finish(result) => return result,
            };
            request = session.advance(reply);
        }
        panic!("the session did not end")
    }
}

fn adapter(capacity: usize) -> HyperliquidAdapter {
    HyperliquidAdapter::new(vec![MarketCoin::try_new("BTC").unwrap()], capacity)
}

#[test]
fn reconnects_and_invalidates_before_disconnected_event() {
    let mut host = Host::new(vec![
        vec![IncomingFrame::Closed("first close".into())],
        vec![IncomingFrame::Text(SNAPSHOT.into())],
    ]);
    host.stop_after_update = true;
    host.run(adapter(10)).unwrap();
    assert_eq!(
        host.told,
        [
            "connecting",
            "connected",
            "subscribed",
            "unavailable",
            "trades lost",
            "disconnected",
            "connecting",
            "connected",
            "subscribed",
            "updated",
        ]
    );
    assert_eq!(host.sent.len(), 6);
    assert_eq!(host.pauses, [2]);
}

#[test]
fn stop_action_fails_closed_without_reconnecting() {
    let mut host = Host::new(vec![vec![IncomingFrame::Text(TRADES.into())], vec![]]);
    let error = host.run(adapter(1)).unwrap_err();
    assert_eq!(error, "Hyperliquid BTC trade dedup capacity 1 exceeded");
    assert_eq!(host.frames.len(), 1);
    assert!(host.pauses.is_empty());
}

#[test]
fn pauses_grow_until_a_connection_stands() {
    let mut host = Host::new(Vec::new());
    host.run(adapter(10)).unwrap();
    assert_eq!(host.pauses, [2, 4, 8, 16, 30, 30, 30]);
    assert_eq!(
        &host.told[..4],
        ["connecting", "unavailable", "trades lost", "disconnected"]
    );
}

#[test]
fn pings_are_answered_and_other_frames_skipped() {
    let mut host = Host::new(vec![vec![
        IncomingFrame::Ping(vec![1, 2]),
        IncomingFrame::Other,
        IncomingFrame::Text(TRADES.into()),
        IncomingFrame::Text(TRADES.into()),
    ]]);
    host.run(adapter(10)).unwrap();
    assert_eq!(
        host.sent.last(),
        Some(&OutgoingFrame::Pong(vec![1, 2]))
    );
    assert_eq!(
        &host.told[3..],
        [
            "trades resumed",
            "trade",
            "trade",
            "deduplicated",
            "deduplicated"
        ]
    );
}

#[test]
fn heartbeats_go_out_where_the_venue_wants_them() {
    let adapter = LighterAdapter::from_markets(
        vec![LighterMarket::new(MarketCoin::try_new("BTC").unwrap(), 1)],
        1,
    );
    let (mut session, mut request) = LiveMarketDataSession::new(adapter, MonotonicClock::start());
    assert_eq!(session.heartbeat_interval(), Some(15));
    assert_eq!(
        request,
        HostRequest::Emit(LiveSessionEvent::Connecting {
            venue: Venue::Lighter,
            endpoint: "wss://mainnet.zklighter.elliot.ai/stream".into()
        })
    );
    request = session.advance(Reply::Told(Ok(())));
    assert!(matches!(request, HostRequest::Connect(_)));
    request = session.advance(Reply::Connected(Ok(())));
    assert!(matches!(
        request,
        HostRequest::Emit(LiveSessionEvent::Connected { .. })
    ));
    request = session.advance(Reply::Told(Ok(())));
    assert_eq!(request, HostRequest::Receive);
    request = session.advance(Reply::Heartbeat);
    assert_eq!(request, HostRequest::Send(OutgoingFrame::Ping(Vec::new())));
    request = session.advance(Reply::Sent(Ok(())));
    assert_eq!(request, HostRequest::Receive);
}

#[test]
fn a_host_that_cannot_tell_ends_the_session() {
    let (mut session, _) = LiveMarketDataSession::new(adapter(1), MonotonicClock::start());
    let mut request = session.advance(Reply::Told(Err("queue full".into())));
    if request == HostRequest::Close {
        request = session.advance(Reply::Closed);
    }
    assert_eq!(request, HostRequest::Finish(Err("queue full".into())));
}

#[test]
fn rejects_duplicate_without_consuming_capacity() {
    let mut dedup: BoundedDeduplicator<u64> = BoundedDeduplicator::new(2);
    assert_eq!(dedup.observe(10), DeduplicationResult::New);
    assert_eq!(dedup.observe(10), DeduplicationResult::Duplicate);
    assert_eq!(dedup.observe(11), DeduplicationResult::New);
    assert_eq!(dedup.unique_count(), 2);
    assert_eq!(dedup.duplicate_count(), 1);
}

#[test]
fn fails_closed_instead_of_evicting_an_identity() {
    let mut dedup = BoundedDeduplicator::new(1);
    assert_eq!(dedup.observe("first"), DeduplicationResult::New);
    assert_eq!(
        dedup.observe("second"),
        DeduplicationResult::CapacityExceeded
    );
    assert_eq!(dedup.observe("first"), DeduplicationResult::Duplicate);
}
