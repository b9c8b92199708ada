//! How live events reach the recorder and the engine.
use vstd::prelude::*;

use crate::engine::{EngineError, EngineView, MarketDataEngine};
use crate::market_data::event::EventView;
use crate::recorder::capture::{
    accepted_sequence, accepting, counting, AcceptedMarketEvent, CaptureCoordinator,
    CaptureCoordinatorError, CaptureProgress, CaptureState, CoordinatorErrorView, Delivery,
    WriterReportView,
};
use crate::text::{decimal, decimal_text};
use crate::venue::runtime::{LiveEventView, LiveSessionEvent};

verus! {

/// A line for people to read.
#[derive(Debug, Eq, PartialEq)]
pub enum Notice {
    /// Something that goes well.
    Progress(String),
    /// Something that goes wrong.
    Trouble(String),
}

/// The model of `Notice`.
pub enum NoticeView {
    Progress(Seq<char>),
    Trouble(Seq<char>),
}

impl View for Notice {
    type V = NoticeView;

    open spec fn view(&self) -> NoticeView {
        match *self {
            Notice::Progress(line) => NoticeView::Progress(line@),
            Notice::Trouble(line) => NoticeView::Trouble(line@),
        }
    }
}

/// What people are told of an event. Market data and trades that had been delivered before
/// are not spoken of.
pub open spec fn lifecycle_notice(event: LiveEventView) -> Option<NoticeView> {
    match event {
        LiveEventView::Connecting { venue, endpoint } => Some(
            NoticeView::Progress(venue.display_name() + " connecting to "@ + endpoint),
        ),
        LiveEventView::Connected { venue } => Some(
            NoticeView::Progress(venue.display_name() + " connected"@),
        ),
        LiveEventView::MarketSubscribed { venue, coin } => Some(
            NoticeView::Progress(venue.display_name() + " subscribed to "@ + coin),
        ),
        LiveEventView::Disconnected { venue, reason, retry_in } => Some(
            NoticeView::Trouble(
                venue.display_name() + " disconnected ("@ + reason + "); reconnecting in "@
                    + decimal(retry_in as nat) + " seconds"@,
            ),
        ),
        _ => None,
    }
}

/// The model of a notice that may be absent.
pub open spec fn notice_view(notice: Option<Notice>) -> Option<NoticeView> {
    match notice {
        Some(notice) => Some(notice@),
        None => None,
    }
}

/// What people are told of an event.
pub fn present_lifecycle(event: &LiveSessionEvent) -> (notice: Option<Notice>)
    ensures
        notice_view(notice) == lifecycle_notice(event@),
{
    match event {
        LiveSessionEvent::Connecting { venue, endpoint } => {
            let mut line: String = venue.to_text();
            line.append(" connecting to ");
            line.append(endpoint.as_str());
            Some(Notice::Progress(line))
        },
        LiveSessionEvent::Connected { venue } => {
            let mut line: String = venue.to_text();
            line.append(" connected");
            Some(Notice::Progress(line))
        },
        LiveSessionEvent::MarketSubscribed { venue, market_coin } => {
            let mut line: String = venue.to_text();
            line.append(" subscribed to ");
            line.append(market_coin.as_str());
            Some(Notice::Progress(line))
        },
        LiveSessionEvent::Disconnected { venue, reason, retry_in } => {
            let mut line: String = venue.to_text();
            line.append(" disconnected (");
            line.append(reason.as_str());
            line.append("); reconnecting in ");
            line.append(decimal_text(*retry_in as u128).as_str());
            line.append(" seconds");
            Some(Notice::Trouble(line))
        },
        LiveSessionEvent::MarketData { .. } => None,
        LiveSessionEvent::TradeDeduplicated { .. } => None,
    }
}

/// Whether the engine expects the number that the next event will get.
pub open spec fn in_step(progress: CaptureProgress, engine: EngineView) -> bool {
    progress.next_capture_sequence == engine.next_capture_sequence
}

/// The model of what handing an event on comes to.
pub open spec fn handled_view(result: Result<Option<Notice>, String>) -> Result<
    Option<NoticeView>,
    Seq<char>,
> {
    match result {
        Ok(notice) => Ok(notice_view(notice)),
        Err(error) => Err(error@),
    }
}

/// Whether `after` and `result` are what becomes of an event that the recorder took in under
/// the given number.
pub open spec fn processed(
    before: EngineView,
    sequence: u64,
    event: EventView,
    after: EngineView,
    result: Result<Option<NoticeView>, Seq<char>>,
) -> bool {
    if sequence != before.next_capture_sequence {
        &&& after == before
        &&& result == Err::<Option<NoticeView>, Seq<char>>(
            (EngineError::CaptureSequenceMismatch {
                expected: before.next_capture_sequence,
                actual: sequence,
            }).message(),
        )
    } else {
        &&& after == before.step(event)
        &&& result == if sequence == u64::MAX {
            Err::<Option<NoticeView>, Seq<char>>(EngineError::CaptureSequenceOverflow.message())
        } else {
            Ok::<Option<NoticeView>, Seq<char>>(None)
        }
    }
}

/// Whether engine and result are what becomes of an event, where `taken` is what the recorder
/// said: what it turned away never reaches the engine, and what it took in reaches it under
/// the number that the recorder gave it.
pub open spec fn passed_on(
    before: EngineView,
    taken: Result<u64, CoordinatorErrorView>,
    event: EventView,
    after: EngineView,
    result: Result<Option<NoticeView>, Seq<char>>,
) -> bool {
    match taken {
        Err(error) => {
            &&& after == before
            &&& result == Err::<Option<NoticeView>, Seq<char>>(error.message())
        },
        Ok(sequence) => processed(before, sequence, event, after, result),
    }
}

/// Recorder and engine stay in step, whatever the recorder says of an event; and where they
/// are, the engine takes in every event that the recorder took in.
pub proof fn lemma_stays_in_step(
    recorder: CaptureState,
    engine: EngineView,
    event: EventView,
    first: WriterReportView,
    delivery: Delivery,
    writer_finished: bool,
    recorder_after: CaptureState,
    taken: Result<u64, CoordinatorErrorView>,
    engine_after: EngineView,
    result: Result<Option<NoticeView>, Seq<char>>,
)
    requires
        in_step(recorder.progress, engine),
        accepting(
            recorder,
            event,
            first,
            delivery,
            writer_finished,
            recorder_after,
            taken,
        ),
        passed_on(engine, taken, event, engine_after, result),
    ensures
        in_step(recorder_after.progress, engine_after),
        taken is Ok <==> result is Ok,
        taken is Ok ==> engine_after == engine.step(event),
{
}

/// Hands a live event on. Market data goes to the recorder first; what the recorder took in
/// goes to the engine, under the number that the recorder gave it. What the recorder turned
/// away never reaches the engine.
pub fn handle_live_event(
    coordinator: &mut CaptureCoordinator,
    engine: &mut MarketDataEngine,
    event: LiveSessionEvent,
    writer_finished: bool,
) -> (result: Result<Option<Notice>, String>)
    requires
        old(engine).well_formed(),
    ensures
        final(engine).well_formed(),
        final(coordinator).id_view() == old(coordinator).id_view(),
        match event@ {
            LiveEventView::MarketData { event } => exists|
                first: WriterReportView,
                delivery: Delivery,
                taken: Result<u64, CoordinatorErrorView>,
            |
                #[trigger] accepting(
                    old(coordinator).state(),
                    event,
                    first,
                    delivery,
                    writer_finished,
                    final(coordinator).state(),
                    taken,
                ) && passed_on(
                    old(engine)@,
                    taken,
                    event,
                    final(engine)@,
                    handled_view(result),
                ),
            LiveEventView::TradeDeduplicated { .. } => {
                &&& final(engine)@ == old(engine)@
                &&& exists|report: WriterReportView, counted: Result<(), CoordinatorErrorView>|
                    #[trigger] counting(
                        old(coordinator).state(),
                        report,
                        writer_finished,
                        final(coordinator).state(),
                        counted,
                    ) && handled_view(result) == (match counted {
                        Ok(()) => Ok::<Option<NoticeView>, Seq<char>>(None),
                        Err(error) => Err(error.message()),
                    })
            },
            _ => {
                &&& final(engine)@ == old(engine)@
                &&& final(coordinator).state() == old(coordinator).state()
                &&& result is Ok
                &&& notice_view(result->Ok_0) == lifecycle_notice(event@)
            },
        },
{
    match event {
        LiveSessionEvent::MarketData { event } => {
            let ghost offered = event@;
            let outcome: Result<AcceptedMarketEvent, CaptureCoordinatorError> = coordinator.accept(
                event,
                writer_finished,
            );
            let ghost taken = accepted_sequence(outcome);
            let result: Result<Option<Notice>, String> = match outcome {
                Ok(accepted) => match engine.process(accepted.capture_sequence, &accepted.event) {
                    Ok(_) => Ok(None),
                    Err(error) => Err(error.to_text()),
                },
                Err(error) => Err(error.to_text()),
            };
            assert(passed_on(old(engine)@, taken, offered, engine@, handled_view(result)));
            result
        },
        LiveSessionEvent::TradeDeduplicated { .. } => {
            let outcome: Result<(), CaptureCoordinatorError> =
                coordinator.observe_deduplicated_trade(writer_finished);
            match outcome {
                Ok(_) => Ok(None),
                Err(error) => Err(error.to_text()),
            }
        },
        lifecycle => Ok(present_lifecycle(&lifecycle)),
    }
}

/// How the task of a session ended.
#[derive(Debug, Eq, PartialEq)]
pub enum SessionEnd {
    /// The session ended by itself, or with an error.
    Finished(&'static str, Result<(), String>),
    /// The task did not get to its end.
    Failed(String),
}

/// What is wrong with how a session ended. During shutdown an end in order is fine; before, a
/// session that ends is a failure.
pub open spec fn session_failure(end: SessionEnd, shutting_down: bool) -> Option<Seq<char>> {
    match end {
        SessionEnd::Finished(name, Ok(_)) => if shutting_down {
            None
        } else {
            Some(name@ + " session ended unexpectedly"@)
        },
        SessionEnd::Finished(name, Err(error)) => Some(name@ + " session stopped: "@ + error@),
        SessionEnd::Failed(error) => Some("market-data session task failed: "@ + error@),
    }
}

/// What is wrong with how a session ended.
pub fn completed_session_failure(end: &SessionEnd, shutting_down: bool) -> (failure: Option<String>)
    ensures
        session_failure(*end, shutting_down) == (match failure {
            Some(text) => Some(text@),
            None => None,
        }),
{
    match end {
        SessionEnd::Finished(name, Ok(_)) => if shutting_down {
            None
        } else {
            let mut text: String = (*name).to_owned();
            text.append(" session ended unexpectedly");
            Some(text)
        },
        SessionEnd::Finished(name, Err(error)) => {
            let mut text: String = (*name).to_owned();
            text.append(" session stopped: ");
            text.append(error.as_str());
            Some(text)
        },
        SessionEnd::Failed(error) => {
            let mut text: String = "market-data session task failed: ".to_owned();
            text.append(error.as_str());
            Some(text)
        },
    }
}

/// The end of a session is fine if and only if it was asked to end and ended in order.
pub proof fn lemma_session_end_fine(end: SessionEnd, shutting_down: bool)
    ensures
        session_failure(end, shutting_down) is None <==> shutting_down && end is Finished
            && end->Finished_1 is Ok,
{
}

} // verus!
