//! The capture coordinator: numbering of events, hand-over to the writer, and the
//! manifest from start to end of a run.
use crossbeam_channel::{Receiver, Sender, TryRecvError, TrySendError};
use vstd::prelude::*;

use crate::market_data::event::EventView;
use crate::market_data::{NormalizedMarketEvent, UnavailabilityCategory};
use crate::recorder::dto::{
    counts_as, stored_form, StorageConversionError, StoredEventV1, StoredEventView,
};
use crate::recorder::format::CaptureId;
use crate::recorder::manifest::{
    configuration_digest, entry_of, started_manifest, CaptureManifest, CaptureMetadata,
    CaptureStatus, DataQualityCounters, ManifestView,
};
use crate::recorder::reader::{event_views, prefixed, read_segment, segment_reading, ReadSegment};
use crate::recorder::recovery::{
    recover_open_segment, recovery, RecoveryErrorView, RecoveryOutcome, RecoveryView,
};
use crate::recorder::writer::{
    log_filename, log_name, open_filename, open_name, unix_millis, unix_millis_value, ClosedSegment,
    FinalizedView, SegmentCompletion, SegmentLimits, SegmentWriter, SegmentWriterError, WallTime,
};
use crate::bytes::le_value;
use crate::hashing::sha256;

verus! {

/// Why a capture run cannot go on.
#[derive(Debug, Eq, PartialEq)]
pub enum CaptureCoordinatorError {
    DataDirectoryMustBeAbsolute(String),
    Io(String),
    StorageConversion(StorageConversionError),
    QueueFull,
    WriterFailed(String),
    WriterThreadPanicked,
    SequenceOverflow,
    AlreadyFinished,
}

/// The model of `CaptureCoordinatorError`.
pub enum CoordinatorErrorView {
    DataDirectoryMustBeAbsolute(Seq<char>),
    Io(Seq<char>),
    StorageConversion(StorageConversionError),
    QueueFull,
    WriterFailed(Seq<char>),
    WriterThreadPanicked,
    SequenceOverflow,
    AlreadyFinished,
}

impl View for CaptureCoordinatorError {
    type V = CoordinatorErrorView;

    open spec fn view(&self) -> CoordinatorErrorView {
        match *self {
            CaptureCoordinatorError::DataDirectoryMustBeAbsolute(path) =>
                CoordinatorErrorView::DataDirectoryMustBeAbsolute(path@),
            CaptureCoordinatorError::Io(detail) => CoordinatorErrorView::Io(detail@),
            CaptureCoordinatorError::StorageConversion(error) =>
                CoordinatorErrorView::StorageConversion(error),
            CaptureCoordinatorError::QueueFull => CoordinatorErrorView::QueueFull,
            CaptureCoordinatorError::WriterFailed(detail) => CoordinatorErrorView::WriterFailed(
                detail@,
            ),
            CaptureCoordinatorError::WriterThreadPanicked =>
                CoordinatorErrorView::WriterThreadPanicked,
            CaptureCoordinatorError::SequenceOverflow => CoordinatorErrorView::SequenceOverflow,
            CaptureCoordinatorError::AlreadyFinished => CoordinatorErrorView::AlreadyFinished,
        }
    }
}

/// An event that the recorder took in, under its number.
#[derive(Debug, Eq, PartialEq)]
pub struct AcceptedMarketEvent {
    pub capture_sequence: u64,
    pub event: NormalizedMarketEvent,
}

/// What the writer is asked to do when a run ends.
#[derive(Clone, Copy, Debug, Eq, PartialEq, Structural)]
pub struct FinishCommand {
    pub status: CaptureStatus,
    pub ended_at: WallTime,
    pub queue_high_water_mark: usize,
    pub approximate_owned_event_bytes: u64,
    pub data_quality: DataQualityCounters,
}

/// What the writer is asked to do.
#[derive(Debug)]
pub enum WriterCommand {
    Event(StoredEventV1),
    Finish(FinishCommand),
}

/// The model of `WriterCommand`.
pub enum CommandView {
    Event(StoredEventView),
    Finish(FinishCommand),
}

impl View for WriterCommand {
    type V = CommandView;

    open spec fn view(&self) -> CommandView {
        match *self {
            WriterCommand::Event(stored) => CommandView::Event(stored@),
            WriterCommand::Finish(command) => CommandView::Finish(command),
        }
    }
}

/// What became of a command that was handed to the writer's queue.
#[derive(Clone, Copy, Debug, Eq, PartialEq, Structural)]
pub enum SendOutcome {
    Sent,
    Full,
    Disconnected,
}

/// What the writer says of itself.
#[derive(Debug, Eq, PartialEq)]
pub enum WriterReport {
    Failed(String),
    Silent,
    Closed,
}

/// The model of `WriterReport`.
pub enum WriterReportView {
    Failed(Seq<char>),
    Silent,
    Closed,
}

impl View for WriterReport {
    type V = WriterReportView;

    open spec fn view(&self) -> WriterReportView {
        match *self {
            WriterReport::Failed(detail) => WriterReportView::Failed(detail@),
            WriterReport::Silent => WriterReportView::Silent,
            WriterReport::Closed => WriterReportView::Closed,
        }
    }
}

#[verifier::external_type_specification]
#[verifier::external_body]
#[verifier::reject_recursive_types(T)]
pub struct ExSender<T>(crossbeam_channel::Sender<T>);

#[verifier::external_type_specification]
#[verifier::external_body]
#[verifier::reject_recursive_types(T)]
pub struct ExReceiver<T>(crossbeam_channel::Receiver<T>);

/// The commands that were handed to the queue through a sender, in order.
pub uninterp spec fn handed_over(sender: Sender<WriterCommand>) -> Seq<CommandView>;

/// `crossbeam_channel::Sender::try_send`: hands a command to the queue, behind those that
/// were handed over before, unless the queue is full or nobody receives any more; then the
/// command is given back. Which of the three happens rests on the receiving thread, so nothing
/// is said of it.
#[verifier::external_body]
fn offer(sender: &mut Sender<WriterCommand>, command: WriterCommand) -> (outcome: SendOutcome)
    ensures
        handed_over(*final(sender)) == if outcome == SendOutcome::Sent {
            handed_over(*old(sender)).push(command@)
        } else {
            handed_over(*old(sender))
        },
{
    match sender.try_send(command) {
        Ok(()) => SendOutcome::Sent,
        Err(TrySendError::Full(_)) => SendOutcome::Full,
        Err(TrySendError::Disconnected(_)) => SendOutcome::Disconnected,
    }
}

/// `crossbeam_channel::Sender::send`: waits for room in the queue, and hands the command over
/// behind those that were handed over before, unless nobody receives any more. Whether that
/// is so rests on the receiving thread, so nothing is said of it.
#[verifier::external_body]
fn deliver(sender: &mut Sender<WriterCommand>, command: WriterCommand) -> (delivered: bool)
    ensures
        handed_over(*final(sender)) == if delivered {
            handed_over(*old(sender)).push(command@)
        } else {
            handed_over(*old(sender))
        },
{
    sender.send(command).is_ok()
}

/// `crossbeam_channel::Sender::len`: how many commands wait in the queue at the moment,
/// of which nothing is said.
#[verifier::external_body]
fn queue_length(sender: &Sender<WriterCommand>) -> (length: usize) {
    sender.len()
}

/// `crossbeam_channel::Receiver::try_recv`: the message that the writer left, if any.
/// Whether there is one rests on the writer's thread, so nothing is said of it.
#[verifier::external_body]
fn poll(receiver: &Receiver<String>) -> (report: WriterReport) {
    match receiver.try_recv() {
        Ok(detail) => WriterReport::Failed(detail),
        Err(TryRecvError::Empty) => WriterReport::Silent,
        Err(TryRecvError::Disconnected) => WriterReport::Closed,
    }
}

/// What is counted of an event.
pub open spec fn observed(counters: DataQualityCounters, event: EventView) -> DataQualityCounters {
    match event {
        EventView::OrderBookUnavailable(unavailable) => DataQualityCounters {
            order_book_unavailable: one_more(counters.order_book_unavailable),
            disconnects: if unavailable.category == UnavailabilityCategory::Disconnected {
                one_more(counters.disconnects)
            } else {
                counters.disconnects
            },
            invalid_messages: if unavailable.category
                == UnavailabilityCategory::InvalidMarketData {
                one_more(counters.invalid_messages)
            } else {
                counters.invalid_messages
            },
            ..counters
        },
        EventView::TradeStreamUnavailable(unavailable) => DataQualityCounters {
            trade_stream_gaps: one_more(counters.trade_stream_gaps),
            invalid_messages: if unavailable.category
                == UnavailabilityCategory::InvalidMarketData {
                one_more(counters.invalid_messages)
            } else {
                counters.invalid_messages
            },
            ..counters
        },
        _ => counters,
    }
}

/// One more, up to the end of the range.
pub open spec fn one_more(count: u64) -> u64 {
    if count == u64::MAX {
        count
    } else {
        (count + 1) as u64
    }
}

/// Counts what went wrong in an event.
pub fn observe_quality(counters: &mut DataQualityCounters, event: &NormalizedMarketEvent)
    ensures
        *final(counters) == observed(*old(counters), event@),
{
    match event {
        NormalizedMarketEvent::OrderBookUnavailable(unavailable) => {
            counters.order_book_unavailable = counters.order_book_unavailable.saturating_add(1);
            if unavailable.category() == UnavailabilityCategory::Disconnected {
                counters.disconnects = counters.disconnects.saturating_add(1);
            }
            if unavailable.category() == UnavailabilityCategory::InvalidMarketData {
                counters.invalid_messages = counters.invalid_messages.saturating_add(1);
            }
        },
        NormalizedMarketEvent::TradeStreamUnavailable(unavailable) => {
            counters.trade_stream_gaps = counters.trade_stream_gaps.saturating_add(1);
            if unavailable.category() == UnavailabilityCategory::InvalidMarketData {
                counters.invalid_messages = counters.invalid_messages.saturating_add(1);
            }
        },
        _ => {},
    }
}

/// What a coordinator keeps track of.
#[derive(Clone, Copy, Debug, Eq, PartialEq, Structural)]
pub struct CaptureProgress {
    pub next_capture_sequence: u64,
    pub queue_high_water_mark: usize,
    pub approximate_owned_event_bytes: u64,
    pub data_quality: DataQualityCounters,
    pub queue_full: bool,
}

impl CaptureProgress {
    /// Before the first event.
    pub open spec fn fresh() -> CaptureProgress {
        CaptureProgress {
            next_capture_sequence: 1,
            queue_high_water_mark: 0,
            approximate_owned_event_bytes: 0,
            data_quality: DataQualityCounters::zero(),
            queue_full: false,
        }
    }

    /// After the queue turned an event away.
    pub open spec fn refused(self) -> CaptureProgress {
        CaptureProgress { queue_full: true, ..self }
    }

    /// After the queue took an event of the given size in and held `length` commands.
    pub open spec fn advanced(self, event: EventView, bytes: u64, length: usize) -> CaptureProgress {
        let held = if length == 0 {
            1
        } else {
            length
        };
        CaptureProgress {
            next_capture_sequence: one_more(self.next_capture_sequence),
            queue_high_water_mark: if self.queue_high_water_mark < held {
                held
            } else {
                self.queue_high_water_mark
            },
            approximate_owned_event_bytes: if self.approximate_owned_event_bytes + bytes
                > u64::MAX {
                u64::MAX
            } else {
                (self.approximate_owned_event_bytes + bytes) as u64
            },
            data_quality: observed(self.data_quality, event),
            ..self
        }
    }
}

impl CaptureProgress {
    /// After a trade that had been delivered before.
    pub open spec fn deduplicated(self) -> CaptureProgress {
        CaptureProgress {
            data_quality: DataQualityCounters {
                deduplicated_trades: one_more(self.data_quality.deduplicated_trades),
                ..self.data_quality
            },
            ..self
        }
    }
}

/// What a coordinator keeps track of, and the commands that it handed to the queue.
pub struct CaptureState {
    pub progress: CaptureProgress,
    pub handed: Seq<CommandView>,
}

/// What the writer's report means: its own words, or that it ended without any.
pub open spec fn report_error(report: WriterReportView, writer_finished: bool) -> Option<
    CoordinatorErrorView,
> {
    match report {
        WriterReportView::Failed(detail) => Some(CoordinatorErrorView::WriterFailed(detail)),
        WriterReportView::Silent => None,
        WriterReportView::Closed => if writer_finished {
            Some(CoordinatorErrorView::WriterFailed("recorder thread terminated"@))
        } else {
            None
        },
    }
}

/// Reads a report of the writer.
pub fn check_report(report: WriterReport, writer_finished: bool) -> (result: Result<
    (),
    CaptureCoordinatorError,
>)
    ensures
        match result {
            Ok(()) => report_error(report@, writer_finished) is None,
            Err(error) => report_error(report@, writer_finished) == Some(error@),
        },
{
    match report {
        WriterReport::Failed(detail) => Err(CaptureCoordinatorError::WriterFailed(detail)),
        WriterReport::Silent => Ok(()),
        WriterReport::Closed => {
            if writer_finished {
                Err(
                    CaptureCoordinatorError::WriterFailed("recorder thread terminated".to_owned()),
                )
            } else {
                Ok(())
            }
        },
    }
}

/// What an event is stored as under the next number, or why it is not offered to the
/// writer.
pub open spec fn offering(
    progress: CaptureProgress,
    event: EventView,
    report: WriterReportView,
    writer_finished: bool,
) -> Result<StoredEventView, CoordinatorErrorView> {
    if report_error(report, writer_finished) is Some {
        Err(report_error(report, writer_finished)->Some_0)
    } else if progress.queue_full {
        Err(CoordinatorErrorView::QueueFull)
    } else {
        match stored_form(progress.next_capture_sequence, event) {
            Ok(stored) => Ok(stored),
            Err(error) => Err(CoordinatorErrorView::StorageConversion(error)),
        }
    }
}

/// Whether `after` and `result` are what becomes of an event that was offered: the
/// number advances exactly if the queue took the event in.
pub open spec fn settled(
    before: CaptureProgress,
    event: EventView,
    bytes: u64,
    outcome: SendOutcome,
    length: usize,
    report: WriterReportView,
    writer_finished: bool,
    after: CaptureProgress,
    result: Result<u64, CoordinatorErrorView>,
) -> bool {
    match outcome {
        SendOutcome::Full => {
            &&& after == before.refused()
            &&& result == Err::<u64, CoordinatorErrorView>(CoordinatorErrorView::QueueFull)
        },
        SendOutcome::Disconnected => {
            &&& after == before
            &&& result == Err::<u64, CoordinatorErrorView>(
                match report_error(report, writer_finished) {
                    Some(error) => error,
                    None => CoordinatorErrorView::WriterFailed("recorder thread disconnected"@),
                },
            )
        },
        SendOutcome::Sent => {
            &&& after == before.advanced(event, bytes, length)
            &&& result == if before.next_capture_sequence == u64::MAX {
                Err::<u64, CoordinatorErrorView>(CoordinatorErrorView::SequenceOverflow)
            } else {
                Ok::<u64, CoordinatorErrorView>(before.next_capture_sequence)
            }
        },
    }
}

/// What came back when an event was offered to the queue: the size it was counted with, the
/// queue's answer, the commands that then waited, and what the writer then said of itself.
pub struct Delivery {
    pub bytes: u64,
    pub outcome: SendOutcome,
    pub length: usize,
    pub report: WriterReportView,
}

/// Whether `after` and `result` are what becomes of an event, where `first` is what the
/// writer says of itself to begin with and `delivery` what comes back if the event is
/// offered. The event is offered exactly if nothing speaks against it by then, in its
/// storage form under the next number, and is counted with the bytes that this form occupies.
/// That form, and nothing else, is handed over exactly if the queue takes it in.
pub open spec fn accepting(
    before: CaptureState,
    event: EventView,
    first: WriterReportView,
    delivery: Delivery,
    writer_finished: bool,
    after: CaptureState,
    result: Result<u64, CoordinatorErrorView>,
) -> bool {
    match offering(before.progress, event, first, writer_finished) {
        Err(error) => {
            &&& after == before
            &&& result == Err::<u64, CoordinatorErrorView>(error)
        },
        Ok(stored) => {
            &&& delivery.bytes <= usize::MAX
            &&& counts_as(stored, delivery.bytes as usize)
            &&& after.handed == if delivery.outcome == SendOutcome::Sent {
                before.handed.push(CommandView::Event(stored))
            } else {
                before.handed
            }
            &&& settled(
                before.progress,
                event,
                delivery.bytes,
                delivery.outcome,
                delivery.length,
                delivery.report,
                writer_finished,
                after.progress,
                result,
            )
        },
    }
}

/// Whether `after` and `result` are what becomes of the count of a trade that had been
/// delivered before, where `report` is what the writer says of itself.
pub open spec fn counting(
    before: CaptureState,
    report: WriterReportView,
    writer_finished: bool,
    after: CaptureState,
    result: Result<(), CoordinatorErrorView>,
) -> bool {
    match report_error(report, writer_finished) {
        Some(error) => {
            &&& after == before
            &&& result == Err::<(), CoordinatorErrorView>(error)
        },
        None => {
            &&& after == (CaptureState { progress: before.progress.deduplicated(), ..before })
            &&& result == Ok::<(), CoordinatorErrorView>(())
        },
    }
}

/// Why a run could not be ended: the writer's own words, if it left any.
pub open spec fn undelivered_error(report: WriterReportView) -> CoordinatorErrorView {
    CoordinatorErrorView::WriterFailed(
        match report {
            WriterReportView::Failed(detail) => detail,
            _ => "recorder thread disconnected before shutdown"@,
        },
    )
}

impl CaptureProgress {
    /// Before the first event.
    pub fn new() -> (progress: Self)
        ensures
            progress == CaptureProgress::fresh(),
    {
        CaptureProgress {
            next_capture_sequence: 1,
            queue_high_water_mark: 0,
            approximate_owned_event_bytes: 0,
            data_quality: DataQualityCounters::default(),
            queue_full: false,
        }
    }

    /// The storage form to offer to the writer.
    pub fn prepare(
        &self,
        event: &NormalizedMarketEvent,
        report: WriterReport,
        writer_finished: bool,
    ) -> (result: Result<StoredEventV1, CaptureCoordinatorError>)
        ensures
            match result {
                Ok(stored) => offering(*self, event@, report@, writer_finished) == Ok::<
                    StoredEventView,
                    CoordinatorErrorView,
                >(stored@),
                Err(error) => offering(*self, event@, report@, writer_finished) == Err::<
                    StoredEventView,
                    CoordinatorErrorView,
                >(error@),
            },
    {
        match check_report(report, writer_finished) {
            Ok(()) => {},
            Err(error) => return Err(error),
        }
        if self.queue_full {
            return Err(CaptureCoordinatorError::QueueFull);
        }
        match StoredEventV1::from_normalized(self.next_capture_sequence, event) {
            Ok(stored) => Ok(stored),
            Err(error) => Err(CaptureCoordinatorError::StorageConversion(error)),
        }
    }

    /// Takes in what became of an event that was offered.
    pub fn settle(
        &mut self,
        event: &NormalizedMarketEvent,
        approximate_bytes: u64,
        outcome: SendOutcome,
        queue_length: usize,
        report: WriterReport,
        writer_finished: bool,
    ) -> (result: Result<u64, CaptureCoordinatorError>)
        ensures
            settled(
                *old(self),
                event@,
                approximate_bytes,
                outcome,
                queue_length,
                report@,
                writer_finished,
                *final(self),
                sequence_result(result),
            ),
    {
        match outcome {
            SendOutcome::Sent => {},
            SendOutcome::Full => {
                self.queue_full = true;
                return Err(CaptureCoordinatorError::QueueFull);
            },
            SendOutcome::Disconnected => {
                match check_report(report, writer_finished) {
                    Ok(()) => {},
                    Err(error) => return Err(error),
                }
                return Err(
                    CaptureCoordinatorError::WriterFailed(
                        "recorder thread disconnected".to_owned(),
                    ),
                );
            },
        }
        let sequence: u64 = self.next_capture_sequence;
        let held: usize = if queue_length == 0 {
            1
        } else {
            queue_length
        };
        if self.queue_high_water_mark < held {
            self.queue_high_water_mark = held;
        }
        self.approximate_owned_event_bytes =
        self.approximate_owned_event_bytes.saturating_add(approximate_bytes);
        observe_quality(&mut self.data_quality, event);
        if sequence == u64::MAX {
            return Err(CaptureCoordinatorError::SequenceOverflow);
        }
        self.next_capture_sequence = sequence + 1;
        Ok(sequence)
    }

    /// The command that ends a run.
    pub fn finish_command(&self, requested_status: CaptureStatus, ended_at: WallTime) -> (command:
        FinishCommand)
        ensures
            command == finishing(*self, requested_status, ended_at),
    {
        FinishCommand {
            status: if self.queue_full {
                CaptureStatus::IncompleteQueueFull
            } else {
                requested_status
            },
            ended_at,
            queue_high_water_mark: self.queue_high_water_mark,
            approximate_owned_event_bytes: self.approximate_owned_event_bytes,
            data_quality: self.data_quality,
        }
    }
}

/// The command that ends a run. A run that turned an event away is never complete.
pub open spec fn finishing(
    progress: CaptureProgress,
    requested_status: CaptureStatus,
    ended_at: WallTime,
) -> FinishCommand {
    FinishCommand {
        status: if progress.queue_full {
            CaptureStatus::IncompleteQueueFull
        } else {
            requested_status
        },
        ended_at,
        queue_high_water_mark: progress.queue_high_water_mark,
        approximate_owned_event_bytes: progress.approximate_owned_event_bytes,
        data_quality: progress.data_quality,
    }
}

/// The model of a number or the reason for which there is none.
pub open spec fn sequence_result(result: Result<u64, CaptureCoordinatorError>) -> Result<
    u64,
    CoordinatorErrorView,
> {
    match result {
        Ok(sequence) => Ok(sequence),
        Err(error) => Err(error@),
    }
}

/// The model of the number that an event was taken in under, or the reason for which it was
/// not.
pub open spec fn accepted_sequence(
    result: Result<AcceptedMarketEvent, CaptureCoordinatorError>,
) -> Result<u64, CoordinatorErrorView> {
    match result {
        Ok(accepted) => Ok(accepted.capture_sequence),
        Err(error) => Err(error@),
    }
}

/// The model of what became of a count.
pub open spec fn counted_result(result: Result<(), CaptureCoordinatorError>) -> Result<
    (),
    CoordinatorErrorView,
> {
    match result {
        Ok(()) => Ok(()),
        Err(error) => Err(error@),
    }
}

/// The side of a capture run that numbers events and hands them to the writer.
pub struct CaptureCoordinator {
    capture_id: CaptureId,
    capture_directory: String,
    sender: Sender<WriterCommand>,
    writer_status: Receiver<String>,
    progress: CaptureProgress,
}

impl CaptureCoordinator {
    /// What the coordinator keeps track of.
    pub closed spec fn progress_view(&self) -> CaptureProgress {
        self.progress
    }

    /// The commands that the coordinator handed to the queue, in order.
    pub closed spec fn handed(&self) -> Seq<CommandView> {
        handed_over(self.sender)
    }

    /// What the coordinator keeps track of, and what it handed to the queue.
    pub open spec fn state(&self) -> CaptureState {
        CaptureState { progress: self.progress_view(), handed: self.handed() }
    }

    /// The run that is captured.
    pub closed spec fn id_view(&self) -> CaptureId {
        self.capture_id
    }

    /// The directory of the run.
    pub closed spec fn directory_view(&self) -> Seq<char> {
        self.capture_directory@
    }

    /// A coordinator before its first event, in front of the given queues.
    pub fn new(
        capture_id: CaptureId,
        capture_directory: String,
        sender: Sender<WriterCommand>,
        writer_status: Receiver<String>,
    ) -> (coordinator: Self)
        ensures
            coordinator.id_view() == capture_id,
            coordinator.directory_view() == capture_directory@,
            coordinator.progress_view() == CaptureProgress::fresh(),
            coordinator.handed() == handed_over(sender),
    {
        CaptureCoordinator {
            capture_id,
            capture_directory,
            sender,
            writer_status,
            progress: CaptureProgress::new(),
        }
    }

    /// Offers an event to the writer. It gets the next number exactly if the queue takes
    /// it in; once the queue has turned one away, no further event is taken in.
    pub fn accept(&mut self, event: NormalizedMarketEvent, writer_finished: bool) -> (result: Result<
        AcceptedMarketEvent,
        CaptureCoordinatorError,
    >)
        ensures
            final(self).id_view() == old(self).id_view(),
            final(self).directory_view() == old(self).directory_view(),
            result matches Ok(accepted) ==> accepted.event@ == event@,
            exists|first: WriterReportView, delivery: Delivery| #[trigger]
                accepting(
                    old(self).state(),
                    event@,
                    first,
                    delivery,
                    writer_finished,
                    final(self).state(),
                    accepted_sequence(result),
                ),
    {
        let first: WriterReport = poll(&self.writer_status);
        let ghost told = first@;
        let stored: StoredEventV1 = match self.progress.prepare(&event, first, writer_finished) {
            Ok(stored) => stored,
            Err(error) => {
                let refusal: Result<AcceptedMarketEvent, CaptureCoordinatorError> = Err(error);
                proof {
                    let delivery: Delivery = arbitrary();
                    assert(accepting(
                        old(self).state(),
                        event@,
                        told,
                        delivery,
                        writer_finished,
                        self.state(),
                        accepted_sequence(refusal),
                    ));
                }
                return refusal;
            },
        };
        let bytes: u64 = stored.approximate_owned_bytes() as u64;
        let outcome: SendOutcome = offer(&mut self.sender, WriterCommand::Event(stored));
        let length: usize = queue_length(&self.sender);
        let report: WriterReport = match outcome {
            SendOutcome::Disconnected => poll(&self.writer_status),
            _ => WriterReport::Silent,
        };
        let ghost delivery = Delivery { bytes, outcome, length, report: report@ };
        let settlement: Result<u64, CaptureCoordinatorError> = self.progress.settle(
            &event,
            bytes,
            outcome,
            length,
            report,
            writer_finished,
        );
        let ghost offered = event@;
        let result: Result<AcceptedMarketEvent, CaptureCoordinatorError> = match settlement {
            Ok(capture_sequence) => Ok(AcceptedMarketEvent { capture_sequence, event }),
            Err(error) => Err(error),
        };
        assert(accepting(
            old(self).state(),
            offered,
            told,
            delivery,
            writer_finished,
            self.state(),
            accepted_sequence(result),
        ));
        result
    }

    /// Hands the command that ends the run to the writer.
    fn request_finish(&mut self, requested_status: CaptureStatus, ended_at: WallTime) -> (result:
        Result<FinishCommand, CaptureCoordinatorError>)
        ensures
            final(self).id_view() == old(self).id_view(),
            final(self).directory_view() == old(self).directory_view(),
            final(self).progress_view() == old(self).progress_view(),
            ({
                let command = finishing(old(self).progress_view(), requested_status, ended_at);
                match result {
                    Ok(given) => {
                        &&& given == command
                        &&& final(self).handed() == old(self).handed().push(
                            CommandView::Finish(command),
                        )
                    },
                    Err(error) => {
                        &&& final(self).handed() == old(self).handed()
                        &&& exists|report: WriterReportView|
                            error@ == #[trigger] undelivered_error(report)
                    },
                }
            }),
    {
        let command: FinishCommand = self.progress.finish_command(requested_status, ended_at);
        if deliver(&mut self.sender, WriterCommand::Finish(command)) {
            Ok(command)
        } else {
            let report: WriterReport = poll(&self.writer_status);
            let ghost told = report@;
            let error: CaptureCoordinatorError = undelivered(report);
            assert(error@ == undelivered_error(told));
            Err(error)
        }
    }

    /// Asks the writer to end the run, after which nothing more can be handed over.
    pub fn finish(self, requested_status: CaptureStatus, ended_at: WallTime) -> (result: Result<
        FinishedCapture,
        CaptureCoordinatorError,
    >)
        ensures
            match result {
                Ok(finished) => {
                    &&& finished.command_view() == finishing(
                        self.progress_view(),
                        requested_status,
                        ended_at,
                    )
                    &&& finished.handed() == self.handed().push(
                        CommandView::Finish(finished.command_view()),
                    )
                },
                Err(error) => exists|report: WriterReportView|
                    error@ == #[trigger] undelivered_error(report),
            },
    {
        let mut coordinator: CaptureCoordinator = self;
        match coordinator.request_finish(requested_status, ended_at) {
            Ok(command) => Ok(FinishedCapture { command, coordinator }),
            Err(error) => Err(error),
        }
    }

    /// Counts a trade that had been delivered before.
    pub fn observe_deduplicated_trade(&mut self, writer_finished: bool) -> (result: Result<
        (),
        CaptureCoordinatorError,
    >)
        ensures
            final(self).id_view() == old(self).id_view(),
            final(self).directory_view() == old(self).directory_view(),
            exists|report: WriterReportView| #[trigger]
                counting(
                    old(self).state(),
                    report,
                    writer_finished,
                    final(self).state(),
                    counted_result(result),
                ),
    {
        let report: WriterReport = poll(&self.writer_status);
        let ghost told = report@;
        let result: Result<(), CaptureCoordinatorError> = check_report(report, writer_finished);
        if result.is_ok() {
            self.progress.data_quality.deduplicated_trades =
            self.progress.data_quality.deduplicated_trades.saturating_add(1);
        }
        assert(counting(
            old(self).state(),
            told,
            writer_finished,
            self.state(),
            counted_result(result),
        ));
        result
    }

    pub fn capture_id(&self) -> (id: CaptureId)
        ensures
            id == self.id_view(),
    {
        self.capture_id
    }

    pub fn capture_directory(&self) -> (directory: &str)
        ensures
            directory@ == self.directory_view(),
    {
        self.capture_directory.as_str()
    }

    pub fn progress(&self) -> (progress: CaptureProgress)
        ensures
            progress == self.progress_view(),
    {
        self.progress
    }
}

/// A run whose end was handed to the writer. No further event can be offered to it.
pub struct FinishedCapture {
    command: FinishCommand,
    coordinator: CaptureCoordinator,
}

impl FinishedCapture {
    /// The command that ended the run.
    pub closed spec fn command_view(&self) -> FinishCommand {
        self.command
    }

    /// The commands that the run handed to the queue, in order.
    pub closed spec fn handed(&self) -> Seq<CommandView> {
        self.coordinator.handed()
    }

    /// The command that ended the run.
    pub fn command(&self) -> (command: FinishCommand)
        ensures
            command == self.command_view(),
    {
        self.command
    }
}

/// Why a run could not be ended: the writer's own words, if it left any.
pub fn undelivered(report: WriterReport) -> (error: CaptureCoordinatorError)
    ensures
        error@ == undelivered_error(report@),
{
    match report {
        WriterReport::Failed(detail) => CaptureCoordinatorError::WriterFailed(detail),
        _ => CaptureCoordinatorError::WriterFailed(
            "recorder thread disconnected before shutdown".to_owned(),
        ),
    }
}

/// A run that turned an event away takes in no other, and never counts as complete.
pub proof fn lemma_full_queue_ends_capture(
    before: CaptureProgress,
    event: EventView,
    report: WriterReportView,
    writer_finished: bool,
    requested_status: CaptureStatus,
    ended_at: WallTime,
)
    ensures
        offering(before.refused(), event, report, writer_finished) is Err,
        before.refused().next_capture_sequence == before.next_capture_sequence,
        finishing(before.refused(), requested_status, ended_at).status
            == CaptureStatus::IncompleteQueueFull,
{
}

/// Whether events that the queue took in one after the other led from one state to
/// another.
pub open spec fn took_in(
    before: CaptureProgress,
    events: Seq<EventView>,
    stored: Seq<StoredEventView>,
    after: CaptureProgress,
) -> bool
    decreases events.len(),
{
    &&& events.len() == stored.len()
    &&& if events.len() == 0 {
        after == before
    } else {
        exists|middle: CaptureProgress, bytes: u64, length: usize|
            {
                &&& took_in(before, events.drop_last(), stored.drop_last(), middle)
                &&& stored_form(middle.next_capture_sequence, events.last()) == Ok::<
                    StoredEventView,
                    StorageConversionError,
                >(stored.last())
                &&& middle.next_capture_sequence < u64::MAX
                &&& after == #[trigger] middle.advanced(events.last(), bytes, length)
            }
    }
}

/// The events that a run took in are numbered from one on, without gaps, whatever
/// the queue did in between.
pub proof fn lemma_accepted_events_contiguous(
    events: Seq<EventView>,
    stored: Seq<StoredEventView>,
    after: CaptureProgress,
)
    requires
        took_in(CaptureProgress::fresh(), events, stored, after),
    ensures
        after.next_capture_sequence == events.len() + 1,
        forall|i: int|
            0 <= i < stored.len() ==> (#[trigger] stored[i]).capture_sequence == i + 1,
        forall|i: int|
            0 <= i < stored.len() ==> stored_form((i + 1) as u64, events[i]) == Ok::<
                StoredEventView,
                StorageConversionError,
            >(#[trigger] stored[i]),
    decreases events.len(),
{
    if events.len() > 0 {
        let (middle, bytes, length) = choose|middle: CaptureProgress, bytes: u64, length: usize|
            {
                &&& took_in(
                    CaptureProgress::fresh(),
                    events.drop_last(),
                    stored.drop_last(),
                    middle,
                )
                &&& stored_form(middle.next_capture_sequence, events.last()) == Ok::<
                    StoredEventView,
                    StorageConversionError,
                >(stored.last())
                &&& middle.next_capture_sequence < u64::MAX
                &&& after == #[trigger] middle.advanced(events.last(), bytes, length)
            };
        lemma_accepted_events_contiguous(events.drop_last(), stored.drop_last(), middle);
        assert forall|i: int| 0 <= i < stored.len() implies (
        #[trigger] stored[i]).capture_sequence == i + 1 && stored_form((i + 1) as u64, events[i])
            == Ok::<StoredEventView, StorageConversionError>(stored[i]) by {
            if i < stored.len() - 1 {
                assert(stored[i] == stored.drop_last()[i]);
            }
        }
    }
}

/// One call that hands an event to the coordinator: what it was about, what came back, and
/// how it left the coordinator.
pub struct Attempt {
    pub event: EventView,
    pub first: WriterReportView,
    pub delivery: Delivery,
    pub writer_finished: bool,
    pub after: CaptureState,
    pub result: Result<u64, CoordinatorErrorView>,
}

/// The coordinator before one of a run of calls.
pub open spec fn state_before(start: CaptureState, attempts: Seq<Attempt>, i: int) -> CaptureState {
    if i <= 0 {
        start
    } else {
        attempts[i - 1].after
    }
}

/// Whether one of a run of calls is as `CaptureCoordinator::accept` makes it.
pub open spec fn attempted(start: CaptureState, attempts: Seq<Attempt>, i: int) -> bool {
    accepting(
        state_before(start, attempts, i),
        attempts[i].event,
        attempts[i].first,
        attempts[i].delivery,
        attempts[i].writer_finished,
        attempts[i].after,
        attempts[i].result,
    )
}

/// Whether calls follow one another from a start.
pub open spec fn run_of(start: CaptureState, attempts: Seq<Attempt>) -> bool {
    forall|i: int| 0 <= i < attempts.len() ==> #[trigger] attempted(start, attempts, i)
}

/// The storage forms of the events that were accepted in a run of calls, each under the
/// number it was accepted under.
pub open spec fn accepted_commands(attempts: Seq<Attempt>) -> Seq<CommandView>
    decreases attempts.len(),
{
    if attempts.len() == 0 {
        Seq::empty()
    } else {
        let earlier = accepted_commands(attempts.drop_last());
        match attempts.last().result {
            Ok(sequence) => earlier.push(
                CommandView::Event(stored_form(sequence, attempts.last().event)->Ok_0),
            ),
            Err(_) => earlier,
        }
    }
}

/// In every run of calls the accepted events are numbered from one on without gaps, and
/// exactly their storage forms, under these numbers and in this order, were handed to the
/// queue.
pub proof fn lemma_accepted_events_handed_over(start: CaptureState, attempts: Seq<Attempt>)
    requires
        run_of(start, attempts),
        start.progress == CaptureProgress::fresh(),
        attempts.len() < u64::MAX - 1,
    ensures
        state_before(start, attempts, attempts.len() as int).handed == start.handed
            + accepted_commands(attempts),
        state_before(start, attempts, attempts.len() as int).progress.next_capture_sequence
            == accepted_commands(attempts).len() + 1,
        accepted_commands(attempts).len() <= attempts.len(),
        forall|i: int|
            #![trigger attempts[i]]
            0 <= i < attempts.len() ==> (attempts[i].result matches Ok(sequence) ==> {
                &&& sequence == accepted_commands(attempts.take(i)).len() + 1
                &&& stored_form(sequence, attempts[i].event) is Ok
            }),
    decreases attempts.len(),
{
    if attempts.len() == 0 {
        assert(start.handed + accepted_commands(attempts) =~= start.handed);
    } else {
        let last = attempts.len() - 1;
        let earlier = attempts.drop_last();
        assert forall|i: int| 0 <= i < earlier.len() implies #[trigger] attempted(
            start,
            earlier,
            i,
        ) by {
            assert(attempted(start, attempts, i));
        }
        lemma_accepted_events_handed_over(start, earlier);
        assert(attempted(start, attempts, last));
        assert(state_before(start, earlier, last) == state_before(start, attempts, last));
        assert(attempts.take(last) =~= earlier);
        assert forall|i: int|
            #![trigger attempts[i]]
            0 <= i < attempts.len() implies (attempts[i].result matches Ok(sequence) ==> {
            &&& sequence == accepted_commands(attempts.take(i)).len() + 1
            &&& stored_form(sequence, attempts[i].event) is Ok
        }) by {
            if i < last {
                assert(attempts[i] == earlier[i]);
                assert(attempts.take(i) =~= earlier.take(i));
            }
        }
        let before = state_before(start, attempts, last);
        assert(attempts[last].after.handed =~= start.handed + accepted_commands(attempts));
    }
}

/// Once an event was turned away because the queue was full, no later call in the run hands
/// anything over or uses up a number, and each is refused for the same reason, unless the
/// writer reports a failure of its own.
pub proof fn lemma_full_queue_refuses_all(
    start: CaptureState,
    attempts: Seq<Attempt>,
    i: int,
    j: int,
)
    requires
        run_of(start, attempts),
        0 <= i <= j < attempts.len(),
        attempts[i].result == Err::<u64, CoordinatorErrorView>(CoordinatorErrorView::QueueFull),
    ensures
        attempts[j].after.handed == state_before(start, attempts, i).handed,
        attempts[j].after.progress.next_capture_sequence == state_before(
            start,
            attempts,
            i,
        ).progress.next_capture_sequence,
        attempts[j].after.progress.queue_full,
        attempts[j].result is Err,
        i < j && report_error(attempts[j].first, attempts[j].writer_finished) is None
            ==> attempts[j].result == Err::<u64, CoordinatorErrorView>(
            CoordinatorErrorView::QueueFull,
        ),
    decreases j - i,
{
    assert(attempted(start, attempts, j));
    if i < j {
        lemma_full_queue_refuses_all(start, attempts, i, j - 1);
    }
}

/// The settings of a capture run.
#[derive(Debug, Eq, PartialEq)]
pub struct CaptureSettings {
    pub data_dir: String,
    pub queue_capacity: usize,
    pub segment_limits: SegmentLimits,
    pub metadata: CaptureMetadata,
}

/// Whether a path is absolute: it starts at the root.
pub open spec fn is_absolute(path: Seq<char>) -> bool {
    path.len() > 0 && path[0] == '/'
}

/// Refuses a data directory that is not absolute.
pub fn check_data_directory(data_dir: &str) -> (result: Result<(), CaptureCoordinatorError>)
    ensures
        match result {
            Ok(()) => is_absolute(data_dir@),
            Err(error) => {
                &&& !is_absolute(data_dir@)
                &&& error@ == CoordinatorErrorView::DataDirectoryMustBeAbsolute(data_dir@)
            },
        },
{
    if data_dir.unicode_len() > 0 && data_dir.get_char(0) == '/' {
        Ok(())
    } else {
        Err(CaptureCoordinatorError::DataDirectoryMustBeAbsolute(data_dir.to_owned()))
    }
}

/// What a run starts with.
#[derive(Debug)]
pub struct StartedCapture {
    pub manifest: CaptureManifest,
    pub writer: SegmentWriter,
}

/// What speaks against starting a run, if anything does.
pub open spec fn start_error(
    data_dir: Seq<char>,
    limits: SegmentLimits,
    started_at: WallTime,
) -> Option<CoordinatorErrorView> {
    if !is_absolute(data_dir) {
        Some(CoordinatorErrorView::DataDirectoryMustBeAbsolute(data_dir))
    } else if unix_millis_value(started_at) is None {
        Some(
            CoordinatorErrorView::WriterFailed(SegmentWriterError::TimeBeforeUnixEpoch.message()),
        )
    } else if limits.max_duration / 1_000_000 > u64::MAX {
        Some(CoordinatorErrorView::Io("rotation duration exceeds manifest range"@))
    } else {
        None
    }
}

/// Starts a run of the given identity: its first manifest and its writer.
pub fn start_capture(settings: CaptureSettings, capture_id: CaptureId, started_at: WallTime) -> (result:
    Result<StartedCapture, CaptureCoordinatorError>)
    ensures
        match result {
            Ok(started) => {
                &&& start_error(
                    settings.data_dir@,
                    settings.segment_limits,
                    started_at,
                ) is None
                &&& started.manifest@ == started_manifest(
                    capture_id.bytes@,
                    unix_millis_value(started_at)->Some_0,
                    settings.queue_capacity,
                    settings.segment_limits,
                    settings.metadata@,
                    configuration_digest(settings.metadata@.configuration),
                )
                &&& started.writer == SegmentWriter::fresh(capture_id, settings.segment_limits)
            },
            Err(error) => start_error(
                settings.data_dir@,
                settings.segment_limits,
                started_at,
            ) == Some(error@),
        },
{
    match check_data_directory(settings.data_dir.as_str()) {
        Ok(()) => {},
        Err(error) => return Err(error),
    }
    let started_at_unix_millis: u64 = match unix_millis(started_at) {
        Ok(millis) => millis,
        Err(error) => return Err(map_writer_error(error)),
    };
    let manifest: CaptureManifest = match CaptureManifest::new(
        capture_id,
        started_at_unix_millis,
        settings.queue_capacity,
        settings.segment_limits,
        settings.metadata,
    ) {
        Ok(manifest) => manifest,
        Err(error) => return Err(CaptureCoordinatorError::Io(error)),
    };
    let writer: SegmentWriter = SegmentWriter::create(capture_id, settings.segment_limits);
    Ok(StartedCapture { manifest, writer })
}

fn map_writer_error(error: SegmentWriterError) -> (mapped: CaptureCoordinatorError)
    ensures
        mapped@ == CoordinatorErrorView::WriterFailed(error.message()),
{
    CaptureCoordinatorError::WriterFailed(error.to_text())
}

/// A manifest whose run has ended.
pub open spec fn finished_manifest(
    manifest: ManifestView,
    command: FinishCommand,
) -> ManifestView {
    ManifestView {
        capture_status: command.status,
        utc_end_unix_millis: unix_millis_value(command.ended_at),
        queue_high_water_mark: command.queue_high_water_mark,
        approximate_owned_event_bytes: command.approximate_owned_event_bytes,
        data_quality: command.data_quality,
        ..manifest
    }
}

/// Notes the end of a run, once its last segment was listed.
pub fn finish_manifest(manifest: &mut CaptureManifest, command: FinishCommand) -> (result: Result<
    (),
    SegmentWriterError,
>)
    ensures
        match result {
            Ok(()) => {
                &&& unix_millis_value(command.ended_at) is Some
                &&& final(manifest)@ == finished_manifest(old(manifest)@, command)
            },
            Err(error) => {
                &&& unix_millis_value(command.ended_at) is None
                &&& error == SegmentWriterError::TimeBeforeUnixEpoch
                &&& final(manifest)@ == (ManifestView {
                    capture_status: command.status,
                    ..old(manifest)@
                })
            },
        },
{
    manifest.capture_status = command.status;
    let ended_at: u64 = match unix_millis(command.ended_at) {
        Ok(millis) => millis,
        Err(error) => return Err(error),
    };
    manifest.utc_end_unix_millis = Some(ended_at);
    manifest.queue_high_water_mark = command.queue_high_water_mark;
    manifest.approximate_owned_event_bytes = command.approximate_owned_event_bytes;
    manifest.data_quality = command.data_quality;
    Ok(())
}

/// Notes that writing failed.
pub fn fail_manifest(manifest: &mut CaptureManifest, now: WallTime)
    ensures
        final(manifest)@ == (ManifestView {
            capture_status: CaptureStatus::IncompleteIoError,
            utc_end_unix_millis: unix_millis_value(now),
            ..old(manifest)@
        }),
{
    manifest.capture_status = CaptureStatus::IncompleteIoError;
    manifest.utc_end_unix_millis = match unix_millis(now) {
        Ok(millis) => Some(millis),
        Err(_) => None,
    };
}

/// What a crashed run left behind under the index of its next segment.
#[derive(Debug)]
pub enum InterruptedSegment {
    /// A finalized segment that the manifest does not list, with the time of its last
    /// change.
    Finalized { bytes: Vec<u8>, ended_at: WallTime },
    /// A segment that was being written.
    Open { bytes: Vec<u8> },
    Nothing,
}

/// The model of `InterruptedSegment`.
#[allow(inconsistent_fields)]
pub enum InterruptedView {
    Finalized { bytes: Seq<u8>, ended_at: WallTime },
    Open { bytes: Seq<u8> },
    Nothing,
}

impl View for InterruptedSegment {
    type V = InterruptedView;

    open spec fn view(&self) -> InterruptedView {
        match *self {
            InterruptedSegment::Finalized { bytes, ended_at } => InterruptedView::Finalized {
                bytes: bytes@,
                ended_at,
            },
            InterruptedSegment::Open { bytes } => InterruptedView::Open { bytes: bytes@ },
            InterruptedSegment::Nothing => InterruptedView::Nothing,
        }
    }
}

/// The index of the segment that a crashed run was writing; `None` for a run that did
/// not crash.
pub open spec fn interrupted_index(manifest: ManifestView) -> Result<
    Option<u32>,
    CoordinatorErrorView,
> {
    if manifest.capture_status != CaptureStatus::IncompleteProcessCrash {
        Ok(None)
    } else if manifest.segments.len() > u32::MAX {
        Err(CoordinatorErrorView::WriterFailed("recovery segment index overflow"@))
    } else {
        Ok(Some(manifest.segments.len() as u32))
    }
}

/// Whether a run crashed, and in which segment.
pub fn interrupted_segment(manifest: &CaptureManifest) -> (result: Result<
    Option<u32>,
    CaptureCoordinatorError,
>)
    ensures
        match result {
            Ok(index) => interrupted_index(manifest@) == Ok::<Option<u32>, CoordinatorErrorView>(
                index,
            ),
            Err(error) => interrupted_index(manifest@) == Err::<Option<u32>, CoordinatorErrorView>(
                error@,
            ),
        },
{
    if manifest.capture_status != CaptureStatus::IncompleteProcessCrash {
        return Ok(None);
    }
    if manifest.segments.len() as u64 > u32::MAX as u64 {
        return Err(
            CaptureCoordinatorError::WriterFailed("recovery segment index overflow".to_owned()),
        );
    }
    Ok(Some(manifest.segments.len() as u32))
}

/// The entry of a finalized segment that a crash kept out of the manifest.
pub open spec fn found_segment(
    index: u32,
    bytes: Seq<u8>,
    events: Seq<StoredEventView>,
    ended_at: WallTime,
) -> FinalizedView {
    FinalizedView {
        index,
        filename: log_name(index),
        first_capture_sequence: events[0].capture_sequence,
        last_capture_sequence: events.last().capture_sequence,
        record_count: events.len() as u64,
        byte_size: bytes.len() as u64,
        sha256: sha256(bytes),
        started_at_unix_millis: le_value(bytes.subrange(32, 40)) as u64,
        ended_at_unix_millis: unix_millis_value(ended_at)->Some_0,
        completion: SegmentCompletion::RecoveredAfterCrash,
    }
}

/// What becomes of a crashed run's manifest.
pub open spec fn repaired(
    manifest: ManifestView,
    index: u32,
    found: InterruptedView,
    recovered_at: WallTime,
) -> Result<Option<ManifestView>, CoordinatorErrorView> {
    let listed = match found {
        InterruptedView::Nothing => Ok(None),
        InterruptedView::Finalized { bytes, ended_at } => match segment_reading(
            log_name(index),
            bytes,
            manifest.capture_id,
            index,
        ) {
            Err(error) => Err(CoordinatorErrorView::WriterFailed(error.message())),
            Ok(events) => if unix_millis_value(ended_at) is None {
                Err(
                    CoordinatorErrorView::WriterFailed(
                        SegmentWriterError::TimeBeforeUnixEpoch.message(),
                    ),
                )
            } else {
                Ok(
                    Some(
                        manifest.segments.push(
                            entry_of(found_segment(index, bytes, events, ended_at)),
                        ),
                    ),
                )
            },
        },
        InterruptedView::Open { bytes } => match recovery(
            open_name(index),
            bytes,
            manifest.capture_id,
            index,
            recovered_at,
        ) {
            Err(error) => Err(CoordinatorErrorView::WriterFailed(error.message())),
            Ok(RecoveryView::Finalized { segment, .. }) => Ok(
                Some(manifest.segments.push(entry_of(segment))),
            ),
            Ok(RecoveryView::DiscardedEmpty { .. }) => Ok(Some(manifest.segments)),
        },
    };
    match listed {
        Err(error) => Err(error),
        Ok(None) => Ok(None),
        Ok(Some(segments)) => match unix_millis_value(recovered_at) {
            None => Err(
                CoordinatorErrorView::WriterFailed(
                    SegmentWriterError::TimeBeforeUnixEpoch.message(),
                ),
            ),
            Some(ended) => Ok(
                Some(ManifestView { segments, utc_end_unix_millis: Some(ended), ..manifest }),
            ),
        },
    }
}

/// A crashed run that was repaired: its manifest, and what is to be done with the open
/// segment before the manifest is written.
#[derive(Debug)]
pub struct RepairedCapture {
    pub manifest: CaptureManifest,
    pub outcome: Option<RecoveryOutcome>,
}

fn relisted_segment(
    manifest: &CaptureManifest,
    index: u32,
    bytes: &Vec<u8>,
    ended_at: WallTime,
) -> (result: Result<crate::recorder::writer::FinalizedSegment, CaptureCoordinatorError>)
    ensures
        match segment_reading(log_name(index), bytes@, manifest@.capture_id, index) {
            Err(error) => result is Err && result->Err_0@ == CoordinatorErrorView::WriterFailed(
                error.message(),
            ),
            Ok(events) => match unix_millis_value(ended_at) {
                None => result is Err && result->Err_0@ == CoordinatorErrorView::WriterFailed(
                    SegmentWriterError::TimeBeforeUnixEpoch.message(),
                ),
                Some(_) => result is Ok && result->Ok_0@ == found_segment(
                    index,
                    bytes@,
                    events,
                    ended_at,
                ),
            },
        },
{
    let read: ReadSegment = match read_segment(
        log_filename(index).as_str(),
        bytes.as_slice(),
        manifest.capture_id,
        index,
    ) {
        Ok(read) => read,
        Err(error) => return Err(CaptureCoordinatorError::WriterFailed(error.to_text())),
    };
    let last: usize = read.events.len() - 1;
    let ghost events = event_views(read.events@);
    assert(events[0] == read.events@[0]@);
    assert(events.last() == read.events@[last as int]@);
    let ended_at_unix_millis: u64 = match unix_millis(ended_at) {
        Ok(millis) => millis,
        Err(error) => return Err(map_writer_error(error)),
    };
    let closed: ClosedSegment = ClosedSegment {
        index,
        first_capture_sequence: read.events[0].capture_sequence(),
        last_capture_sequence: read.events[last].capture_sequence(),
        record_count: read.events.len() as u64,
        byte_size: read.byte_size,
        started_at_unix_millis: read.created_at_unix_millis,
        ended_at_unix_millis,
        completion: SegmentCompletion::RecoveredAfterCrash,
    };
    Ok(closed.finalize(read.sha256))
}

/// Repairs the manifest of a crashed run from what it left behind under the given
/// index. The run stays incomplete; `None` if there is nothing to repair.
pub fn recover_interrupted_capture(
    manifest: CaptureManifest,
    index: u32,
    found: InterruptedSegment,
    recovered_at: WallTime,
) -> (result: Result<Option<RepairedCapture>, CaptureCoordinatorError>)
    ensures
        match result {
            Ok(None) => repaired(manifest@, index, found@, recovered_at) == Ok::<
                Option<ManifestView>,
                CoordinatorErrorView,
            >(None),
            Ok(Some(capture)) => {
                &&& repaired(manifest@, index, found@, recovered_at) == Ok::<
                    Option<ManifestView>,
                    CoordinatorErrorView,
                >(Some(capture.manifest@))
                &&& match found@ {
                    InterruptedView::Open { bytes } => {
                        &&& capture.outcome is Some
                        &&& recovery(
                            open_name(index),
                            bytes,
                            manifest@.capture_id,
                            index,
                            recovered_at,
                        ) == Ok::<RecoveryView, RecoveryErrorView>(capture.outcome->Some_0@)
                    },
                    _ => capture.outcome is None,
                }
            },
            Err(error) => repaired(manifest@, index, found@, recovered_at) == Err::<
                Option<ManifestView>,
                CoordinatorErrorView,
            >(error@),
        },
{
    let mut repaired_manifest: CaptureManifest = manifest;
    let mut outcome: Option<RecoveryOutcome> = None;
    match found {
        InterruptedSegment::Nothing => return Ok(None),
        InterruptedSegment::Finalized { bytes, ended_at } => {
            match relisted_segment(&repaired_manifest, index, &bytes, ended_at) {
                Ok(segment) => repaired_manifest.add_segment(segment),
                Err(error) => return Err(error),
            }
        },
        InterruptedSegment::Open { bytes } => {
            let recovered: RecoveryOutcome = match recover_open_segment(
                open_filename(index).as_str(),
                bytes.as_slice(),
                repaired_manifest.capture_id,
                index,
                recovered_at,
            ) {
                Ok(recovered) => recovered,
                Err(error) => return Err(CaptureCoordinatorError::WriterFailed(error.to_text())),
            };
            match &recovered {
                RecoveryOutcome::Finalized { segment, .. } => {
                    repaired_manifest.add_segment(segment.clone());
                },
                RecoveryOutcome::DiscardedEmpty { .. } => {},
            }
            outcome = Some(recovered);
        },
    }
    let ended: u64 = match unix_millis(recovered_at) {
        Ok(millis) => millis,
        Err(error) => return Err(map_writer_error(error)),
    };
    repaired_manifest.utc_end_unix_millis = Some(ended);
    Ok(Some(RepairedCapture { manifest: repaired_manifest, outcome }))
}

/// Repairing a crashed run never makes it complete, and never continues it.
pub proof fn lemma_repaired_capture_stays_incomplete(
    manifest: ManifestView,
    index: u32,
    found: InterruptedView,
    recovered_at: WallTime,
)
    requires
        manifest.capture_status == CaptureStatus::IncompleteProcessCrash,
    ensures
        repaired(manifest, index, found, recovered_at) matches Ok(Some(after)) ==> {
            &&& after.capture_status == CaptureStatus::IncompleteProcessCrash
            &&& after.capture_id == manifest.capture_id
            &&& manifest.segments.len() <= after.segments.len() <= manifest.segments.len() + 1
            &&& after.segments.take(manifest.segments.len() as int) == manifest.segments
        },
{
    if let Ok(Some(after)) = repaired(manifest, index, found, recovered_at) {
        assert(after.segments.take(manifest.segments.len() as int) =~= manifest.segments);
    }
}

impl CoordinatorErrorView {
    /// The rendering of the error.
    pub open spec fn message(self) -> Seq<char> {
        match self {
            CoordinatorErrorView::DataDirectoryMustBeAbsolute(path) =>
                "DATA_DIR must be absolute: "@ + path,
            CoordinatorErrorView::Io(detail) => "capture I/O failed: "@ + detail,
            CoordinatorErrorView::StorageConversion(error) => error.message(),
            CoordinatorErrorView::QueueFull => "recorder queue is full"@,
            CoordinatorErrorView::WriterFailed(detail) => "recorder writer failed: "@ + detail,
            CoordinatorErrorView::WriterThreadPanicked => "recorder thread panicked"@,
            CoordinatorErrorView::SequenceOverflow => "Capture Sequence overflow"@,
            CoordinatorErrorView::AlreadyFinished => "Capture Run is already finished"@,
        }
    }
}

impl CaptureCoordinatorError {
    pub fn to_text(&self) -> (text: String)
        ensures
            text@ == self@.message(),
    {
        match self {
            CaptureCoordinatorError::DataDirectoryMustBeAbsolute(path) => prefixed(
                "DATA_DIR must be absolute: ",
                path.as_str(),
            ),
            CaptureCoordinatorError::Io(detail) => prefixed(
                "capture I/O failed: ",
                detail.as_str(),
            ),
            CaptureCoordinatorError::StorageConversion(error) => error.to_text(),
            CaptureCoordinatorError::QueueFull => "recorder queue is full".to_owned(),
            CaptureCoordinatorError::WriterFailed(detail) => prefixed(
                "recorder writer failed: ",
                detail.as_str(),
            ),
            CaptureCoordinatorError::WriterThreadPanicked => "recorder thread panicked".to_owned(),
            CaptureCoordinatorError::SequenceOverflow => "Capture Sequence overflow".to_owned(),
            CaptureCoordinatorError::AlreadyFinished =>
                "Capture Run is already finished".to_owned(),
        }
    }
}

} // verus!
