//! Fetching a gcode file from the printer and having it analyzed: the request, the
//! name of the file, and the course of the transfer.

use crate::bambu_print::FilamentUsage;
use crate::net::Ipv4Address;
use crate::numbers::{digits_of, int_text, write_digits};
use crate::text::{append, chars_of, cut, find_from, lemma_position_is, position, text_of};
use vstd::prelude::*;

verus! {

/// A request for the analysis of a print.
#[derive(Debug)]
pub struct GcodeAnalysisRequest {
    pub ip: Ipv4Address,
    pub serial: String,
    pub access_code: String,
    pub subtask_name: String,
    pub plate_idx: u32,
    pub printer_index: usize,
    pub printer_number: usize,
}

/// Who is told of a finished analysis.
pub trait GcodeAnalyzerObserver {
    /// The gcode of the print on a printer has been analyzed.
    fn on_gcode_analysis(&mut self, printer_index: usize, filament_usage: FilamentUsage);
}

/// The port of the printer for file transfers.
pub const FTP_PORT: u16 = 990;

impl GcodeAnalysisRequest {
    /// The gcode file on the printer: the name of the print up to its first dot, and
    /// the plate.
    pub open spec fn file_name(self) -> Seq<char> {
        "/cache/"@ + self.subtask_name@.take(position(self.subtask_name@, '.')) + "_plate_"@ + digits_of(
            self.plate_idx as nat,
        ) + ".gcode"@
    }

    /// The gcode file on the printer.
    pub fn gcode_file_name(&self) -> (r: String)
        ensures
            r@ == self.file_name(),
    {
        let name = chars_of(self.subtask_name.as_str());
        proof {
            assert(name@.skip(0) =~= name@);
        }
        let end = find_from(name.as_slice(), '.', 0);
        let start = cut(name.as_slice(), 0, end);
        proof {
            assert(start@ =~= name@.take(end as int));
        }
        let mut path = chars_of("/cache/");
        append(&mut path, start.as_slice());
        let middle = chars_of("_plate_");
        append(&mut path, middle.as_slice());
        let plate = write_digits(self.plate_idx as u64);
        append(&mut path, plate.as_slice());
        let ending = chars_of(".gcode");
        append(&mut path, ending.as_slice());
        text_of(path.as_slice())
    }
}

/// Where a transfer stands.
#[derive(Clone, Copy, Debug, PartialEq, Eq, Structural)]
pub enum FetchStage {
    Connecting,
    LoggingIn,
    Opening,
    Reading,
    /// The request is done with: analyzed or given up.
    Idle,
}

/// What has happened in a transfer.
#[derive(Clone, Copy, Debug, PartialEq, Eq, Structural)]
pub enum FetchEvent {
    /// What was asked for was done.
    Done,
    /// The login was refused.
    Refused,
    /// Bytes arrived and were read as gcode.
    Read,
    /// The file has ended.
    Ended,
    /// Something failed.
    Failed,
}

/// What is to be done next in a transfer.
#[derive(Clone, Copy, Debug, PartialEq, Eq, Structural)]
pub enum FetchAction {
    LogIn,
    OpenFile,
    Read,
    /// Close the last layer, end the dialogue, and tell the observer.
    Complete,
    /// Wait for the next request.
    Abandon,
}

/// The course of a transfer: connect, log in, open the file, read it to its end. What
/// fails or is refused on the way is given up.
pub open spec fn fetch_next(stage: FetchStage, event: FetchEvent) -> (FetchStage, FetchAction) {
    match (stage, event) {
        (FetchStage::Connecting, FetchEvent::Done) => (FetchStage::LoggingIn, FetchAction::LogIn),
        (FetchStage::LoggingIn, FetchEvent::Done) => (FetchStage::Opening, FetchAction::OpenFile),
        (FetchStage::Opening, FetchEvent::Done) => (FetchStage::Reading, FetchAction::Read),
        (FetchStage::Reading, FetchEvent::Read) => (FetchStage::Reading, FetchAction::Read),
        (FetchStage::Reading, FetchEvent::Ended) => (FetchStage::Idle, FetchAction::Complete),
        _ => (FetchStage::Idle, FetchAction::Abandon),
    }
}

impl FetchStage {
    /// Goes on with a transfer.
    pub fn next(&mut self, event: FetchEvent) -> (r: FetchAction)
        ensures
            (*final(self), r) == fetch_next(*old(self), event),
    {
        let stage = *self;
        match (stage, event) {
            (FetchStage::Connecting, FetchEvent::Done) => {
                *self = FetchStage::LoggingIn;
                FetchAction::LogIn
            },
            (FetchStage::LoggingIn, FetchEvent::Done) => {
                *self = FetchStage::Opening;
                FetchAction::OpenFile
            },
            (FetchStage::Opening, FetchEvent::Done) => {
                *self = FetchStage::Reading;
                FetchAction::Read
            },
            (FetchStage::Reading, FetchEvent::Read) => FetchAction::Read,
            (FetchStage::Reading, FetchEvent::Ended) => {
                *self = FetchStage::Idle;
                FetchAction::Complete
            },
            _ => {
                *self = FetchStage::Idle;
                FetchAction::Abandon
            },
        }
    }
}

/// The stage after a number of events.
pub open spec fn stage_after(events: Seq<FetchEvent>) -> FetchStage
    decreases events.len(),
{
    if events.len() == 0 {
        FetchStage::Connecting
    } else {
        fetch_next(stage_after(events.drop_last()), events.last()).0
    }
}

/// A file is completed only after connection, login and opening have each been done,
/// and everything after them was read.
pub proof fn only_a_whole_file_is_completed(events: Seq<FetchEvent>, last: FetchEvent)
    requires
        fetch_next(stage_after(events), last).1 == FetchAction::Complete,
    ensures
        last == FetchEvent::Ended,
        events.len() >= 3,
        events[0] == FetchEvent::Done,
        events[1] == FetchEvent::Done,
        events[2] == FetchEvent::Done,
        forall|i: int| 3 <= i < events.len() ==> #[trigger] events[i] == FetchEvent::Read,
{
    lemma_stage(events);
}

proof fn lemma_stage(events: Seq<FetchEvent>)
    ensures
        stage_after(events) == FetchStage::Connecting ==> events.len() == 0,
        stage_after(events) == FetchStage::LoggingIn ==> events == seq![FetchEvent::Done],
        stage_after(events) == FetchStage::Opening ==> events == seq![FetchEvent::Done, FetchEvent::Done],
        stage_after(events) == FetchStage::Reading ==> events.len() >= 3 && events.take(3) == seq![
            FetchEvent::Done,
            FetchEvent::Done,
            FetchEvent::Done,
        ] && forall|i: int| 3 <= i < events.len() ==> #[trigger] events[i] == FetchEvent::Read,
        stage_after(events) == FetchStage::Reading ==> events[0] == FetchEvent::Done && events[1] == FetchEvent::Done
            && events[2] == FetchEvent::Done,
    decreases events.len(),
{
    if events.len() > 0 {
        let before = events.drop_last();
        lemma_stage(before);
        assert(events =~= before.push(events.last()));
        if stage_after(events) == FetchStage::LoggingIn {
            assert(events =~= seq![FetchEvent::Done]);
        }
        if stage_after(events) == FetchStage::Opening {
            assert(events =~= seq![FetchEvent::Done, FetchEvent::Done]);
        }
        if stage_after(events) == FetchStage::Reading {
            if stage_after(before) == FetchStage::Reading {
                assert(events.take(3) =~= before.take(3));
                assert forall|i: int| 3 <= i < events.len() implies #[trigger] events[i] == FetchEvent::Read by {
                    if i < before.len() {
                        assert(events[i] == before[i]);
                    }
                }
            } else {
                assert(events =~= seq![FetchEvent::Done, FetchEvent::Done, FetchEvent::Done]);
                assert(events.take(3) =~= events);
            }
        }
    }
}

/// Whether the dialogue is to be kept alive: more than thirty seconds have passed since
/// the last time. Times are in milliseconds.
pub fn noop_due(now: u64, last_noop: u64) -> (r: bool)
    requires
        last_noop <= now,
    ensures
        r == (now - last_noop > 30_000),
{
    now - last_noop > 30_000
}

/// The gcode file lies in the cache, under the name of the print up to its first dot and
/// the number of the plate.
pub proof fn file_is_named_up_to_the_first_dot(request: GcodeAnalysisRequest, name: Seq<char>, rest: Seq<char>)
    requires
        !name.contains('.'),
        request.subtask_name@ == name || request.subtask_name@ == name + seq!['.'] + rest,
    ensures
        request.file_name() == "/cache/"@ + name + "_plate_"@ + int_text(request.plate_idx as int) + ".gcode"@,
{
    let whole = request.subtask_name@;
    assert forall|i: int| 0 <= i < name.len() implies name[i] != '.' by {
        assert(name.contains(name[i]));
    }
    lemma_position_is(whole, '.', name.len() as int);
    assert(whole.take(name.len() as int) =~= name);
}

/// The course of a transfer, step by step. Whatever does not belong there ends it.
pub proof fn steps_follow_each_other(stage: FetchStage, event: FetchEvent)
    ensures
        ({
            let (next, action) = fetch_next(stage, event);
            &&& action == FetchAction::LogIn <==> stage == FetchStage::Connecting && event == FetchEvent::Done
            &&& action == FetchAction::OpenFile <==> stage == FetchStage::LoggingIn && event == FetchEvent::Done
            &&& action == FetchAction::Read <==> (stage == FetchStage::Opening && event == FetchEvent::Done) || (stage
                == FetchStage::Reading && event == FetchEvent::Read)
            &&& action == FetchAction::Complete <==> stage == FetchStage::Reading && event == FetchEvent::Ended
            &&& action == FetchAction::LogIn ==> next == FetchStage::LoggingIn
            &&& action == FetchAction::OpenFile ==> next == FetchStage::Opening
            &&& action == FetchAction::Read ==> next == FetchStage::Reading
            &&& action == FetchAction::Complete || action == FetchAction::Abandon ==> next == FetchStage::Idle
        }),
{
}

/// A file that is read to its end, after connection, login and opening have been done, is
/// completed.
pub proof fn whole_file_is_completed(events: Seq<FetchEvent>)
    requires
        events.len() >= 3,
        events[0] == FetchEvent::Done,
        events[1] == FetchEvent::Done,
        events[2] == FetchEvent::Done,
        forall|i: int| 3 <= i < events.len() ==> #[trigger] events[i] == FetchEvent::Read,
    ensures
        stage_after(events) == FetchStage::Reading,
        fetch_next(stage_after(events), FetchEvent::Ended).1 == FetchAction::Complete,
    decreases events.len(),
{
    let before = events.drop_last();
    if events.len() == 3 {
        reveal_with_fuel(stage_after, 4);
        assert(before.drop_last().drop_last().len() == 0);
    } else {
        assert forall|i: int| 3 <= i < before.len() implies #[trigger] before[i] == FetchEvent::Read by {
            assert(events[i] == FetchEvent::Read);
        }
        assert(events[events.len() - 1] == FetchEvent::Read);
        whole_file_is_completed(before);
    }
}

} // verus!
