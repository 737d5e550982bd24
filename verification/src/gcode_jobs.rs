//! The jobs of analyzing gcode: their numbers, what each needs, and where each is
//! run. Memory limits how many encrypted connections the console and the scale can
//! keep at a time.

use crate::bambu::{BambuPrinter, PrinterModelSeries};
use crate::bambu_print::{Fetch3mf, PrintProject};
use crate::net::Ipv4Address;
use crate::text::{append, begins, chars_of, starts_with, text_of};
use vstd::prelude::*;

verus! {

/// A request for the analysis of a sliced project.
#[derive(Debug)]
pub struct ThreeMfAnalysisRequest {
    pub fetch_3mf: Fetch3mf,
    pub ip: Option<Ipv4Address>,
    pub serial: String,
    pub access_code: String,
    pub printer_number: usize,
    pub printer_index: usize,
    pub threemf_ftp_filename: String,
    pub job_number: i32,
    pub threemf_url: String,
    pub gcode_filename_in_3mf: String,
    pub ftp_memory_save: bool,
}

/// Where a job is.
#[derive(Clone, Copy, Debug, PartialEq, Eq, Structural)]
pub enum GcodeJobLocation {
    Console,
    Scale,
    Pending,
}

/// A job.
#[derive(Debug)]
pub struct GcodeJob {
    pub job_number: i32,
    pub job_location: GcodeJobLocation,
    pub tls_slots: usize,
    pub analysis_request: Option<ThreeMfAnalysisRequest>,
}

/// The jobs that are not done, in the order of their requests.
#[derive(Debug)]
pub struct GcodeJobs {
    pub last_job_number: i32,
    pub jobs: Vec<GcodeJob>,
    /// How many tasks on the console run or await jobs.
    pub console_tasks: usize,
}

/// What is to be done to have the next job run.
#[derive(Debug)]
pub enum Dispatch {
    /// No job is waiting.
    Idle,
    /// A job is waiting, and there is no room for it.
    Wait,
    /// Start another task on the console with the request.
    Launch { first_request: Option<ThreeMfAnalysisRequest> },
    /// Hand the request of the job at `index` to a task on the console that is waiting.
    Console { index: usize, request: ThreeMfAnalysisRequest },
    /// Hand the request of the job at `index` to the scale.
    Scale { index: usize, request: ThreeMfAnalysisRequest },
}

/// Where a job is to be run.
pub ghost enum Destination {
    NoJob,
    NewTask,
    Console,
    Scale,
    Nowhere,
}

/// Where a decision has a job run.
pub open spec fn destination_of(r: Dispatch) -> Destination {
    match r {
        Dispatch::Idle => Destination::NoJob,
        Dispatch::Wait => Destination::Nowhere,
        Dispatch::Launch { first_request } => Destination::NewTask,
        Dispatch::Console { index, request } => Destination::Console,
        Dispatch::Scale { index, request } => Destination::Scale,
    }
}

/// The connections that a job needs. A transfer from the printer takes two on the
/// models that keep the control connection open.
pub open spec fn slots_needed(printer: BambuPrinter, project: PrintProject) -> usize {
    if printer.fetch_3mf == Fetch3mf::PrinterFtp || starts_with(project.gcode_filename_in_3mf@, "file://"@)
        || starts_with(project.gcode_filename_in_3mf@, "ftp://"@) {
        match printer.model_series {
            PrinterModelSeries::P1 | PrinterModelSeries::A1 => 1,
            _ => 2,
        }
    } else {
        1
    }
}

/// A printer replaces this character in file names.
pub open spec fn replaced_in_names(model: PrinterModelSeries, c: char) -> bool {
    match model {
        PrinterModelSeries::P1 | PrinterModelSeries::A1 => c == '!' || c == '@' || c == '#' || c == '\'' || c == '/',
        _ => c == '/',
    }
}

/// The sliced project on the printer.
pub open spec fn project_file(model: PrinterModelSeries, name: Seq<char>) -> Seq<char> {
    "/cache/"@ + name.map_values(|c: char| if replaced_in_names(model, c) { '_' } else { c }) + ".3mf"@
}

fn is_replaced(model: PrinterModelSeries, c: char) -> (r: bool)
    ensures
        r == replaced_in_names(model, c),
{
    match model {
        PrinterModelSeries::P1 | PrinterModelSeries::A1 => c == '!' || c == '@' || c == '#' || c == '\'' || c == '/',
        _ => c == '/',
    }
}

/// The sliced project on the printer.
pub fn project_file_name(model: PrinterModelSeries, name: &str) -> (r: String)
    ensures
        r@ == project_file(model, name@),
{
    let chars = chars_of(name);
    let ghost f = |c: char| if replaced_in_names(model, c) { '_' } else { c };
    let mut path = chars_of("/cache/");
    let ghost dir = path@;
    let mut i: usize = 0;
    proof {
        assert(path@ =~= dir + chars@.map_values(f).take(0));
    }
    while i < chars.len()
        invariant
            i <= chars@.len(),
            f == (|c: char| if replaced_in_names(model, c) { '_' } else { c }),
            path@ =~= dir + chars@.map_values(f).take(i as int),
        decreases chars@.len() - i,
    {
        let c = chars[i];
        path.push(if is_replaced(model, c) { '_' } else { c });
        i += 1;
        proof {
            assert(chars@.map_values(f).take(i as int) =~= chars@.map_values(f).take(i - 1).push(f(c)));
        }
    }
    proof {
        assert(chars@.map_values(f).take(chars@.len() as int) =~= chars@.map_values(f));
    }
    let ending = chars_of(".3mf");
    append(&mut path, ending.as_slice());
    text_of(path.as_slice())
}

/// The connections that the jobs at a place take.
pub open spec fn slots_used(jobs: Seq<GcodeJob>, at: GcodeJobLocation) -> int
    decreases jobs.len(),
{
    if jobs.len() == 0 {
        0
    } else {
        slots_used(jobs.drop_last(), at) + if jobs.last().job_location == at {
            jobs.last().tls_slots as int
        } else {
            0
        }
    }
}

/// The number of jobs at a place.
pub open spec fn jobs_at(jobs: Seq<GcodeJob>, at: GcodeJobLocation) -> int
    decreases jobs.len(),
{
    if jobs.len() == 0 {
        0
    } else {
        jobs_at(jobs.drop_last(), at) + if jobs.last().job_location == at {
            1int
        } else {
            0int
        }
    }
}

/// Where the first waiting job stands, or the length where none waits.
pub open spec fn first_pending(jobs: Seq<GcodeJob>) -> int
    decreases jobs.len(),
{
    if jobs.len() == 0 {
        0
    } else if jobs[0].job_location == GcodeJobLocation::Pending {
        0
    } else {
        1 + first_pending(jobs.skip(1))
    }
}

/// A job that is called off before it was handed out, or that is done, is removed.
pub open spec fn without(jobs: Seq<GcodeJob>, job_number: i32, only_pending: bool) -> Seq<GcodeJob>
    decreases jobs.len(),
{
    if jobs.len() == 0 {
        seq![]
    } else {
        let j = jobs.last();
        if j.job_number == job_number && (!only_pending || j.job_location == GcodeJobLocation::Pending) {
            without(jobs.drop_last(), job_number, only_pending)
        } else {
            without(jobs.drop_last(), job_number, only_pending).push(j)
        }
    }
}

proof fn lemma_slots_prefix(jobs: Seq<GcodeJob>, at: GcodeJobLocation, k: int)
    requires
        0 <= k <= jobs.len(),
    ensures
        0 <= slots_used(jobs.take(k), at) <= slots_used(jobs, at),
        0 <= jobs_at(jobs.take(k), at) <= k,
    decreases jobs.len(),
{
    if jobs.len() > 0 {
        if k < jobs.len() {
            lemma_slots_prefix(jobs.drop_last(), at, k);
            assert(jobs.drop_last().take(k) =~= jobs.take(k));
        } else {
            lemma_slots_prefix(jobs.drop_last(), at, k - 1);
            assert(jobs.take(k) =~= jobs);
            assert(jobs.drop_last().take(k - 1) =~= jobs.drop_last());
        }
    } else {
        assert(jobs.take(k) =~= jobs);
    }
}

proof fn lemma_first_pending(jobs: Seq<GcodeJob>, k: int)
    requires
        0 <= k <= jobs.len(),
        forall|i: int| 0 <= i < k ==> (#[trigger] jobs[i]).job_location != GcodeJobLocation::Pending,
    ensures
        k == jobs.len() || jobs[k].job_location == GcodeJobLocation::Pending ==> first_pending(jobs) == k,
    decreases jobs.len(),
{
    if jobs.len() > 0 && k > 0 {
        assert(jobs[0].job_location != GcodeJobLocation::Pending);
        assert forall|i: int| 0 <= i < k - 1 implies (#[trigger] jobs.skip(1)[i]).job_location
            != GcodeJobLocation::Pending by {
            assert(jobs.skip(1)[i] == jobs[i + 1]);
        }
        lemma_first_pending(jobs.skip(1), k - 1);
    }
}

/// Moving a waiting job to a place adds its connections there and nowhere else.
proof fn lemma_slots_moved(jobs: Seq<GcodeJob>, index: int, moved: GcodeJob, at: GcodeJobLocation)
    requires
        0 <= index < jobs.len(),
        jobs[index].job_location == GcodeJobLocation::Pending,
        moved.tls_slots == jobs[index].tls_slots,
        at != GcodeJobLocation::Pending,
    ensures
        slots_used(jobs.update(index, moved), at) == slots_used(jobs, at) + if moved.job_location == at {
            moved.tls_slots as int
        } else {
            0
        },
    decreases jobs.len(),
{
    let now = jobs.update(index, moved);
    if index == jobs.len() - 1 {
        assert(now.drop_last() =~= jobs.drop_last());
    } else {
        assert(now.drop_last() =~= jobs.drop_last().update(index, moved));
        lemma_slots_moved(jobs.drop_last(), index, moved, at);
    }
}

impl GcodeJobs {
    /// Every job has a number of its own, and none is above the last.
    pub open spec fn wf(self) -> bool {
        &&& forall|i: int|
            0 <= i < self.jobs@.len() ==> (#[trigger] self.jobs@[i]).job_number <= self.last_job_number
        &&& forall|i: int, j: int|
            0 <= i < j < self.jobs@.len() ==> (#[trigger] self.jobs@[i]).job_number != (
            #[trigger] self.jobs@[j]).job_number
    }

    /// No job yet.
    pub fn new() -> (r: Self)
        ensures
            r.wf(),
            r.last_job_number == 0,
            r.jobs@.len() == 0,
            r.console_tasks == 0,
    {
        GcodeJobs { last_job_number: 0, jobs: Vec::new(), console_tasks: 0 }
    }

    /// Takes a request for the analysis of a print on as a waiting job with the next
    /// number, and gives the number.
    pub fn on_request_gcode_analysis(&mut self, printer: &BambuPrinter, print_project: &PrintProject) -> (job_number: i32)
        requires
            old(self).wf(),
            old(self).last_job_number < i32::MAX,
        ensures
            final(self).wf(),
            job_number == old(self).last_job_number + 1,
            final(self).last_job_number == job_number,
            final(self).console_tasks == old(self).console_tasks,
            final(self).jobs@.len() == old(self).jobs@.len() + 1,
            final(self).jobs@.drop_last() == old(self).jobs@,
            ({
                let job = final(self).jobs@.last();
                let slots = slots_needed(*printer, *print_project);
                &&& job.job_number == job_number
                &&& job.job_location == GcodeJobLocation::Pending
                &&& job.tls_slots == slots
                &&& job.analysis_request is Some
                &&& ({
                    let q = job.analysis_request->0;
                    &&& q.fetch_3mf == printer.fetch_3mf
                    &&& q.ip == printer.printer_ip
                    &&& q.serial == printer.printer_serial
                    &&& q.access_code == printer.printer_access_code
                    &&& q.printer_number == printer.printer_number
                    &&& q.printer_index == printer.printer_index
                    &&& q.threemf_ftp_filename@ == project_file(printer.model_series, print_project.subtask_name@)
                    &&& q.job_number == job_number
                    &&& q.threemf_url == print_project.threemf_url
                    &&& q.gcode_filename_in_3mf == print_project.gcode_filename_in_3mf
                    &&& q.ftp_memory_save == (slots == 1)
                })
            }),
    {
        let file = chars_of(print_project.gcode_filename_in_3mf.as_str());
        let tls_slots: usize = if printer.fetch_3mf == Fetch3mf::PrinterFtp || begins(file.as_slice(), "file://")
            || begins(file.as_slice(), "ftp://") {
            match printer.model_series {
                PrinterModelSeries::P1 | PrinterModelSeries::A1 => 1,
                _ => 2,
            }
        } else {
            1
        };
        self.last_job_number = self.last_job_number + 1;
        let job_number = self.last_job_number;
        let request = ThreeMfAnalysisRequest {
            fetch_3mf: printer.fetch_3mf,
            ip: printer.printer_ip,
            serial: printer.printer_serial.clone(),
            access_code: printer.printer_access_code.clone(),
            printer_number: printer.printer_number,
            printer_index: printer.printer_index,
            threemf_ftp_filename: project_file_name(printer.model_series, print_project.subtask_name.as_str()),
            job_number,
            threemf_url: print_project.threemf_url.clone(),
            gcode_filename_in_3mf: print_project.gcode_filename_in_3mf.clone(),
            ftp_memory_save: tls_slots == 1,
        };
        self.jobs.push(
            GcodeJob {
                job_number,
                job_location: GcodeJobLocation::Pending,
                tls_slots,
                analysis_request: Some(request),
            },
        );
        proof {
            assert(self.jobs@.drop_last() =~= old(self).jobs@);
        }
        job_number
    }

    /// The connections that the jobs at a place take, where they are at most `most`.
    fn slots_up_to(&self, at: GcodeJobLocation, most: usize) -> (r: Option<usize>)
        ensures
            match r {
                Some(n) => n == slots_used(self.jobs@, at) && n <= most,
                None => slots_used(self.jobs@, at) > most,
            },
    {
        let mut sum: usize = 0;
        let mut i: usize = 0;
        proof {
            assert(self.jobs@.take(0).len() == 0);
        }
        while i < self.jobs.len()
            invariant
                i <= self.jobs@.len(),
                sum <= most,
                sum == slots_used(self.jobs@.take(i as int), at),
            decreases self.jobs@.len() - i,
        {
            proof {
                assert(self.jobs@.take(i + 1).drop_last() =~= self.jobs@.take(i as int));
                lemma_slots_prefix(self.jobs@, at, i + 1);
            }
            if self.jobs[i].job_location == at {
                if self.jobs[i].tls_slots > most - sum {
                    return None;
                }
                sum += self.jobs[i].tls_slots;
            }
            i += 1;
        }
        proof {
            assert(self.jobs@.take(self.jobs@.len() as int) =~= self.jobs@);
        }
        Some(sum)
    }

    fn count_jobs(&self, at: GcodeJobLocation) -> (r: usize)
        ensures
            r == jobs_at(self.jobs@, at),
    {
        let mut count: usize = 0;
        let mut i: usize = 0;
        proof {
            assert(self.jobs@.take(0).len() == 0);
        }
        while i < self.jobs.len()
            invariant
                i <= self.jobs@.len(),
                self.jobs@.len() == self.jobs.len(),
                count <= i,
                count == jobs_at(self.jobs@.take(i as int), at),
            decreases self.jobs@.len() - i,
        {
            proof {
                assert(self.jobs@.take(i + 1).drop_last() =~= self.jobs@.take(i as int));
            }
            if self.jobs[i].job_location == at {
                count += 1;
            }
            i += 1;
        }
        proof {
            assert(self.jobs@.take(self.jobs@.len() as int) =~= self.jobs@);
        }
        count
    }

    fn find_pending(&self) -> (r: usize)
        ensures
            r == first_pending(self.jobs@),
            r <= self.jobs@.len(),
            r < self.jobs@.len() ==> self.jobs@[r as int].job_location == GcodeJobLocation::Pending,
    {
        let mut i: usize = 0;
        while i < self.jobs.len() && self.jobs[i].job_location != GcodeJobLocation::Pending
            invariant
                i <= self.jobs@.len(),
                forall|j: int|
                    0 <= j < i ==> (#[trigger] self.jobs@[j]).job_location != GcodeJobLocation::Pending,
            decreases self.jobs@.len() - i,
        {
            i += 1;
        }
        proof {
            lemma_first_pending(self.jobs@, i as int);
        }
        i
    }

    /// The connections that the console can keep beside those to the printers.
    pub open spec fn console_capacity(printers: int) -> int {
        3 - printers
    }

    /// The connections that the scale can keep.
    pub open spec fn scale_capacity(available: bool) -> int {
        if available {
            4
        } else {
            0
        }
    }

    /// There is room on the console for the first waiting job.
    pub open spec fn fits_console(self, printers: int) -> bool {
        Self::console_capacity(printers) - slots_used(self.jobs@, GcodeJobLocation::Console)
            >= self.jobs@[first_pending(self.jobs@)].tls_slots
    }

    /// There is room on the scale for the first waiting job.
    pub open spec fn fits_scale(self, scale_available: bool) -> bool {
        Self::scale_capacity(scale_available) - slots_used(self.jobs@, GcodeJobLocation::Scale)
            >= self.jobs@[first_pending(self.jobs@)].tls_slots
    }

    /// A task on the console is free.
    pub open spec fn task_is_free(self) -> bool {
        self.console_tasks > jobs_at(self.jobs@, GcodeJobLocation::Console)
    }

    /// Where the first waiting job is to be run.
    pub open spec fn destination(self, printers: int, scale_available: bool) -> Destination {
        if first_pending(self.jobs@) >= self.jobs@.len() {
            Destination::NoJob
        } else if self.fits_console(printers) {
            if self.task_is_free() {
                Destination::Console
            } else {
                Destination::NewTask
            }
        } else if self.fits_scale(scale_available) {
            Destination::Scale
        } else {
            Destination::Nowhere
        }
    }

    /// The jobs with the first waiting one handed to a place, request and all.
    pub open spec fn placed(self, at: GcodeJobLocation) -> Seq<GcodeJob> {
        let p = first_pending(self.jobs@);
        self.jobs@.update(p, GcodeJob { job_location: at, analysis_request: None, ..self.jobs@[p] })
    }

    /// The first waiting job can be handed out: what is in use on the console is within
    /// its capacity, and the job still has its request where it is sent.
    pub open spec fn dispatchable(self, printers: int, scale_available: bool) -> bool {
        let p = first_pending(self.jobs@);
        &&& 0 <= printers <= 3
        &&& p < self.jobs@.len() ==> {
            &&& slots_used(self.jobs@, GcodeJobLocation::Console) <= Self::console_capacity(printers)
            &&& self.fits_console(printers) && !self.task_is_free() ==> self.console_tasks < usize::MAX
            &&& (self.fits_console(printers) && self.task_is_free()) || (!self.fits_console(printers)
                && self.fits_scale(scale_available)) ==> self.jobs@[p].analysis_request is Some
        }
    }

    /// Whether the first waiting job can be handed out.
    pub fn can_dispatch(&self, printers: usize, scale_available: bool) -> (r: bool)
        ensures
            r == self.dispatchable(printers as int, scale_available),
    {
        if printers > 3 {
            return false;
        }
        let pending = self.find_pending();
        if pending == self.jobs.len() {
            return true;
        }
        let tls_slots = self.jobs[pending].tls_slots;
        let has_request = self.jobs[pending].analysis_request.is_some();
        match self.slots_up_to(GcodeJobLocation::Console, 3 - printers) {
            None => false,
            Some(console_used) => {
                if 3 - printers - console_used >= tls_slots {
                    let free = self.console_tasks > self.count_jobs(GcodeJobLocation::Console);
                    if free {
                        has_request
                    } else {
                        self.console_tasks < usize::MAX
                    }
                } else {
                    let scale_capacity: usize = if scale_available { 4 } else { 0 };
                    match self.slots_up_to(GcodeJobLocation::Scale, scale_capacity) {
                        None => true,
                        Some(scale_used) => scale_capacity - scale_used < tls_slots || has_request,
                    }
                }
            },
        }
    }

    /// Decides where the first waiting job is to be run: on the console if there is
    /// room, by a new task if none is free; else on the scale if there is room. A scale
    /// that has gone has none, whatever is still run there.
    pub fn try_dispatch_next_gcode_job(&mut self, printers: usize, scale_available: bool) -> (r: Dispatch)
        requires
            old(self).wf(),
            old(self).dispatchable(printers as int, scale_available),
        ensures
            final(self).wf(),
            final(self).last_job_number == old(self).last_job_number,
            ({
                let before = *old(self);
                let p = first_pending(before.jobs@);
                let job = before.jobs@[p];
                let taken = GcodeJob { analysis_request: None, ..job };
                if p >= before.jobs@.len() {
                    r is Idle && *final(self) == before
                } else if before.fits_console(printers as int) && !before.task_is_free() {
                    &&& r == (Dispatch::Launch { first_request: job.analysis_request })
                    &&& final(self).console_tasks == before.console_tasks + 1
                    &&& final(self).jobs@ == before.placed(GcodeJobLocation::Console)
                } else if before.fits_console(printers as int) {
                    &&& r == (Dispatch::Console { index: p as usize, request: job.analysis_request->0 })
                    &&& final(self).console_tasks == before.console_tasks
                    &&& final(self).jobs@ == before.jobs@.update(p, taken)
                } else if before.fits_scale(scale_available) {
                    &&& r == (Dispatch::Scale { index: p as usize, request: job.analysis_request->0 })
                    &&& final(self).console_tasks == before.console_tasks
                    &&& final(self).jobs@ == before.jobs@.update(p, taken)
                } else {
                    r is Wait && *final(self) == before
                }
            }),
            destination_of(r) == old(self).destination(printers as int, scale_available),
            r is Launch ==> slots_used(final(self).jobs@, GcodeJobLocation::Console) <= Self::console_capacity(
                printers as int,
            ),
    {
        let pending = self.find_pending();
        if pending == self.jobs.len() {
            return Dispatch::Idle;
        }
        let ghost before = *self;
        let tls_slots = self.jobs[pending].tls_slots;
        let console_used = match self.slots_up_to(GcodeJobLocation::Console, 3 - printers) {
            Some(n) => n,
            None => 0,
        };
        let console_running = self.count_jobs(GcodeJobLocation::Console);
        if 3 - printers - console_used >= tls_slots {
            let request = self.jobs[pending].analysis_request.take();
            if self.console_tasks <= console_running {
                self.console_tasks = self.console_tasks + 1;
                self.jobs[pending].job_location = GcodeJobLocation::Console;
                proof {
                    assert(self.jobs@ =~= before.jobs@.update(pending as int, self.jobs@[pending as int]));
                    lemma_slots_moved(
                        before.jobs@,
                        pending as int,
                        self.jobs@[pending as int],
                        GcodeJobLocation::Console,
                    );
                }
                return Dispatch::Launch { first_request: request };
            }
            if let Some(request) = request {
                return Dispatch::Console { index: pending, request };
            }
            return Dispatch::Wait;
        }
        let scale_capacity: usize = if scale_available { 4 } else { 0 };
        let scale_used = match self.slots_up_to(GcodeJobLocation::Scale, scale_capacity) {
            Some(n) => n,
            None => {
                return Dispatch::Wait;
            },
        };
        if scale_capacity - scale_used >= tls_slots {
            let request = self.jobs[pending].analysis_request.take();
            if let Some(request) = request {
                return Dispatch::Scale { index: pending, request };
            }
            return Dispatch::Wait;
        }
        Dispatch::Wait
    }

    /// Notes whether a job could be handed to the place `at`. One that could is there
    /// from now on, any other stays where it is.
    pub fn dispatched(&mut self, index: usize, at: GcodeJobLocation, sent: bool)
        requires
            old(self).wf(),
            index < old(self).jobs@.len(),
        ensures
            final(self).wf(),
            final(self).last_job_number == old(self).last_job_number,
            final(self).console_tasks == old(self).console_tasks,
            final(self).jobs@ == (if sent {
                old(self).jobs@.update(
                    index as int,
                    GcodeJob { job_location: at, ..old(self).jobs@[index as int] },
                )
            } else {
                old(self).jobs@
            }),
    {
        if sent {
            self.jobs[index].job_location = at;
        }
    }

    fn remove_jobs(&mut self, job_number: i32, only_pending: bool)
        requires
            old(self).wf(),
        ensures
            final(self).wf(),
            final(self).last_job_number == old(self).last_job_number,
            final(self).console_tasks == old(self).console_tasks,
            final(self).jobs@ == without(old(self).jobs@, job_number, only_pending),
    {
        let ghost all = self.jobs@;
        let ghost mut k: int = 0;
        let mut i: usize = 0;
        proof {
            assert(all.take(0).len() == 0);
            assert(self.jobs@ =~= without(all.take(0), job_number, only_pending) + all.skip(0));
        }
        while i < self.jobs.len()
            invariant
                0 <= k <= all.len(),
                all == old(self).jobs@,
                self.last_job_number == old(self).last_job_number,
                self.console_tasks == old(self).console_tasks,
                i == without(all.take(k), job_number, only_pending).len(),
                self.jobs@ == without(all.take(k), job_number, only_pending) + all.skip(k),
            decreases all.len() - k,
        {
            proof {
                assert(self.jobs@[i as int] == all[k]);
                assert(all.take(k + 1).drop_last() =~= all.take(k));
            }
            let gone = self.jobs[i].job_number == job_number && (!only_pending || self.jobs[i].job_location
                == GcodeJobLocation::Pending);
            if gone {
                self.jobs.remove(i);
                proof {
                    assert(self.jobs@ =~= without(all.take(k + 1), job_number, only_pending) + all.skip(k + 1));
                }
            } else {
                proof {
                    assert(self.jobs@ =~= without(all.take(k + 1), job_number, only_pending) + all.skip(k + 1));
                }
                i += 1;
            }
            proof {
                k = k + 1;
            }
        }
        proof {
            assert(all.skip(k).len() == 0);
            assert(all.take(k) =~= all);
            assert(self.jobs@ =~= without(all, job_number, only_pending));
            lemma_without(*old(self), job_number, only_pending, all.len() as int);
            assert(all.take(all.len() as int) =~= all);
        }
    }

    /// Calls a job off. One that is waiting is removed; for any other the places where
    /// jobs are run are to be told.
    pub fn on_cancel_gcode_analysis(&mut self, job_number: i32) -> (tell: bool)
        requires
            old(self).wf(),
        ensures
            final(self).wf(),
            final(self).last_job_number == old(self).last_job_number,
            final(self).console_tasks == old(self).console_tasks,
            final(self).jobs@ == without(old(self).jobs@, job_number, true),
            tell == (final(self).jobs@.len() == old(self).jobs@.len()),
    {
        let len_before = self.jobs.len();
        self.remove_jobs(job_number, true);
        proof {
            lemma_without(*old(self), job_number, true, old(self).jobs@.len() as int);
            assert(old(self).jobs@.take(old(self).jobs@.len() as int) =~= old(self).jobs@);
        }
        self.jobs.len() >= len_before
    }

    /// Removes a job that was completed, failed or was called off on its way. The next
    /// one is to be dispatched.
    pub fn job_ended(&mut self, job_number: i32)
        requires
            old(self).wf(),
        ensures
            final(self).wf(),
            final(self).last_job_number == old(self).last_job_number,
            final(self).console_tasks == old(self).console_tasks,
            final(self).jobs@ == without(old(self).jobs@, job_number, false),
    {
        self.remove_jobs(job_number, false);
    }
}

proof fn lemma_without(q: GcodeJobs, job_number: i32, only_pending: bool, k: int)
    requires
        q.wf(),
        0 <= k <= q.jobs@.len(),
    ensures
        ({
            let w = without(q.jobs@.take(k), job_number, only_pending);
            &&& w.len() <= k
            &&& forall|i: int|
                0 <= i < w.len() ==> exists|j: int| 0 <= j < k && q.jobs@[j] == #[trigger] w[i]
            &&& forall|i: int, j: int|
                0 <= i < j < w.len() ==> (#[trigger] w[i]).job_number != (#[trigger] w[j]).job_number
            &&& forall|i: int| 0 <= i < w.len() ==> (#[trigger] w[i]).job_number <= q.last_job_number
        }),
    decreases k,
{
    if k > 0 {
        lemma_without(q, job_number, only_pending, k - 1);
        let before = without(q.jobs@.take(k - 1), job_number, only_pending);
        let now = without(q.jobs@.take(k), job_number, only_pending);
        assert(q.jobs@.take(k).drop_last() =~= q.jobs@.take(k - 1));
        assert forall|i: int| 0 <= i < now.len() implies exists|j: int| 0 <= j < k && q.jobs@[j] == #[trigger] now[i] by {
            if i < before.len() {
                let j = choose|j: int| 0 <= j < k - 1 && q.jobs@[j] == before[i];
                assert(q.jobs@[j] == now[i]);
            } else {
                assert(q.jobs@[k - 1] == now[i]);
            }
        }
        assert forall|i: int, j: int| 0 <= i < j < now.len() implies (#[trigger] now[i]).job_number != (
        #[trigger] now[j]).job_number by {
            if j < before.len() {
                assert(before[i].job_number != before[j].job_number);
            } else {
                let m = choose|m: int| 0 <= m < k - 1 && q.jobs@[m] == before[i];
                assert(q.jobs@[m].job_number != q.jobs@[k - 1].job_number);
            }
        }
    }
}

/// A job that was found to fit on the console still fits once it is there, and takes
/// nothing from the scale. It is there once its request was taken and it was noted as
/// handed out.
pub proof fn console_is_never_overcommitted(q: GcodeJobs, printers: int)
    requires
        0 <= first_pending(q.jobs@) < q.jobs@.len(),
        q.jobs@[first_pending(q.jobs@)].job_location == GcodeJobLocation::Pending,
        q.fits_console(printers),
    ensures
        slots_used(q.placed(GcodeJobLocation::Console), GcodeJobLocation::Console) <= GcodeJobs::console_capacity(
            printers,
        ),
        slots_used(q.placed(GcodeJobLocation::Console), GcodeJobLocation::Scale) == slots_used(
            q.jobs@,
            GcodeJobLocation::Scale,
        ),
        q.placed(GcodeJobLocation::Console) == taken_and_noted(q, GcodeJobLocation::Console),
{
    let p = first_pending(q.jobs@);
    let now = q.placed(GcodeJobLocation::Console);
    lemma_slots_moved(q.jobs@, p, now[p], GcodeJobLocation::Console);
    lemma_slots_moved(q.jobs@, p, now[p], GcodeJobLocation::Scale);
    assert(now =~= taken_and_noted(q, GcodeJobLocation::Console));
}

/// A job that was found to fit on the scale still fits once it is there, and takes
/// nothing from the console. It is there once its request was taken and it was noted
/// as handed out.
pub proof fn scale_is_never_overcommitted(q: GcodeJobs, scale_available: bool)
    requires
        0 <= first_pending(q.jobs@) < q.jobs@.len(),
        q.jobs@[first_pending(q.jobs@)].job_location == GcodeJobLocation::Pending,
        q.fits_scale(scale_available),
    ensures
        slots_used(q.placed(GcodeJobLocation::Scale), GcodeJobLocation::Scale) <= GcodeJobs::scale_capacity(
            scale_available,
        ),
        slots_used(q.placed(GcodeJobLocation::Scale), GcodeJobLocation::Console) == slots_used(
            q.jobs@,
            GcodeJobLocation::Console,
        ),
        q.placed(GcodeJobLocation::Scale) == taken_and_noted(q, GcodeJobLocation::Scale),
{
    let p = first_pending(q.jobs@);
    let now = q.placed(GcodeJobLocation::Scale);
    lemma_slots_moved(q.jobs@, p, now[p], GcodeJobLocation::Console);
    lemma_slots_moved(q.jobs@, p, now[p], GcodeJobLocation::Scale);
    assert(now =~= taken_and_noted(q, GcodeJobLocation::Scale));
}

/// The jobs once the request of the first waiting one was taken, and then the job was
/// noted as handed to a place.
pub open spec fn taken_and_noted(q: GcodeJobs, at: GcodeJobLocation) -> Seq<GcodeJob> {
    let p = first_pending(q.jobs@);
    let taken = q.jobs@.update(p, GcodeJob { analysis_request: None, ..q.jobs@[p] });
    taken.update(p, GcodeJob { job_location: at, ..taken[p] })
}

/// A job that waits takes no connections, calling off one that waits frees none, and one
/// that ends only frees some: what is in use grows nowhere but where a job is handed to.
pub proof fn waiting_and_ended_jobs_take_no_connections(
    jobs: Seq<GcodeJob>,
    waiting: GcodeJob,
    job_number: i32,
    only_pending: bool,
    at: GcodeJobLocation,
)
    requires
        waiting.job_location == GcodeJobLocation::Pending,
        at != GcodeJobLocation::Pending,
    ensures
        slots_used(jobs.push(waiting), at) == slots_used(jobs, at),
        slots_used(without(jobs, job_number, only_pending), at) <= slots_used(jobs, at),
        only_pending ==> slots_used(without(jobs, job_number, only_pending), at) == slots_used(jobs, at),
    decreases jobs.len(),
{
    assert(jobs.push(waiting).drop_last() =~= jobs);
    if jobs.len() > 0 {
        let before = jobs.drop_last();
        waiting_and_ended_jobs_take_no_connections(before, waiting, job_number, only_pending, at);
        let rest = without(before, job_number, only_pending);
        assert(rest.push(jobs.last()).drop_last() =~= rest);
    }
}

/// A job that has ended is no longer there, and every other one still is.
pub proof fn only_the_ended_job_is_gone(jobs: Seq<GcodeJob>, job_number: i32)
    ensures
        forall|i: int|
            0 <= i < without(jobs, job_number, false).len() ==> (#[trigger] without(
                jobs,
                job_number,
                false,
            )[i]).job_number != job_number,
        forall|j: int|
            0 <= j < jobs.len() && (#[trigger] jobs[j]).job_number != job_number ==> without(
                jobs,
                job_number,
                false,
            ).contains(jobs[j]),
    decreases jobs.len(),
{
    if jobs.len() > 0 {
        only_the_ended_job_is_gone(jobs.drop_last(), job_number);
        let before = without(jobs.drop_last(), job_number, false);
        let now = without(jobs, job_number, false);
        assert forall|i: int| 0 <= i < now.len() implies (#[trigger] now[i]).job_number != job_number by {
            if i < before.len() {
                assert(now[i] == before[i]);
            }
        }
        assert forall|j: int| 0 <= j < jobs.len() && (#[trigger] jobs[j]).job_number != job_number implies now.contains(
            jobs[j],
        ) by {
            if j < jobs.len() - 1 {
                assert(jobs.drop_last()[j] == jobs[j]);
                assert(before.contains(jobs[j]));
                let i = choose|i: int| 0 <= i < before.len() && before[i] == jobs[j];
                assert(now[i] == jobs[j]);
            } else {
                assert(now[now.len() - 1] == jobs[j]);
            }
        }
    }
}

/// A job takes two connections where the printer is to send the file and is of none of the
/// two product lines that save memory, and one in any other case.
pub proof fn only_transfers_from_large_printers_take_two(printer: BambuPrinter, project: PrintProject)
    ensures
        slots_needed(printer, project) == 2 <==> (printer.fetch_3mf == Fetch3mf::PrinterFtp || starts_with(
            project.gcode_filename_in_3mf@,
            "file://"@,
        ) || starts_with(project.gcode_filename_in_3mf@, "ftp://"@)) && printer.model_series != PrinterModelSeries::P1
            && printer.model_series != PrinterModelSeries::A1,
        slots_needed(printer, project) == 1 || slots_needed(printer, project) == 2,
{
}

/// The project on the printer lies in the cache under the name of the print, of which every
/// character stays but for those that the printer cannot have in names: the slash, and on
/// two product lines also `!`, `@`, `#` and `'`.
pub proof fn names_keep_their_other_characters(model: PrinterModelSeries, name: Seq<char>)
    ensures
        ({
            let file = project_file(model, name);
            &&& file.len() == 7 + name.len() + 4
            &&& file.take(7) == "/cache/"@
            &&& file.skip(7 + name.len() as int) == ".3mf"@
            &&& forall|i: int|
                0 <= i < name.len() ==> #[trigger] file[7 + i] == (if name[i] == '/' || ((model == PrinterModelSeries::P1
                    || model == PrinterModelSeries::A1) && (name[i] == '!' || name[i] == '@' || name[i] == '#' || name[i]
                    == '\'')) {
                    '_'
                } else {
                    name[i]
                })
        }),
{
    reveal_strlit("/cache/");
    reveal_strlit(".3mf");
    let file = project_file(model, name);
    assert(file.take(7) =~= "/cache/"@);
    assert(file.skip(7 + name.len() as int) =~= ".3mf"@);
}

/// The connections in use at a place are those of the jobs there, all of them and no
/// others, and likewise the number of jobs.
pub proof fn jobs_take_connections_where_they_are(jobs: Seq<GcodeJob>, job: GcodeJob, at: GcodeJobLocation)
    ensures
        slots_used(seq![], at) == 0,
        jobs_at(seq![], at) == 0,
        job.job_location == at ==> slots_used(jobs.push(job), at) == slots_used(jobs, at) + job.tls_slots,
        job.job_location == at ==> jobs_at(jobs.push(job), at) == jobs_at(jobs, at) + 1,
        job.job_location != at ==> slots_used(jobs.push(job), at) == slots_used(jobs, at),
        job.job_location != at ==> jobs_at(jobs.push(job), at) == jobs_at(jobs, at),
{
    assert(jobs.push(job).drop_last() =~= jobs);
}

/// The first job that waits is found where no job before it waits.
pub proof fn first_waiting_job_is_next(jobs: Seq<GcodeJob>, i: int)
    requires
        0 <= i <= jobs.len(),
        forall|j: int| 0 <= j < i ==> (#[trigger] jobs[j]).job_location != GcodeJobLocation::Pending,
        i < jobs.len() ==> jobs[i].job_location == GcodeJobLocation::Pending,
    ensures
        first_pending(jobs) == i,
{
    lemma_first_pending(jobs, i);
}

/// The console keeps three connections, one of which goes to each printer; the scale, where
/// it is there, keeps four. A job fits where so many are left, and a task is free where
/// there are more tasks than jobs on the console.
pub proof fn connections_are_limited(q: GcodeJobs, printers: int, scale_available: bool)
    ensures
        ({
            let needed = q.jobs@[first_pending(q.jobs@)].tls_slots;
            &&& q.fits_console(printers) <==> printers + slots_used(q.jobs@, GcodeJobLocation::Console) + needed <= 3
            &&& scale_available ==> (q.fits_scale(scale_available) <==> slots_used(q.jobs@, GcodeJobLocation::Scale)
                + needed <= 4)
            &&& !scale_available ==> (q.fits_scale(scale_available) <==> slots_used(q.jobs@, GcodeJobLocation::Scale)
                + needed <= 0)
            &&& q.task_is_free() <==> jobs_at(q.jobs@, GcodeJobLocation::Console) < q.console_tasks
        }),
{
}

/// A job that is handed to a place is there, without its request; nothing else changes of
/// it, and no other job changes.
pub proof fn handed_out_job_is_in_its_place(q: GcodeJobs, at: GcodeJobLocation)
    requires
        0 <= first_pending(q.jobs@) < q.jobs@.len(),
    ensures
        ({
            let p = first_pending(q.jobs@);
            let now = q.placed(at);
            &&& now.len() == q.jobs@.len()
            &&& now[p].job_location == at
            &&& now[p].analysis_request is None
            &&& now[p].job_number == q.jobs@[p].job_number
            &&& now[p].tls_slots == q.jobs@[p].tls_slots
            &&& forall|i: int| 0 <= i < now.len() && i != p ==> #[trigger] now[i] == q.jobs@[i]
        }),
{
}

/// Where there are at most three printers, what is in use on the console is within its
/// capacity, and the next job has its request, it can be handed out.
pub proof fn jobs_within_capacity_can_be_handed_out(q: GcodeJobs, printers: int, scale_available: bool)
    requires
        0 <= printers <= 3,
        slots_used(q.jobs@, GcodeJobLocation::Console) + printers <= 3,
        q.console_tasks < usize::MAX,
        first_pending(q.jobs@) < q.jobs@.len() ==> q.jobs@[first_pending(q.jobs@)].analysis_request is Some,
    ensures
        q.dispatchable(printers, scale_available),
{
}

/// A job that is called off is removed where it waits, and stays where it does not; every
/// job with another number stays.
pub proof fn only_a_waiting_job_is_called_off(jobs: Seq<GcodeJob>, job_number: i32)
    ensures
        forall|i: int|
            0 <= i < without(jobs, job_number, true).len() ==> (#[trigger] without(jobs, job_number, true)[i]).job_number
                != job_number || without(jobs, job_number, true)[i].job_location != GcodeJobLocation::Pending,
        forall|j: int|
            0 <= j < jobs.len() && ((#[trigger] jobs[j]).job_number != job_number || jobs[j].job_location
                != GcodeJobLocation::Pending) ==> without(jobs, job_number, true).contains(jobs[j]),
    decreases jobs.len(),
{
    if jobs.len() > 0 {
        only_a_waiting_job_is_called_off(jobs.drop_last(), job_number);
        let before = without(jobs.drop_last(), job_number, true);
        let now = without(jobs, job_number, true);
        assert forall|i: int| 0 <= i < now.len() implies (#[trigger] now[i]).job_number != job_number
            || now[i].job_location != GcodeJobLocation::Pending by {
            if i < before.len() {
                assert(now[i] == before[i]);
            }
        }
        assert forall|j: int|
            0 <= j < jobs.len() && ((#[trigger] jobs[j]).job_number != job_number || jobs[j].job_location
                != GcodeJobLocation::Pending) implies now.contains(jobs[j]) by {
            if j < jobs.len() - 1 {
                assert(jobs.drop_last()[j] == jobs[j]);
                assert(before.contains(jobs[j]));
                let i = choose|i: int| 0 <= i < before.len() && before[i] == jobs[j];
                assert(now[i] == jobs[j]);
            } else {
                assert(now[now.len() - 1] == jobs[j]);
            }
        }
    }
}

/// The first job that waits is run on the console where it fits, by a task that is free or
/// else by a new one; only where it does not fit there is it run on the scale, and it waits
/// where it fits on neither.
pub proof fn console_goes_before_the_scale(q: GcodeJobs, printers: int, scale_available: bool)
    ensures
        ({
            let d = q.destination(printers, scale_available);
            let waiting = first_pending(q.jobs@) < q.jobs@.len();
            &&& d is NoJob <==> !waiting
            &&& d is Console <==> waiting && q.fits_console(printers) && q.task_is_free()
            &&& d is NewTask <==> waiting && q.fits_console(printers) && !q.task_is_free()
            &&& d is Scale <==> waiting && !q.fits_console(printers) && q.fits_scale(scale_available)
            &&& d is Nowhere <==> waiting && !q.fits_console(printers) && !q.fits_scale(scale_available)
        }),
        forall|r: Dispatch| (#[trigger] destination_of(r) is NoJob <==> r is Idle) && (destination_of(r) is Nowhere <==> r is Wait)
            && (destination_of(r) is NewTask <==> r is Launch) && (destination_of(r) is Console <==> r is Console) && (
        destination_of(r) is Scale <==> r is Scale),
{
}

} // verus!
