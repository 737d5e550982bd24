//! Tracking of a print on a printer: which slots it uses, and which entries of
//! the gcode analysis have been charged to the slots so far.

use crate::bambu::{BambuPrinter, CancelNotice};
use crate::grams::Grams;
use crate::text::{begins, chars_of, lemma_lists_marked, lists_marked, starts_with};
use vstd::prelude::*;

verus! {

/// What the printer reports of the running job.
#[derive(Clone, Copy, Debug, PartialEq, Eq, Structural)]
#[allow(non_camel_case_types)]
pub enum GcodeState {
    Unknown,
    IDLE,
    PREPARE,
    SLICING,
    RUNNING,
    PAUSE,
    FINISH,
    FAILED,
    Unsupported,
}

/// Where the sliced project is fetched from.
#[derive(Clone, Copy, Debug, PartialEq, Eq, Structural)]
pub enum Fetch3mf {
    CloudHttp,
    PrinterFtp,
}

/// Filament that the gcode uses: one filament on one layer.
#[derive(Clone, Copy, Debug)]
pub struct FilamentUsageEntry {
    pub layer: i32,
    pub weight_g: Grams,
    pub gcode_filament_id: i32,
}

/// The analysis of a gcode file.
#[derive(Debug)]
pub struct FilamentUsage {
    pub data: Vec<FilamentUsageEntry>,
}

impl FilamentUsage {
    /// The analysis with these entries.
    pub fn new(data: Vec<FilamentUsageEntry>) -> (r: Self)
        ensures
            r.data == data,
    {
        FilamentUsage { data }
    }
}

/// How far the gcode analysis of a print has come.
#[derive(Debug)]
pub enum GcodeAnalysis {
    WaitingForPrinter,
    Requested { at: u64, job_number: i32 },
    Received { at: u64, job_number: i32, usage: FilamentUsage },
}

/// An entry of the newer slot mapping of a print.
#[derive(Clone, Copy, Debug, PartialEq, Eq, Structural)]
pub struct AmsMapping2Entry {
    pub ams_id: i32,
    pub slot_id: i32,
}

impl AmsMapping2Entry {
    /// The entry stands for the external spool.
    pub open spec fn external(self) -> bool {
        self.ams_id == 255 && self.slot_id == 0
    }
}

/// The slot number of the external spool.
pub const EXTERNAL_TRAY: i32 = 254;

/// The filament unit's part of a printer message.
#[derive(Clone, Copy, Debug)]
pub struct PrintAms {
    pub tray_tar: Option<i32>,
    pub tray_now: Option<i32>,
}

/// A print message of the printer, as far as print tracking reads it.
#[derive(Debug)]
pub struct PrintData {
    pub subtask_name: Option<String>,
    pub ams_mapping: Option<Vec<i32>>,
    pub ams_mapping2: Option<Vec<AmsMapping2Entry>>,
    pub use_ams: Option<bool>,
    pub url: Option<String>,
    pub param: Option<String>,
    pub gcode_state: Option<GcodeState>,
    pub total_layer_num: Option<i32>,
    pub layer_num: Option<i32>,
    pub ams: Option<PrintAms>,
}

/// A print that is tracked.
#[derive(Debug)]
pub struct PrintProject {
    pub subtask_name: String,
    pub threemf_url: String,
    pub gcode_filename_in_3mf: String,
    pub ams_mapping: Vec<i32>,
    pub ams_mapping2: Option<Vec<AmsMapping2Entry>>,
    pub use_ams: Option<bool>,
    pub gcode_analysis: GcodeAnalysis,
    pub total_layer_num: i32,
    pub need_consume: bool,
    pub consume_index: i32,
}

/// A usage entry that is charged to a slot.
#[derive(Clone, Copy, Debug)]
pub struct Consumption {
    pub entry: usize,
    pub tray_id: i32,
    pub weight_g: Grams,
}

/// What makes a print try to charge usage entries.
#[derive(Clone, Copy, Debug)]
pub enum ConsumeType {
    LayerChange(i32),
    FilamentSwitch,
    Finish,
}

/// The contents of an optional list.
pub open spec fn mapping2_view(m: Option<Vec<AmsMapping2Entry>>) -> Option<Seq<AmsMapping2Entry>> {
    match m {
        Some(v) => Some(v@),
        None => None,
    }
}

fn copy_mapping(v: &Vec<i32>) -> (r: Vec<i32>)
    ensures
        r@ == v@,
{
    let mut r: Vec<i32> = Vec::new();
    let mut i: usize = 0;
    while i < v.len()
        invariant
            i <= v@.len(),
            r@ == v@.take(i as int),
        decreases v@.len() - i,
    {
        r.push(v[i]);
        i += 1;
        proof {
            assert(v@.take(i as int) == v@.take(i - 1).push(v@[i - 1]));
        }
    }
    proof {
        assert(v@.take(v@.len() as int) == v@);
    }
    r
}

fn copy_mapping2(m: &Option<Vec<AmsMapping2Entry>>) -> (r: Option<Vec<AmsMapping2Entry>>)
    ensures
        mapping2_view(r) == mapping2_view(*m),
{
    match m {
        None => None,
        Some(v) => {
            let mut r: Vec<AmsMapping2Entry> = Vec::new();
            let mut i: usize = 0;
            while i < v.len()
                invariant
                    i <= v@.len(),
                    r@ == v@.take(i as int),
                decreases v@.len() - i,
            {
                r.push(v[i]);
                i += 1;
                proof {
                    assert(v@.take(i as int) == v@.take(i - 1).push(v@[i - 1]));
                }
            }
            proof {
                assert(v@.take(v@.len() as int) == v@);
            }
            Some(r)
        },
    }
}

impl PrintProject {
    /// The usage entries, once they have been received.
    pub open spec fn entries(self) -> Seq<FilamentUsageEntry> {
        match self.gcode_analysis {
            GcodeAnalysis::Received { at, job_number, usage } => usage.data@,
            _ => Seq::empty(),
        }
    }

    /// The usage entries can be counted by the consume index.
    pub open spec fn wf(self) -> bool {
        self.entries().len() <= i32::MAX
    }

    /// The slot that feeds a filament of the gcode: what the slot mapping says, with
    /// the external spool where the mapping has no slot and the newer mapping, or
    /// in its absence a print without filament unit, points there.
    pub open spec fn tray_of(self, filament_id: int) -> Option<i32> {
        let slot: Option<i32> = if 0 <= filament_id < self.ams_mapping@.len() {
            Some(self.ams_mapping@[filament_id])
        } else {
            None
        };
        let external = match mapping2_view(self.ams_mapping2) {
            Some(m) => filament_id < m.len() && m[filament_id].external(),
            None => self.use_ams == Some(false),
        };
        if filament_id < 0 {
            None
        } else if (slot is None || slot == Some(-1i32)) && external {
            Some(EXTERNAL_TRAY)
        } else {
            slot
        }
    }

    /// A print that has just been announced.
    pub fn new(
        subtask_name: &str,
        threemf_url: &str,
        gcode_filename_in_3mf: &str,
        ams_mapping: &Vec<i32>,
        ams_mapping2: Option<Vec<AmsMapping2Entry>>,
        use_ams: Option<bool>,
    ) -> (r: Self)
        ensures
            r.subtask_name@ == subtask_name@,
            r.threemf_url@ == threemf_url@,
            r.gcode_filename_in_3mf@ == gcode_filename_in_3mf@,
            r.ams_mapping@ == ams_mapping@,
            r.ams_mapping2 == ams_mapping2,
            r.use_ams == use_ams,
            r.gcode_analysis is WaitingForPrinter,
            r.total_layer_num == -1,
            !r.need_consume,
            r.consume_index == -1,
    {
        PrintProject {
            subtask_name: subtask_name.to_string(),
            ams_mapping: copy_mapping(ams_mapping),
            ams_mapping2,
            gcode_analysis: GcodeAnalysis::WaitingForPrinter,
            total_layer_num: -1,
            need_consume: false,
            consume_index: -1,
            threemf_url: threemf_url.to_string(),
            gcode_filename_in_3mf: gcode_filename_in_3mf.to_string(),
            use_ams,
        }
    }

    /// The slot that feeds a filament of the gcode.
    pub fn get_ams_id(&self, filament_id: i32) -> (r: Option<i32>)
        ensures
            r == self.tray_of(filament_id as int),
    {
        if filament_id >= 0 {
            let i = filament_id as usize;
            let ams_slot: Option<i32> = if i < self.ams_mapping.len() {
                Some(self.ams_mapping[i])
            } else {
                None
            };
            let unmapped = match ams_slot {
                None => true,
                Some(s) => s == -1,
            };
            if unmapped {
                match &self.ams_mapping2 {
                    Some(ams_mapping2) => {
                        if i < ams_mapping2.len() {
                            let ams2_info = ams_mapping2[i];
                            if ams2_info.ams_id == 255 && ams2_info.slot_id == 0 {
                                return Some(EXTERNAL_TRAY);
                            }
                        }
                    },
                    None => {
                        if let Some(use_ams) = self.use_ams {
                            if !use_ams {
                                return Some(EXTERNAL_TRAY);
                            }
                        }
                    },
                }
            }
            ams_slot
        } else {
            None
        }
    }

    /// The usage entry that is next to be charged.
    pub fn curr_usage_entry(&self) -> (r: Option<FilamentUsageEntry>)
        ensures
            r == (if 0 <= self.consume_index < self.entries().len() {
                Some(self.entries()[self.consume_index as int])
            } else {
                None
            }),
    {
        if self.consume_index < 0 {
            return None;
        }
        match &self.gcode_analysis {
            GcodeAnalysis::Received { at: _, job_number: _, usage } => {
                let i = self.consume_index as usize;
                if i < usage.data.len() {
                    Some(usage.data[i])
                } else {
                    None
                }
            },
            _ => None,
        }
    }

    /// Where charging stands when a message arrives.
    pub open spec fn cursor(self) -> Cursor {
        Cursor {
            index: self.consume_index as int,
            need: self.need_consume,
            taken: Seq::empty(),
            consumed: false,
        }
    }

    /// Where charging the entries below layer `up_to` stops: at the first entry from
    /// `from` on that lies on this layer or above. For -1 there is no such layer.
    pub open spec fn stop(self, from: int, up_to: int) -> int
        decreases self.entries().len() - from,
    {
        if 0 <= from < self.entries().len() && (self.entries()[from].layer < up_to || up_to == -1) {
            self.stop(from + 1, up_to)
        } else {
            from
        }
    }

    /// The charges for the entries in `[from, to)`: an entry without a slot gives none.
    pub open spec fn charges(self, from: int, to: int) -> Seq<Consumption>
        decreases to - from,
    {
        if from >= to {
            Seq::empty()
        } else {
            let e = self.entries()[to - 1];
            match self.tray_of(e.gcode_filament_id as int) {
                Some(tray_id) => self.charges(from, to - 1).push(
                    Consumption { entry: (to - 1) as usize, tray_id, weight_g: e.weight_g },
                ),
                None => self.charges(from, to - 1),
            }
        }
    }
}

/// How far charging has come within one message.
pub ghost struct Cursor {
    /// The next entry to charge.
    pub index: int,
    /// Whether there is something to charge.
    pub need: bool,
    /// The charges so far.
    pub taken: Seq<Consumption>,
    /// Whether an entry was passed.
    pub consumed: bool,
}

/// What a print message asks of the console.
#[derive(Debug)]
pub struct PrintStep {
    /// Whether a slot changed.
    pub changed: bool,
    /// The usage entries that were charged.
    pub taken: Vec<Consumption>,
    /// Whether the gcode of the print is now to be analyzed.
    pub request_analysis: bool,
}

/// What the announcement of a print asks of the console.
#[derive(Clone, Copy, Debug, PartialEq, Eq, Structural)]
pub struct ProjectFileStep {
    /// Whether a slot changed.
    pub changed: bool,
    /// Whether the gcode of the print is now to be analyzed.
    pub request_analysis: bool,
}

impl BambuPrinter {
    /// The next entry of the print may be charged when the filament is switched: it
    /// lies on the current layer and is fed by the loaded slot of the filament unit.
    pub open spec fn switch_matches(self, project: PrintProject, index: int) -> bool {
        0 <= index < project.entries().len() && {
            let e = project.entries()[index];
            let tray = project.tray_of(e.gcode_filament_id as int);
            &&& tray is Some
            &&& self.layer_num == e.layer
            &&& self.tray_now == tray->0
            &&& 0 <= tray->0 < self.ams_trays@.len()
        }
    }

    /// What an attempt to charge usage entries does.
    pub open spec fn consume(self, project: PrintProject, c: Cursor, kind: ConsumeType) -> Cursor {
        if !c.need {
            c
        } else {
            match kind {
                ConsumeType::FilamentSwitch => if self.switch_matches(project, c.index) {
                    Cursor {
                        index: c.index + 1,
                        need: false,
                        taken: c.taken + project.charges(c.index, c.index + 1),
                        consumed: true,
                    }
                } else {
                    c
                },
                ConsumeType::LayerChange(layer) => self.consume_below(project, c, layer as int),
                ConsumeType::Finish => self.consume_below(project, c, -1),
            }
        }
    }

    /// Charging every entry below a layer.
    pub open spec fn consume_below(self, project: PrintProject, c: Cursor, up_to: int) -> Cursor {
        let end = project.stop(c.index, up_to);
        Cursor {
            index: end,
            need: false,
            taken: c.taken + project.charges(c.index, end),
            consumed: c.consumed || end > c.index,
        }
    }

    /// Charges the usage entries that are due, and says whether there was one. The
    /// charges are appended to `taken`.
    pub fn try_consume(
        &self,
        print_project: &mut PrintProject,
        consume_type: ConsumeType,
        taken: &mut Vec<Consumption>,
    ) -> (consumed: bool)
        requires
            old(print_project).wf(),
        ensures
            ({
                let c = Cursor {
                    index: old(print_project).consume_index as int,
                    need: old(print_project).need_consume,
                    taken: old(taken)@,
                    consumed: false,
                };
                let r = self.consume(*old(print_project), c, consume_type);
                &&& *final(print_project) == (PrintProject {
                    consume_index: r.index as i32,
                    need_consume: r.need,
                    ..*old(print_project)
                })
                &&& final(print_project).consume_index == r.index
                &&& final(taken)@ == r.taken
                &&& consumed == r.consumed
            }),
    {
        if !print_project.need_consume {
            return false;
        }
        let ghost before = *print_project;
        let ghost start = print_project.consume_index as int;
        match consume_type {
            ConsumeType::FilamentSwitch => {
                proof {
                    reveal_with_fuel(PrintProject::charges, 2);
                }
                let mut consumed = false;
                if let Some(usage_entry) = print_project.curr_usage_entry() {
                    if let Some(tray_id) = print_project.get_ams_id(usage_entry.gcode_filament_id) {
                        if self.layer_num == usage_entry.layer && self.tray_now == tray_id && tray_id >= 0
                            && (tray_id as usize) < self.ams_trays.len() {
                            let entry = print_project.consume_index as usize;
                            taken.push(Consumption { entry, tray_id, weight_g: usage_entry.weight_g });
                            print_project.consume_index = print_project.consume_index + 1;
                            print_project.need_consume = false;
                            consumed = true;
                            proof {
                                assert(before.charges(start, start).len() == 0);
                                assert(taken@ =~= old(taken)@ + before.charges(start, start + 1));
                            }
                        }
                    }
                }
                consumed
            },
            ConsumeType::LayerChange(layer) => self.consume_layers(print_project, layer, taken),
            ConsumeType::Finish => self.consume_layers(print_project, -1, taken),
        }
    }

    /// Charges the entries below layer `up_to`, all of them where it is -1.
    fn consume_layers(&self, print_project: &mut PrintProject, up_to: i32, taken: &mut Vec<Consumption>) -> (consumed: bool)
        requires
            old(print_project).wf(),
        ensures
            ({
                let p = *old(print_project);
                let start = p.consume_index as int;
                let end = p.stop(start, up_to as int);
                &&& *final(print_project) == (PrintProject { consume_index: end as i32, need_consume: false, ..p })
                &&& final(print_project).consume_index == end
                &&& final(taken)@ == old(taken)@ + p.charges(start, end)
                &&& consumed == (end > start)
            }),
    {
        let ghost before = *print_project;
        let ghost start = print_project.consume_index as int;
        let mut consumed = false;
        proof {
            assert(old(taken)@ + before.charges(start, start) =~= old(taken)@);
        }
        loop
            invariant_except_break
                before.stop(start, up_to as int) == before.stop(print_project.consume_index as int, up_to as int),
            invariant
                before.wf(),
                start <= print_project.consume_index,
                *print_project == (PrintProject { consume_index: print_project.consume_index, ..before }),
                taken@ == old(taken)@ + before.charges(start, print_project.consume_index as int),
                consumed == (print_project.consume_index > start),
            ensures
                before.stop(start, up_to as int) == print_project.consume_index,
            decreases before.entries().len() - print_project.consume_index,
        {
            proof {
                assert(print_project.entries() == before.entries());
            }
            match print_project.curr_usage_entry() {
                Some(usage_entry) => {
                    if usage_entry.layer < up_to || up_to == -1 {
                        let ghost index = print_project.consume_index as int;
                        let ghost so_far = taken@;
                        let entry = print_project.consume_index as usize;
                        let tray = print_project.get_ams_id(usage_entry.gcode_filament_id);
                        proof {
                            assert(print_project.tray_of(usage_entry.gcode_filament_id as int) == before.tray_of(
                                usage_entry.gcode_filament_id as int,
                            ));
                        }
                        if let Some(tray_id) = tray {
                            taken.push(Consumption { entry, tray_id, weight_g: usage_entry.weight_g });
                        }
                        print_project.consume_index = print_project.consume_index + 1;
                        consumed = true;
                        proof {
                            assert(taken@ =~= old(taken)@ + before.charges(start, index + 1));
                        }
                    } else {
                        break;
                    }
                },
                None => {
                    break;
                },
            }
        }
        print_project.need_consume = false;
        consumed
    }

    /// Tells every observer, in the order of their subscription, that an analysis is
    /// called off.
    pub fn notify_cancel_gcode_analysis(&mut self, job_number: i32)
        ensures
            final(self).notices@ == old(self).notices@ + Seq::new(
                old(self).observers@.len(),
                |i: int| CancelNotice { observer: old(self).observers@[i], job_number },
            ),
            *final(self) == (BambuPrinter { notices: final(self).notices, ..*old(self) }),
    {
        let ghost told = Seq::new(
            self.observers@.len(),
            |i: int| CancelNotice { observer: self.observers@[i], job_number },
        );
        let mut i: usize = 0;
        proof {
            assert(self.notices@ + told.take(0) =~= self.notices@);
        }
        while i < self.observers.len()
            invariant
                i <= self.observers@.len(),
                told == Seq::new(
                    old(self).observers@.len(),
                    |i: int| CancelNotice { observer: old(self).observers@[i], job_number },
                ),
                *self == (BambuPrinter { notices: self.notices, ..*old(self) }),
                self.notices@ == old(self).notices@ + told.take(i as int),
            decreases self.observers@.len() - i,
        {
            let observer = self.observers[i];
            self.notices.push(CancelNotice { observer, job_number });
            i += 1;
            proof {
                assert(told.take(i as int) =~= told.take(i - 1).push(told[i - 1]));
                assert(self.notices@ =~= old(self).notices@ + told.take(i as int));
            }
        }
        proof {
            assert(told.take(told.len() as int) =~= told);
        }
    }

    /// The first answer that is not zero.
    pub open spec fn first_job(answers: Seq<i32>) -> i32
        decreases answers.len(),
    {
        if answers.len() == 0 {
            0
        } else if answers[0] != 0 {
            answers[0]
        } else {
            Self::first_job(answers.skip(1))
        }
    }

    /// The job number of an analysis that the observers were asked for: each answers
    /// with the number of the job that it started or with zero, and the first job counts.
    pub fn notify_request_gcode_analysis(&self, answers: &Vec<i32>) -> (job_number: i32)
        requires
            answers@.len() == self.observers@.len(),
        ensures
            job_number == Self::first_job(answers@),
    {
        let mut i: usize = 0;
        proof {
            assert(answers@.skip(0) == answers@);
        }
        while i < answers.len()
            invariant
                i <= answers@.len(),
                Self::first_job(answers@.skip(i as int)) == Self::first_job(answers@),
            decreases answers@.len() - i,
        {
            if answers[i] != 0 {
                return answers[i];
            }
            proof {
                assert(answers@.skip(i as int).skip(1) == answers@.skip(i + 1));
            }
            i += 1;
        }
        0
    }
}

impl PrintData {
    /// The message announces a print: it names it, its slots and its files.
    pub open spec fn announces(self) -> bool {
        self.subtask_name is Some && self.ams_mapping is Some && self.url is Some && self.param is Some
    }

    /// The announced print uses the external spool.
    pub open spec fn uses_external(self) -> bool {
        match mapping2_view(self.ams_mapping2) {
            Some(m) => exists|j: int| 0 <= j < m.len() && (#[trigger] m[j]).external(),
            None => self.use_ams == Some(false),
        }
    }

    /// The announced print uses slot `tray_id`.
    pub open spec fn uses_tray(self, tray_id: int) -> bool {
        exists|j: int| 0 <= j < self.ams_mapping->0@.len() && #[trigger] self.ams_mapping->0@[j] == tray_id
    }

    /// The announced print uses one of the first `n` slots.
    pub open spec fn uses_any_tray(self, n: int) -> bool {
        exists|j: int| 0 <= j < self.ams_mapping->0@.len() && 0 <= #[trigger] self.ams_mapping->0@[j] < n
    }

    /// The gcode of the announced print can be fetched at once.
    pub open spec fn fetches_at_once(self, fetch_3mf: Fetch3mf) -> bool {
        ||| fetch_3mf == Fetch3mf::CloudHttp
        ||| starts_with(self.url->0@, "ftp://"@)
        ||| starts_with(self.url->0@, "file://"@)
    }
}

impl BambuPrinter {
    /// Begins to track an announced print: marks the slots that it uses, and no
    /// others, and says whether its gcode is to be analyzed now. A print that is not
    /// fully announced, or not to be tracked, changes nothing.
    #[allow(non_snake_case)]
    pub fn process_print_message__project_file(&mut self, print: &PrintData) -> (r: ProjectFileStep)
        ensures
            !(old(self).track_print_consume && print.announces()) ==> *final(self) == *old(self) && r
                == (ProjectFileStep { changed: false, request_analysis: false }),
            old(self).track_print_consume && print.announces() ==> {
                &&& final(self).same_but_trays_and_project(*old(self))
                &&& final(self).marks_set(*old(self), |i: int| print.uses_tray(i), print.uses_external())
                &&& final(self).curr_print_project is Some
                &&& ({
                    let p = final(self).curr_print_project->0;
                    &&& p.subtask_name@ == print.subtask_name->0@
                    &&& p.threemf_url@ == print.url->0@
                    &&& p.gcode_filename_in_3mf@ == print.param->0@
                    &&& p.ams_mapping@ == print.ams_mapping->0@
                    &&& mapping2_view(p.ams_mapping2) == mapping2_view(print.ams_mapping2)
                    &&& p.use_ams == print.use_ams
                    &&& p.gcode_analysis is WaitingForPrinter
                    &&& p.total_layer_num == -1
                    &&& !p.need_consume
                    &&& p.consume_index == -1
                })
                &&& r.request_analysis == print.fetches_at_once(old(self).fetch_3mf)
                &&& r.changed == (print.uses_external() || print.uses_any_tray(old(self).ams_trays@.len() as int))
            },
    {
        if !self.track_print_consume {
            return ProjectFileStep { changed: false, request_analysis: false };
        }
        if let (Some(subtask_name), Some(ams_mapping), Some(url), Some(param)) = (
            &print.subtask_name,
            &print.ams_mapping,
            &print.url,
            &print.param,
        ) {
            let ams_mapping2 = copy_mapping2(&print.ams_mapping2);
            let project = PrintProject::new(
                subtask_name.as_str(),
                url.as_str(),
                param.as_str(),
                ams_mapping,
                ams_mapping2,
                print.use_ams,
            );
            let url_chars = chars_of(url.as_str());
            let request_analysis = self.fetch_3mf == Fetch3mf::CloudHttp || begins(url_chars.as_slice(), "ftp://")
                || begins(url_chars.as_slice(), "file://");
            self.curr_print_project = Some(project);
            self.clear_used_in_print();
            let mut changed = self.mark_used_trays(ams_mapping);
            if self.external_used(print) {
                self.virt_tray.meta_info.used_in_print = true;
                changed = true;
            }
            return ProjectFileStep { changed, request_analysis };
        }
        ProjectFileStep { changed: false, request_analysis: false }
    }

    fn external_used(&self, print: &PrintData) -> (r: bool)
        ensures
            r == print.uses_external(),
    {
        match &print.ams_mapping2 {
            Some(m) => {
                let mut i: usize = 0;
                while i < m.len()
                    invariant
                        i <= m@.len(),
                        print.ams_mapping2 == Some(*m),
                        forall|j: int| 0 <= j < i ==> !(#[trigger] m@[j]).external(),
                    decreases m@.len() - i,
                {
                    if m[i].ams_id == 255 && m[i].slot_id == 0 {
                        proof {
                            let seen = mapping2_view(print.ams_mapping2)->0;
                            assert(seen[i as int].external());
                        }
                        return true;
                    }
                    i += 1;
                }
                false
            },
            None => match print.use_ams {
                Some(use_ams) => !use_ams,
                None => false,
            },
        }
    }

    /// Marks the slots that a mapping names and that exist; says whether there is one.
    fn mark_used_trays(&mut self, ams_mapping: &Vec<i32>) -> (changed: bool)
        ensures
            final(self).ams_trays@.len() == old(self).ams_trays@.len(),
            forall|i: int|
                0 <= i < old(self).ams_trays@.len() ==> #[trigger] final(self).ams_trays@[i] == (if exists|j: int|
                    0 <= j < ams_mapping@.len() && #[trigger] ams_mapping@[j] == i {
                    old(self).ams_trays@[i].marked(true)
                } else {
                    old(self).ams_trays@[i]
                }),
            changed == exists|j: int|
                0 <= j < ams_mapping@.len() && 0 <= #[trigger] ams_mapping@[j] < old(self).ams_trays@.len(),
            *final(self) == (BambuPrinter { ams_trays: final(self).ams_trays, ..*old(self) }),
    {
        let mut changed = false;
        let mut k: usize = 0;
        while k < ams_mapping.len()
            invariant
                k <= ams_mapping@.len(),
                self.ams_trays@.len() == old(self).ams_trays@.len(),
                forall|i: int|
                    0 <= i < old(self).ams_trays@.len() ==> #[trigger] self.ams_trays@[i] == (if exists|j: int|
                        0 <= j < k && #[trigger] ams_mapping@[j] == i {
                        old(self).ams_trays@[i].marked(true)
                    } else {
                        old(self).ams_trays@[i]
                    }),
                changed == exists|j: int| 0 <= j < k && 0 <= #[trigger] ams_mapping@[j] < old(self).ams_trays@.len(),
                *self == (BambuPrinter { ams_trays: self.ams_trays, ..*old(self) }),
            decreases ams_mapping@.len() - k,
        {
            let tray_id = ams_mapping[k];
            if tray_id >= 0 && (tray_id as usize) < self.ams_trays.len() {
                let ghost before = self.ams_trays@;
                self.ams_trays[tray_id as usize].meta_info.used_in_print = true;
                changed = true;
                proof {
                    assert(ams_mapping@[k as int] == tray_id);
                    assert forall|i: int| 0 <= i < old(self).ams_trays@.len() implies #[trigger] self.ams_trays@[i]
                        == (if exists|j: int| 0 <= j < k + 1 && #[trigger] ams_mapping@[j] == i {
                        old(self).ams_trays@[i].marked(true)
                    } else {
                        old(self).ams_trays@[i]
                    }) by {
                        if i != tray_id {
                            assert(self.ams_trays@[i] == before[i]);
                        }
                    }
                }
            } else {
                proof {
                    assert(ams_mapping@[k as int] == tray_id);
                    assert forall|i: int| 0 <= i < old(self).ams_trays@.len() implies #[trigger] self.ams_trays@[i]
                        == (if exists|j: int| 0 <= j < k + 1 && #[trigger] ams_mapping@[j] == i {
                        old(self).ams_trays@[i].marked(true)
                    } else {
                        old(self).ams_trays@[i]
                    }) by {
                        if exists|j: int| 0 <= j < k + 1 && #[trigger] ams_mapping@[j] == i {
                            let j = choose|j: int| 0 <= j < k + 1 && #[trigger] ams_mapping@[j] == i;
                            assert(j != k);
                        }
                    }
                }
            }
            k += 1;
        }
        changed
    }

    /// Records that the analysis of the tracked print was requested.
    pub fn set_analysis_requested(&mut self, at: u64, job_number: i32)
        requires
            old(self).curr_print_project is Some,
        ensures
            final(self).curr_print_project == Some(
                PrintProject {
                    gcode_analysis: GcodeAnalysis::Requested { at, job_number },
                    ..old(self).curr_print_project->0
                },
            ),
            *final(self) == (BambuPrinter { curr_print_project: final(self).curr_print_project, ..*old(self) }),
    {
        if let Some(project) = &mut self.curr_print_project {
            project.gcode_analysis = GcodeAnalysis::Requested { at, job_number };
        }
    }
}

impl BambuPrinter {
    /// The state that a message changes the job to.
    pub open spec fn state_change(self, print: PrintData) -> Option<GcodeState> {
        match print.gcode_state {
            Some(s) => if s != GcodeState::Unsupported && s != self.gcode_state {
                Some(s)
            } else {
                None
            },
            None => None,
        }
    }

    /// The layer that a message changes to.
    pub open spec fn layer_change(self, print: PrintData) -> Option<i32> {
        match print.layer_num {
            Some(n) => if n != self.layer_num {
                Some(n)
            } else {
                None
            },
            None => None,
        }
    }

    /// The slot that a message reports as loaded, where it differs from the one before.
    pub open spec fn tray_now_change(self, print: PrintData) -> Option<i32> {
        match print.ams {
            Some(ams) => match ams.tray_now {
                Some(n) => if n != self.tray_now {
                    Some(n)
                } else {
                    None
                },
                None => None,
            },
            None => None,
        }
    }

    /// A message announces a change to a slot that is not the loaded one.
    pub open spec fn tray_tar_changes(self, print: PrintData) -> bool {
        match print.ams {
            Some(ams) => match ams.tray_tar {
                Some(n) => n != self.tray_tar && n != self.tray_now,
                None => false,
            },
            None => false,
        }
    }

    /// What a message charges on the announcement of another slot, once charging has
    /// passed the first entry.
    pub open spec fn charged_on_announcement(self, project: PrintProject, print: PrintData) -> Cursor {
        if self.tray_tar_changes(print) && project.consume_index != 0 {
            self.consume(project, project.cursor(), ConsumeType::FilamentSwitch)
        } else {
            project.cursor()
        }
    }

    /// What a message charges on a filament change, announced or done.
    pub open spec fn charged_on_switch(self, project: PrintProject, print: PrintData) -> Cursor {
        let c = self.charged_on_announcement(project, print);
        if self.tray_now_change(print) is Some {
            self.consume(project, c, ConsumeType::FilamentSwitch)
        } else {
            c
        }
    }

    /// What a message charges before it is known whether the print is over: on a
    /// filament change first, on a layer change last.
    pub open spec fn charged(self, project: PrintProject, print: PrintData) -> Cursor {
        let c = self.charged_on_switch(project, print);
        match self.layer_change(print) {
            Some(n) => if n != 0 {
                self.consume(project, c, ConsumeType::LayerChange(n))
            } else {
                c
            },
            None => c,
        }
    }

    /// What a message charges: a finished print is charged to its end.
    pub open spec fn charged_in_all(self, project: PrintProject, print: PrintData) -> Cursor {
        if self.state_change(print) == Some(GcodeState::FINISH) {
            self.consume(project, self.charged(project, print), ConsumeType::Finish)
        } else {
            self.charged(project, print)
        }
    }

    /// After a message there is something to charge at the next change: a new layer
    /// of a running print, a newly loaded slot, or a print that has begun to run.
    pub open spec fn starts_usage(self, print: PrintData) -> bool {
        let state = match self.state_change(print) {
            Some(s) => s,
            None => self.gcode_state,
        };
        ||| self.layer_change(print) is Some && state == GcodeState::RUNNING
        ||| self.tray_now_change(print) is Some && self.tray_now_change(print) != Some(255i32)
        ||| self.state_change(print) == Some(GcodeState::RUNNING)
    }

    /// The tracked print after a message that does not end it.
    pub open spec fn project_after(self, project: PrintProject, print: PrintData) -> PrintProject {
        let c = self.charged_in_all(project, print);
        PrintProject {
            subtask_name: if self.state_change(print) == Some(GcodeState::PREPARE) && print.subtask_name is Some {
                print.subtask_name->0
            } else {
                project.subtask_name
            },
            total_layer_num: match print.total_layer_num {
                Some(n) => n,
                None => project.total_layer_num,
            },
            need_consume: c.need || self.starts_usage(print),
            consume_index: c.index as i32,
            ..project
        }
    }

    /// A message asks for the analysis of the print.
    pub open spec fn asks_for_analysis(self, project: PrintProject, print: PrintData) -> bool {
        project.gcode_analysis is WaitingForPrinter && print.gcode_state == Some(GcodeState::RUNNING) && self.gcode_state
            != GcodeState::RUNNING
    }

    /// A message ends the print.
    pub open spec fn ends(self, print: PrintData) -> bool {
        self.state_change(print) == Some(GcodeState::FINISH) || self.state_change(print) == Some(GcodeState::FAILED)
    }

    /// What the observers are told of a message: a failed print calls its analysis off.
    pub open spec fn cancel_notices(self, project: PrintProject, print: PrintData) -> Seq<CancelNotice> {
        let all = |job: i32|
            Seq::new(self.observers@.len(), |i: int| CancelNotice { observer: self.observers@[i], job_number: job });
        if self.state_change(print) == Some(GcodeState::FAILED) {
            match project.gcode_analysis {
                GcodeAnalysis::WaitingForPrinter => Seq::empty(),
                GcodeAnalysis::Requested { at, job_number } => all(job_number),
                GcodeAnalysis::Received { at, job_number, usage } => all(job_number),
            }
        } else {
            Seq::empty()
        }
    }

    /// Follows a tracked print through a message of the printer. Usage entries are
    /// charged when the filament is switched, a layer is done or the print has
    /// finished; the analysis is asked for when the print begins to run; a print
    /// that has finished or failed is tracked no longer and its marks are removed.
    #[allow(non_snake_case)]
    pub fn process_print_message__print_project_logic(&mut self, print: &PrintData) -> (r: PrintStep)
        requires
            old(self).curr_print_project is Some ==> old(self).curr_print_project->0.wf(),
        ensures
            old(self).curr_print_project is None ==> {
                &&& *final(self) == *old(self)
                &&& !r.changed
                &&& r.taken@.len() == 0
                &&& !r.request_analysis
            },
            old(self).curr_print_project is Some ==> {
                let before = *old(self);
                let project = before.curr_print_project->0;
                let c = before.charged_in_all(project, *print);
                &&& final(self).same_identity(before)
                &&& final(self).notices@ == before.notices@ + before.cancel_notices(project, *print)
                &&& r.changed == before.charged(project, *print).consumed
                &&& r.taken@ == c.taken
                &&& project.consume_index <= c.index <= i32::MAX
                &&& r.request_analysis == (before.state_change(*print) == Some(GcodeState::RUNNING)
                    && project.gcode_analysis is WaitingForPrinter)
                &&& r.request_analysis == before.asks_for_analysis(project, *print)
                &&& !before.ends(*print) ==> {
                    &&& final(self).curr_print_project == Some(before.project_after(project, *print))
                    &&& final(self).ams_trays == before.ams_trays
                    &&& final(self).virt_tray == before.virt_tray
                }
                &&& before.ends(*print) ==> {
                    &&& final(self).curr_print_project is None
                    &&& final(self).marks_set(before, |i: int| false, false)
                }
            },
    {
        let mut taken: Vec<Consumption> = Vec::new();
        let tracked_project = self.curr_print_project.take();
        match tracked_project {
            None => PrintStep { changed: false, taken, request_analysis: false },
            Some(mut project) => {
                let ghost before = *old(self);
                let ghost p0 = project;
                let changes = self.changes_of(print);
                if changes.state == Some(GcodeState::PREPARE) {
                    if let Some(subtask_name) = &print.subtask_name {
                        project.subtask_name = subtask_name.clone();
                    }
                }
                if let Some(total_layer_num) = print.total_layer_num {
                    project.total_layer_num = total_layer_num;
                }
                let ghost p1 = project;
                proof {
                    lemma_charged_same(*self, before, p1, p0, *print);
                }
                let changed = self.charge_message(&mut project, print, &changes, &mut taken);
                let running = match changes.state {
                    Some(state) => state == GcodeState::RUNNING,
                    None => self.gcode_state == GcodeState::RUNNING,
                };
                if changes.layer.is_some() && running {
                    project.need_consume = true;
                }
                if let Some(tray_now) = changes.tray_now {
                    if tray_now != 255 {
                        project.need_consume = true;
                    }
                }
                let mut request_analysis = false;
                if changes.state == Some(GcodeState::RUNNING) {
                    if let GcodeAnalysis::WaitingForPrinter = &project.gcode_analysis {
                        request_analysis = true;
                    }
                    project.need_consume = true;
                }
                if changes.state == Some(GcodeState::FAILED) {
                    match &project.gcode_analysis {
                        GcodeAnalysis::WaitingForPrinter => {},
                        GcodeAnalysis::Requested { at: _, job_number } => {
                            self.notify_cancel_gcode_analysis(*job_number);
                        },
                        GcodeAnalysis::Received { at: _, job_number, usage: _ } => {
                            self.notify_cancel_gcode_analysis(*job_number);
                        },
                    }
                }
                proof {
                    assert(self.notices@ =~= before.notices@ + before.cancel_notices(p0, *print));
                }
                if changes.state == Some(GcodeState::FAILED) || changes.state == Some(GcodeState::FINISH) {
                    self.curr_print_project = None;
                    self.clear_used_in_print();
                } else {
                    self.curr_print_project = Some(project);
                    proof {
                        assert(project == before.project_after(p0, *print));
                    }
                }
                PrintStep { changed, taken, request_analysis }
            },
        }
    }

    /// What a message changes.
    fn changes_of(&self, print: &PrintData) -> (r: MessageChanges)
        ensures
            r.state == self.state_change(*print),
            r.layer == self.layer_change(*print),
            r.tray_now == self.tray_now_change(*print),
            r.tray_tar == self.tray_tar_changes(*print),
    {
        let mut state: Option<GcodeState> = None;
        if let Some(s) = print.gcode_state {
            if s != GcodeState::Unsupported && s != self.gcode_state {
                state = Some(s);
            }
        }
        let mut layer: Option<i32> = None;
        if let Some(n) = print.layer_num {
            if n != self.layer_num {
                layer = Some(n);
            }
        }
        let mut tray_now: Option<i32> = None;
        let mut tray_tar = false;
        if let Some(ams) = print.ams {
            if let Some(n) = ams.tray_tar {
                tray_tar = n != self.tray_tar && n != self.tray_now;
            }
            if let Some(n) = ams.tray_now {
                if n != self.tray_now {
                    tray_now = Some(n);
                }
            }
        }
        MessageChanges { state, layer, tray_now, tray_tar }
    }

    /// Charges what a message makes due.
    fn charge_message(
        &self,
        project: &mut PrintProject,
        print: &PrintData,
        changes: &MessageChanges,
        taken: &mut Vec<Consumption>,
    ) -> (changed: bool)
        requires
            old(project).wf(),
            old(taken)@.len() == 0,
            changes.state == self.state_change(*print),
            changes.layer == self.layer_change(*print),
            changes.tray_now == self.tray_now_change(*print),
            changes.tray_tar == self.tray_tar_changes(*print),
        ensures
            ({
                let c = self.charged_in_all(*old(project), *print);
                &&& *final(project) == (PrintProject {
                    consume_index: c.index as i32,
                    need_consume: c.need,
                    ..*old(project)
                })
                &&& old(project).consume_index <= c.index <= i32::MAX
                &&& final(taken)@ == c.taken
                &&& changed == self.charged(*old(project), *print).consumed
            }),
    {
        let ghost p0 = *project;
        let ghost mut c = p0.cursor();
        let mut changed = false;
        if changes.tray_tar && project.consume_index != 0 {
            changed = self.try_consume(project, ConsumeType::FilamentSwitch, taken);
            proof {
                lemma_same_plan(*self, *self, p0, p0, c, ConsumeType::FilamentSwitch);
                c = self.consume(p0, c, ConsumeType::FilamentSwitch);
            }
        }
        if changes.tray_now.is_some() {
            proof {
                lemma_same_plan(*self, *self, *project, p0, c, ConsumeType::FilamentSwitch);
                c = self.consume(p0, c, ConsumeType::FilamentSwitch);
            }
            if self.try_consume(project, ConsumeType::FilamentSwitch, taken) {
                changed = true;
            }
        }
        if let Some(layer) = changes.layer {
            if layer != 0 {
                proof {
                    lemma_same_plan(*self, *self, *project, p0, c, ConsumeType::LayerChange(layer));
                    c = self.consume(p0, c, ConsumeType::LayerChange(layer));
                }
                if self.try_consume(project, ConsumeType::LayerChange(layer), taken) {
                    changed = true;
                }
            }
        }
        proof {
            assert(c == self.charged(p0, *print));
        }
        if changes.state == Some(GcodeState::FINISH) {
            proof {
                lemma_same_plan(*self, *self, *project, p0, c, ConsumeType::Finish);
            }
            self.try_consume(project, ConsumeType::Finish, taken);
        }
        changed
    }
}

/// What a message changes.
#[derive(Clone, Copy, Debug)]
struct MessageChanges {
    state: Option<GcodeState>,
    layer: Option<i32>,
    tray_now: Option<i32>,
    tray_tar: bool,
}

/// What a message charges does not depend on the name and the layers of the print.
proof fn lemma_charged_same(printer: BambuPrinter, before: BambuPrinter, p: PrintProject, q: PrintProject, print: PrintData)
    requires
        printer.layer_num == before.layer_num,
        printer.tray_now == before.tray_now,
        printer.tray_tar == before.tray_tar,
        printer.gcode_state == before.gcode_state,
        printer.ams_trays == before.ams_trays,
        p.ams_mapping == q.ams_mapping,
        p.ams_mapping2 == q.ams_mapping2,
        p.use_ams == q.use_ams,
        p.gcode_analysis == q.gcode_analysis,
        p.need_consume == q.need_consume,
        p.consume_index == q.consume_index,
    ensures
        printer.charged(p, print) == before.charged(q, print),
        printer.charged_in_all(p, print) == before.charged_in_all(q, print),
{
    lemma_same_plan(printer, before, p, q, p.cursor(), ConsumeType::FilamentSwitch);
    lemma_same_plan(printer, before, p, q, printer.charged_on_announcement(p, print), ConsumeType::FilamentSwitch);
    if let Some(n) = printer.layer_change(print) {
        lemma_same_plan(printer, before, p, q, printer.charged_on_switch(p, print), ConsumeType::LayerChange(n));
    }
    lemma_same_plan(printer, before, p, q, printer.charged(p, print), ConsumeType::Finish);
}

/// Charging reads of the printer only its layer and slots, and of the print only its
/// slots and usage, and never goes back. What was charged before stays in front.
proof fn lemma_same_plan(
    printer: BambuPrinter,
    before: BambuPrinter,
    p: PrintProject,
    q: PrintProject,
    c: Cursor,
    kind: ConsumeType,
)
    requires
        printer.layer_num == before.layer_num,
        printer.tray_now == before.tray_now,
        printer.ams_trays == before.ams_trays,
        p.ams_mapping == q.ams_mapping,
        p.ams_mapping2 == q.ams_mapping2,
        p.use_ams == q.use_ams,
        p.gcode_analysis == q.gcode_analysis,
    ensures
        p.wf() == q.wf(),
        printer.consume(p, c, kind).index == before.consume(q, c, kind).index,
        printer.consume(p, c, kind).need == before.consume(q, c, kind).need,
        printer.consume(p, c, kind).taken == before.consume(q, c, kind).taken,
        printer.consume(p, c, kind).consumed == before.consume(q, c, kind).consumed,
        c.index <= before.consume(q, c, kind).index,
        q.wf() && c.index <= i32::MAX ==> before.consume(q, c, kind).index <= i32::MAX,
        before.consume(q, c, kind).consumed == (c.consumed || printer.consume(
            p,
            Cursor { consumed: false, ..c },
            kind,
        ).consumed),
        printer.consume(p, Cursor { consumed: false, ..c }, kind).index == before.consume(q, c, kind).index,
        printer.consume(p, Cursor { consumed: false, ..c }, kind).need == before.consume(q, c, kind).need,
        printer.consume(p, Cursor { consumed: false, ..c }, kind).taken == before.consume(q, c, kind).taken,
{
    let up_to: int = match kind {
        ConsumeType::LayerChange(n) => n as int,
        _ => -1,
    };
    lemma_stop(q, c.index, up_to);
    lemma_stop_same(p, q, c.index, up_to);
    lemma_charges_same(p, q, c.index, q.stop(c.index, up_to));
    lemma_charges_same(p, q, c.index, c.index + 1);
}

proof fn lemma_stop(p: PrintProject, from: int, up_to: int)
    ensures
        from <= p.stop(from, up_to),
        p.stop(from, up_to) > from ==> p.stop(from, up_to) <= p.entries().len(),
    decreases p.entries().len() - from,
{
    if 0 <= from < p.entries().len() && (p.entries()[from].layer < up_to || up_to == -1) {
        lemma_stop(p, from + 1, up_to);
    }
}

proof fn lemma_stop_same(p: PrintProject, q: PrintProject, from: int, up_to: int)
    requires
        p.gcode_analysis == q.gcode_analysis,
    ensures
        p.stop(from, up_to) == q.stop(from, up_to),
    decreases p.entries().len() - from,
{
    if 0 <= from < p.entries().len() && (p.entries()[from].layer < up_to || up_to == -1) {
        lemma_stop_same(p, q, from + 1, up_to);
    }
}

proof fn lemma_charges_same(p: PrintProject, q: PrintProject, from: int, to: int)
    requires
        p.ams_mapping == q.ams_mapping,
        p.ams_mapping2 == q.ams_mapping2,
        p.use_ams == q.use_ams,
        p.gcode_analysis == q.gcode_analysis,
    ensures
        p.charges(from, to) == q.charges(from, to),
    decreases to - from,
{
    if from < to {
        lemma_charges_same(p, q, from, to - 1);
        let e = p.entries()[to - 1];
        assert(p.tray_of(e.gcode_filament_id as int) == q.tray_of(e.gcode_filament_id as int));
    }
}

impl PrintProject {
    /// The number of the analysis job that the print awaits or has received.
    pub open spec fn awaited_job(self) -> Option<i32> {
        match self.gcode_analysis {
            GcodeAnalysis::WaitingForPrinter => None,
            GcodeAnalysis::Requested { at, job_number } => Some(job_number),
            GcodeAnalysis::Received { at, job_number, usage } => Some(job_number),
        }
    }

    /// Whether the print awaits a job, or has its result.
    pub fn awaits(&self, job_number: i32) -> (r: bool)
        ensures
            r == (self.awaited_job() == Some(job_number)),
    {
        match &self.gcode_analysis {
            GcodeAnalysis::WaitingForPrinter => false,
            GcodeAnalysis::Requested { at: _, job_number: awaited } => *awaited == job_number,
            GcodeAnalysis::Received { at: _, job_number: awaited, usage: _ } => *awaited == job_number,
        }
    }

    /// The print with the result of an analysis. Charging begins with the first entry unless
    /// it has begun.
    pub open spec fn with_analysis(self, at: u64, job_number: i32, usage: FilamentUsage) -> PrintProject {
        PrintProject {
            gcode_analysis: GcodeAnalysis::Received { at, job_number, usage },
            consume_index: if self.consume_index == -1 {
                0
            } else {
                self.consume_index
            },
            ..self
        }
    }

    /// Takes the result of an analysis, if it is the one that the print awaits, and
    /// says so. Charging begins with the first entry unless it has begun.
    pub fn receive_analysis(&mut self, job_number: i32, at: u64, usage: FilamentUsage) -> (accepted: bool)
        ensures
            accepted == (old(self).awaited_job() == Some(job_number)),
            !accepted ==> *final(self) == *old(self),
            accepted ==> *final(self) == (PrintProject {
                gcode_analysis: GcodeAnalysis::Received { at, job_number, usage },
                consume_index: if old(self).consume_index == -1 {
                    0
                } else {
                    old(self).consume_index
                },
                ..*old(self)
            }),
            accepted ==> *final(self) == old(self).with_analysis(at, job_number, usage),
    {
        if !self.awaits(job_number) {
            return false;
        }
        self.gcode_analysis = GcodeAnalysis::Received { at, job_number, usage };
        if self.consume_index == -1 {
            self.consume_index = 0;
        }
        true
    }
}

proof fn lemma_charges_join(p: PrintProject, from: int, mid: int, to: int)
    requires
        from <= mid <= to,
    ensures
        p.charges(from, mid) + p.charges(mid, to) == p.charges(from, to),
    decreases to - mid,
{
    if mid < to {
        lemma_charges_join(p, from, mid, to - 1);
        let e = p.entries()[to - 1];
        if let Some(tray_id) = p.tray_of(e.gcode_filament_id as int) {
            let c = Consumption { entry: (to - 1) as usize, tray_id, weight_g: e.weight_g };
            assert(p.charges(from, mid) + p.charges(mid, to - 1).push(c) =~= (p.charges(from, mid) + p.charges(
                mid,
                to - 1,
            )).push(c));
        }
    } else {
        assert(p.charges(from, mid) + p.charges(mid, to) =~= p.charges(from, mid));
    }
}

proof fn lemma_consume_extends(printer: BambuPrinter, p: PrintProject, start: int, c: Cursor, kind: ConsumeType)
    requires
        start <= c.index,
        c.taken == p.charges(start, c.index),
    ensures
        start <= printer.consume(p, c, kind).index,
        printer.consume(p, c, kind).taken == p.charges(start, printer.consume(p, c, kind).index),
{
    lemma_same_plan(printer, printer, p, p, c, kind);
    lemma_charges_join(p, start, c.index, printer.consume(p, c, kind).index);
}

/// A message charges exactly the usage entries that it passes, in their order: none is
/// left out, none is charged twice, and charging never goes back.
pub proof fn message_charges_what_it_passes(printer: BambuPrinter, p: PrintProject, print: PrintData)
    ensures
        p.consume_index <= printer.charged_in_all(p, print).index,
        printer.charged_in_all(p, print).taken == p.charges(
            p.consume_index as int,
            printer.charged_in_all(p, print).index,
        ),
{
    let start = p.consume_index as int;
    assert(p.cursor().taken =~= p.charges(start, start));
    lemma_consume_extends(printer, p, start, p.cursor(), ConsumeType::FilamentSwitch);
    lemma_consume_extends(printer, p, start, printer.charged_on_announcement(p, print), ConsumeType::FilamentSwitch);
    if let Some(n) = printer.layer_change(print) {
        lemma_consume_extends(printer, p, start, printer.charged_on_switch(p, print), ConsumeType::LayerChange(n));
    }
    lemma_consume_extends(printer, p, start, printer.charged(p, print), ConsumeType::Finish);
}

/// Two messages in a row charge together what lies between the entry before the first
/// and the entry after the second, each entry once.
pub proof fn messages_charge_each_entry_once(
    first: BambuPrinter,
    second: BambuPrinter,
    p: PrintProject,
    print1: PrintData,
    print2: PrintData,
)
    requires
        p.wf(),
    ensures
        ({
            let q = first.project_after(p, print1);
            first.charged_in_all(p, print1).taken + second.charged_in_all(q, print2).taken == p.charges(
                p.consume_index as int,
                second.charged_in_all(q, print2).index,
            )
        }),
{
    let q = first.project_after(p, print1);
    let mid = first.charged_in_all(p, print1).index;
    let end = second.charged_in_all(q, print2).index;
    message_charges_what_it_passes(first, p, print1);
    message_charges_what_it_passes(second, q, print2);
    lemma_index_fits(first, p, print1);
    lemma_charges_same(q, p, mid, end);
    lemma_charges_join(p, p.consume_index as int, mid, end);
}

proof fn lemma_index_fits(printer: BambuPrinter, p: PrintProject, print: PrintData)
    requires
        p.wf(),
    ensures
        printer.charged_in_all(p, print).index <= i32::MAX,
{
    lemma_same_plan(printer, printer, p, p, p.cursor(), ConsumeType::FilamentSwitch);
    lemma_same_plan(printer, printer, p, p, printer.charged_on_announcement(p, print), ConsumeType::FilamentSwitch);
    if let Some(n) = printer.layer_change(print) {
        lemma_same_plan(printer, printer, p, p, printer.charged_on_switch(p, print), ConsumeType::LayerChange(n));
    }
    lemma_same_plan(printer, printer, p, p, printer.charged(p, print), ConsumeType::Finish);
}

/// Charging up to a layer passes exactly the entries that come before the first one on
/// this layer or above it.
pub proof fn layers_below_are_charged(p: PrintProject, from: int, up_to: int)
    requires
        0 <= from <= p.entries().len(),
        up_to != -1,
    ensures
        from <= p.stop(from, up_to) <= p.entries().len(),
        forall|i: int| from <= i < p.stop(from, up_to) ==> (#[trigger] p.entries()[i]).layer < up_to,
        p.stop(from, up_to) < p.entries().len() ==> p.entries()[p.stop(from, up_to)].layer >= up_to,
    decreases p.entries().len() - from,
{
    if from < p.entries().len() && p.entries()[from].layer < up_to {
        layers_below_are_charged(p, from + 1, up_to);
    }
}

/// A print that finishes while there is something to charge is charged to its end.
pub proof fn finished_print_is_charged_to_its_end(printer: BambuPrinter, p: PrintProject, print: PrintData)
    requires
        0 <= p.consume_index <= p.entries().len(),
        printer.state_change(print) == Some(GcodeState::FINISH),
        printer.charged(p, print).need,
    ensures
        printer.charged_in_all(p, print).index == p.entries().len(),
{
    lemma_charged_in_range(printer, p, print);
    lemma_stop_at_end(p, printer.charged(p, print).index);
}

proof fn lemma_charged_in_range(printer: BambuPrinter, p: PrintProject, print: PrintData)
    requires
        0 <= p.consume_index <= p.entries().len(),
    ensures
        0 <= printer.charged(p, print).index <= p.entries().len(),
{
    if let Some(n) = printer.layer_change(print) {
        lemma_stop(p, printer.charged_on_switch(p, print).index, n as int);
    }
}

proof fn lemma_stop_at_end(p: PrintProject, from: int)
    requires
        0 <= from <= p.entries().len(),
    ensures
        p.stop(from, -1) == p.entries().len(),
    decreases p.entries().len() - from,
{
    if from < p.entries().len() {
        lemma_stop_at_end(p, from + 1);
    }
}

/// What a message changes is what it reports otherwise than it was. A state that is not
/// supported changes nothing, and the slot that is loaded is not announced as another.
pub proof fn changes_are_what_is_reported_otherwise(printer: BambuPrinter, print: PrintData)
    ensures
        forall|s: GcodeState|
            printer.state_change(print) == Some(s) <==> print.gcode_state == Some(s) && s != GcodeState::Unsupported && s
                != printer.gcode_state,
        forall|n: i32| printer.layer_change(print) == Some(n) <==> print.layer_num == Some(n) && n != printer.layer_num,
        forall|n: i32|
            printer.tray_now_change(print) == Some(n) <==> print.ams is Some && print.ams->0.tray_now == Some(n) && n
                != printer.tray_now,
        printer.tray_tar_changes(print) <==> print.ams is Some && print.ams->0.tray_tar is Some
            && print.ams->0.tray_tar->0 != printer.tray_tar && print.ams->0.tray_tar->0 != printer.tray_now,
{
}

/// The mapped slot feeds a filament. Where the mapping has none, the external spool does if
/// the newer mapping points there, or without one if the print does without filament unit.
pub proof fn filaments_are_fed_as_mapped(p: PrintProject, filament_id: int)
    ensures
        filament_id < 0 ==> p.tray_of(filament_id) is None,
        0 <= filament_id < p.ams_mapping@.len() && p.ams_mapping@[filament_id] != -1 ==> p.tray_of(filament_id) == Some(
            p.ams_mapping@[filament_id],
        ),
        filament_id >= 0 && (filament_id >= p.ams_mapping@.len() || p.ams_mapping@[filament_id] == -1) ==> {
            let unmapped = if filament_id < p.ams_mapping@.len() {
                Some(-1i32)
            } else {
                None
            };
            match p.ams_mapping2 {
                Some(m) => p.tray_of(filament_id) == (if filament_id < m@.len() && m@[filament_id].ams_id == 255
                    && m@[filament_id].slot_id == 0 {
                    Some(254i32)
                } else {
                    unmapped
                }),
                None => p.tray_of(filament_id) == (if p.use_ams == Some(false) {
                    Some(254i32)
                } else {
                    unmapped
                }),
            }
        },
{
}

/// A layer change of a print that has something to charge leaves no entry below the new
/// layer behind: charging stops at the end or at the first entry on this layer or above.
/// Only where a filament change of the same message has charged an entry of the current
/// layer, which the loaded slot feeds, does the layer wait for the next message.
pub proof fn layer_change_charges_the_layers_below(printer: BambuPrinter, p: PrintProject, print: PrintData, n: i32)
    requires
        p.gcode_analysis is Received,
        0 <= p.consume_index <= p.gcode_analysis->usage.data@.len(),
        p.need_consume,
        print.layer_num == Some(n),
        n != printer.layer_num,
        n != 0,
    ensures
        ({
            let entries = p.gcode_analysis->usage.data@;
            let c = printer.charged_in_all(p, print);
            let start = p.consume_index as int;
            let switched = print.ams is Some && start < entries.len() && c.index == start + 1 && entries[start].layer
                == printer.layer_num && p.tray_of(entries[start].gcode_filament_id as int) == Some(printer.tray_now);
            &&& switched || c.index == entries.len() || (start <= c.index < entries.len() && entries[c.index].layer >= n)
            &&& !switched && n != -1 ==> forall|i: int| start <= i < c.index ==> (#[trigger] entries[i]).layer < n
            &&& printer.charged(p, print).consumed <==> c.index > start
            &&& !c.need
        }),
{
    let start = p.consume_index as int;
    let entries = p.gcode_analysis->usage.data@;
    let c = printer.charged_on_switch(p, print);
    if c.need {
        assert(c.index == start && !c.consumed);
        if n == -1 {
            lemma_stop_at_end(p, start);
        } else {
            layers_below_are_charged(p, start, n as int);
        }
    }
}

/// Without something to charge, a message charges nothing, whatever it reports.
pub proof fn nothing_is_charged_without_need(printer: BambuPrinter, p: PrintProject, print: PrintData)
    requires
        !p.need_consume,
    ensures
        printer.charged_in_all(p, print).index == p.consume_index,
        printer.charged_in_all(p, print).taken.len() == 0,
        !printer.charged(p, print).consumed,
{
}

/// The first filament change that a message reports charges the next entry, and only this
/// one, where it lies on the current layer and is fed by the loaded slot. Another slot that
/// is announced counts too, but for the first entry of all.
pub proof fn filament_change_charges_the_next_entry(printer: BambuPrinter, p: PrintProject, print: PrintData)
    requires
        p.gcode_analysis is Received,
        0 <= p.consume_index < p.gcode_analysis->usage.data@.len(),
        p.need_consume,
        print.ams is Some,
        ({
            let ams = print.ams->0;
            ||| ams.tray_now is Some && ams.tray_now->0 != printer.tray_now
            ||| ams.tray_tar is Some && ams.tray_tar->0 != printer.tray_tar && ams.tray_tar->0 != printer.tray_now
                && p.consume_index != 0
        }),
    ensures
        ({
            let e = p.gcode_analysis->usage.data@[p.consume_index as int];
            let t = p.tray_of(e.gcode_filament_id as int);
            let c = printer.charged_in_all(p, print);
            let fed = e.layer == printer.layer_num && t == Some(printer.tray_now) && 0 <= printer.tray_now
                < printer.ams_trays@.len();
            &&& fed ==> c.index == p.consume_index + 1 && c.taken == seq![
                Consumption { entry: p.consume_index as usize, tray_id: printer.tray_now, weight_g: e.weight_g },
            ] && printer.charged(p, print).consumed
            &&& !fed ==> printer.charged_on_switch(p, print) == p.cursor()
        }),
{
    reveal_with_fuel(PrintProject::charges, 2);
    let start = p.consume_index as int;
    let e = p.gcode_analysis->usage.data@[start];
    assert(p.charges(start, start).len() == 0);
    if p.tray_of(e.gcode_filament_id as int) is Some {
        assert(p.charges(start, start + 1) =~= seq![
            Consumption {
                entry: start as usize,
                tray_id: p.tray_of(e.gcode_filament_id as int)->0,
                weight_g: e.weight_g,
            },
        ]);
    }
    assert(Seq::<Consumption>::empty() + p.charges(start, start + 1) =~= p.charges(start, start + 1));
}

/// A message that reports neither another slot nor another layer, nor the end of the print,
/// charges nothing.
pub proof fn nothing_is_charged_without_change(printer: BambuPrinter, p: PrintProject, print: PrintData)
    requires
        print.ams is Some ==> (print.ams->0.tray_now is None || print.ams->0.tray_now->0 == printer.tray_now) && (
        print.ams->0.tray_tar is None || print.ams->0.tray_tar->0 == printer.tray_tar || print.ams->0.tray_tar->0
            == printer.tray_now),
        print.layer_num is None || print.layer_num->0 == printer.layer_num || print.layer_num->0 == 0,
        print.gcode_state != Some(GcodeState::FINISH) || printer.gcode_state == GcodeState::FINISH,
    ensures
        printer.charged_in_all(p, print).index == p.consume_index,
        printer.charged_in_all(p, print).taken.len() == 0,
        !printer.charged(p, print).consumed,
        printer.charged_in_all(p, print).need == p.need_consume,
{
}

/// The end of a print that has something to charge charges all that is left, where the
/// message reports nothing else that charges.
pub proof fn end_charges_all_that_is_left(printer: BambuPrinter, p: PrintProject, print: PrintData)
    requires
        p.gcode_analysis is Received,
        0 <= p.consume_index <= p.gcode_analysis->usage.data@.len(),
        p.need_consume,
        print.gcode_state == Some(GcodeState::FINISH),
        printer.gcode_state != GcodeState::FINISH,
        print.ams is None || (print.ams->0.tray_now is None && print.ams->0.tray_tar is None),
        print.layer_num is None || print.layer_num->0 == printer.layer_num || print.layer_num->0 == 0,
    ensures
        printer.charged_in_all(p, print).index == p.gcode_analysis->usage.data@.len(),
        printer.charged_in_all(p, print).taken == p.charges(
            p.consume_index as int,
            p.gcode_analysis->usage.data@.len() as int,
        ),
{
    lemma_stop_at_end(p, p.consume_index as int);
    let all = p.charges(p.consume_index as int, p.entries().len() as int);
    assert(Seq::<Consumption>::empty() + all =~= all);
}

/// Of the entries that are passed exactly those are charged, in their order, that a slot
/// feeds: each with its own weight, to this slot.
pub proof fn passed_entries_are_charged_to_their_slots(p: PrintProject, from: int, to: int) -> (at: Seq<int>)
    requires
        p.gcode_analysis is Received,
        0 <= from <= to <= p.gcode_analysis->usage.data@.len() <= usize::MAX,
    ensures
        ({
            let entries = p.gcode_analysis->usage.data@;
            &&& lists_marked(
                at,
                Seq::new(
                    (to - from) as nat,
                    |i: int| p.tray_of(entries[from + i].gcode_filament_id as int) is Some,
                ),
            )
            &&& p.charges(from, to).len() == at.len()
            &&& forall|k: int|
                0 <= k < at.len() ==> (#[trigger] p.charges(from, to)[k]).entry == from + at[k] && Some(
                    p.charges(from, to)[k].tray_id,
                ) == p.tray_of(entries[from + at[k]].gcode_filament_id as int) && p.charges(from, to)[k].weight_g
                    == entries[from + at[k]].weight_g
        }),
    decreases to - from,
{
    let entries = p.gcode_analysis->usage.data@;
    let marks = Seq::new((to - from) as nat, |i: int| p.tray_of(entries[from + i].gcode_filament_id as int) is Some);
    if from == to {
        assert(lists_marked(seq![], marks));
        seq![]
    } else {
        let before = passed_entries_are_charged_to_their_slots(p, from, to - 1);
        let fewer = Seq::new(
            (to - 1 - from) as nat,
            |i: int| p.tray_of(entries[from + i].gcode_filament_id as int) is Some,
        );
        let fed = p.tray_of(entries[to - 1].gcode_filament_id as int) is Some;
        lemma_lists_marked(before, fewer, fed);
        assert(fewer.push(fed) =~= marks);
        if fed {
            before.push(to - 1 - from)
        } else {
            before
        }
    }
}

/// After a message there is something to charge where the print has begun to run, a slot
/// was loaded, or a running print has come to another layer. Else there is where there was
/// and the message has not charged.
pub proof fn running_print_is_charged_later(printer: BambuPrinter, p: PrintProject, print: PrintData)
    ensures
        ({
            let after = printer.project_after(p, print);
            let runs = print.gcode_state == Some(GcodeState::RUNNING) || (printer.gcode_state == GcodeState::RUNNING && (
            print.gcode_state is None || print.gcode_state == Some(GcodeState::Unsupported)));
            &&& print.gcode_state == Some(GcodeState::RUNNING) && printer.gcode_state != GcodeState::RUNNING
                ==> after.need_consume
            &&& print.ams is Some && print.ams->0.tray_now is Some && print.ams->0.tray_now->0 != printer.tray_now
                && print.ams->0.tray_now->0 != 255 ==> after.need_consume
            &&& runs && print.layer_num is Some && print.layer_num->0 != printer.layer_num ==> after.need_consume
            &&& (print.gcode_state != Some(GcodeState::RUNNING) || printer.gcode_state == GcodeState::RUNNING) && (
            print.ams is None || print.ams->0.tray_now is None || print.ams->0.tray_now->0 == printer.tray_now
                || print.ams->0.tray_now->0 == 255) && (!runs || print.layer_num is None || print.layer_num->0
                == printer.layer_num) ==> after.need_consume == printer.charged_in_all(p, print).need
        }),
{
}

/// A message keeps what it does not report of a print: its files, its slots and its
/// analysis. The name changes where the print is prepared, the number of layers where it is
/// reported, and charging goes on where it came to.
pub proof fn message_keeps_the_print(printer: BambuPrinter, p: PrintProject, print: PrintData)
    ensures
        ({
            let after = printer.project_after(p, print);
            &&& after.threemf_url == p.threemf_url
            &&& after.gcode_filename_in_3mf == p.gcode_filename_in_3mf
            &&& after.ams_mapping == p.ams_mapping
            &&& after.ams_mapping2 == p.ams_mapping2
            &&& after.use_ams == p.use_ams
            &&& after.gcode_analysis == p.gcode_analysis
            &&& after.total_layer_num == (if print.total_layer_num is Some {
                print.total_layer_num->0
            } else {
                p.total_layer_num
            })
            &&& after.subtask_name == (if print.gcode_state == Some(GcodeState::PREPARE) && printer.gcode_state
                != GcodeState::PREPARE && print.subtask_name is Some {
                print.subtask_name->0
            } else {
                p.subtask_name
            })
            &&& after.consume_index == printer.charged_in_all(p, print).index as i32
        }),
{
}

/// A print ends where the printer reports anew that it has finished or failed.
pub proof fn finished_and_failed_prints_end(printer: BambuPrinter, print: PrintData)
    ensures
        printer.ends(print) <==> (print.gcode_state == Some(GcodeState::FINISH) && printer.gcode_state
            != GcodeState::FINISH) || (print.gcode_state == Some(GcodeState::FAILED) && printer.gcode_state
            != GcodeState::FAILED),
{
}

/// A failed print, and no other, calls its analysis off: every observer is told, in order,
/// the number of the job, where one was requested.
pub proof fn failed_print_calls_its_analysis_off(printer: BambuPrinter, p: PrintProject, print: PrintData)
    ensures
        ({
            let told = printer.cancel_notices(p, print);
            let fails = print.gcode_state == Some(GcodeState::FAILED) && printer.gcode_state != GcodeState::FAILED;
            &&& !fails || p.gcode_analysis is WaitingForPrinter ==> told.len() == 0
            &&& fails && !(p.gcode_analysis is WaitingForPrinter) ==> {
                &&& told.len() == printer.observers@.len()
                &&& forall|i: int|
                    0 <= i < told.len() ==> (#[trigger] told[i]).observer == printer.observers@[i] && told[i].job_number
                        == (match p.gcode_analysis {
                        GcodeAnalysis::Requested { at, job_number } => job_number,
                        GcodeAnalysis::Received { at, job_number, usage } => job_number,
                        GcodeAnalysis::WaitingForPrinter => 0,
                    })
            }
        }),
{
}

/// The first answer that names a job counts; there is no job where every answer is zero.
pub proof fn first_job_counts(answers: Seq<i32>, i: int)
    requires
        0 <= i <= answers.len(),
        forall|j: int| 0 <= j < i ==> #[trigger] answers[j] == 0,
        i < answers.len() ==> answers[i] != 0,
    ensures
        BambuPrinter::first_job(answers) == (if i < answers.len() {
            answers[i]
        } else {
            0
        }),
    decreases answers.len(),
{
    if answers.len() > 0 && i > 0 {
        assert(answers[0] == 0);
        assert forall|j: int| 0 <= j < i - 1 implies #[trigger] answers.skip(1)[j] == 0 by {
            assert(answers[j + 1] == 0);
        }
        first_job_counts(answers.skip(1), i - 1);
    }
}

/// A print is announced by its name, its slots and its two files. It uses the slots of its
/// mapping, and the external spool by the newer mapping or, without one, where it does
/// without filament unit. Its gcode can be fetched at once from the cloud, or where the
/// printer has the file.
pub proof fn announcement_tells_what_is_used(print: PrintData, fetch_3mf: Fetch3mf)
    ensures
        print.announces() <==> print.subtask_name is Some && print.ams_mapping is Some && print.url is Some
            && print.param is Some,
        forall|t: int| print.uses_tray(t) <==> exists|j: int|
            0 <= j < print.ams_mapping->0@.len() && #[trigger] print.ams_mapping->0@[j] == t,
        print.ams_mapping2 is None ==> (print.uses_external() <==> print.use_ams == Some(false)),
        print.ams_mapping2 is Some ==> (print.uses_external() <==> exists|j: int|
            0 <= j < print.ams_mapping2->0@.len() && (#[trigger] print.ams_mapping2->0@[j]).ams_id == 255
                && print.ams_mapping2->0@[j].slot_id == 0),
        print.fetches_at_once(fetch_3mf) <==> fetch_3mf == Fetch3mf::CloudHttp || starts_with(print.url->0@, "ftp://"@)
            || starts_with(print.url->0@, "file://"@),
{
    if print.ams_mapping2 is Some {
        let m = print.ams_mapping2->0@;
        if print.uses_external() {
            let seen = mapping2_view(print.ams_mapping2)->0;
            assert(seen == m);
            let j = choose|j: int| 0 <= j < seen.len() && (#[trigger] seen[j]).external();
            assert(print.ams_mapping2->0@[j].ams_id == 255 && print.ams_mapping2->0@[j].slot_id == 0);
        }
        if exists|j: int| 0 <= j < m.len() && (#[trigger] m[j]).ams_id == 255 && m[j].slot_id == 0 {
            let j = choose|j: int| 0 <= j < m.len() && (#[trigger] m[j]).ams_id == 255 && m[j].slot_id == 0;
            let seen = mapping2_view(print.ams_mapping2)->0;
            assert(seen[j].external());
        }
    }
}

/// A print awaits the job that was requested for it, also once it has its result, and none
/// before.
pub proof fn requested_job_is_awaited(p: PrintProject, job_number: i32)
    ensures
        p.awaited_job() == Some(job_number) <==> match p.gcode_analysis {
            GcodeAnalysis::WaitingForPrinter => false,
            GcodeAnalysis::Requested { at, job_number: n } => n == job_number,
            GcodeAnalysis::Received { at, job_number: n, usage } => n == job_number,
        },
{
}

/// The analysis of a print is asked for when it begins to run, unless it was before.
pub proof fn analysis_is_asked_for_once(printer: BambuPrinter, p: PrintProject, print: PrintData)
    ensures
        printer.asks_for_analysis(p, print) ==> print.gcode_state == Some(GcodeState::RUNNING) && printer.gcode_state
            != GcodeState::RUNNING,
        !(p.gcode_analysis is WaitingForPrinter) ==> !printer.asks_for_analysis(p, print),
        p.gcode_analysis is WaitingForPrinter && print.gcode_state == Some(GcodeState::RUNNING) && printer.gcode_state
            != GcodeState::RUNNING ==> printer.asks_for_analysis(p, print),
{
}

/// A print that receives its analysis has its entries, and charging begins with the first
/// one or goes on where it was. Everything else of the print stays, and it still awaits the
/// same job.
pub proof fn received_analysis_gives_the_entries(p: PrintProject, at: u64, job_number: i32, usage: FilamentUsage)
    ensures
        ({
            let now = p.with_analysis(at, job_number, usage);
            &&& now.entries() == usage.data@
            &&& now.awaited_job() == Some(job_number)
            &&& p.consume_index == -1 ==> now.consume_index == 0
            &&& p.consume_index != -1 ==> now.consume_index == p.consume_index
            &&& now.need_consume == p.need_consume
            &&& now.subtask_name == p.subtask_name
            &&& now.threemf_url == p.threemf_url
            &&& now.gcode_filename_in_3mf == p.gcode_filename_in_3mf
            &&& now.ams_mapping == p.ams_mapping
            &&& now.ams_mapping2 == p.ams_mapping2
            &&& now.use_ams == p.use_ams
            &&& now.total_layer_num == p.total_layer_num
        }),
{
}

} // verus!
