//! A printer and its filament slots, as far as the console decides on them.

use crate::bambu_print::{Fetch3mf, GcodeState, PrintProject};
use crate::grams::Grams;
use crate::net::Ipv4Address;
use vstd::prelude::*;

verus! {

/// What the printer knows of a slot.
#[derive(Clone, Copy, Debug, PartialEq, Eq, Structural)]
pub enum TrayState {
    Unknown,
    Empty,
    Spool,
    Reading,
    Ready,
    Loading,
    Unloading,
    Loaded,
}

/// The filament that the printer believes is in a slot.
#[derive(Debug)]
pub struct FilamentInfo {
    pub tray_info_idx: String,
    pub tray_type: String,
    pub tray_color: String,
}

/// The filament in a slot.
#[derive(Debug)]
pub enum Filament {
    Unknown,
    Known(FilamentInfo),
}

/// What the console keeps beside a slot.
#[derive(Debug)]
pub struct TrayMetaInfo {
    pub spool_id: Option<String>,
    pub used_in_print: bool,
    pub consumed_since_load: Grams,
    pub consumed_since_load_saved: Grams,
    pub consumed_since_weight: Grams,
}

/// A filament slot.
#[derive(Debug)]
pub struct Tray {
    pub state: TrayState,
    pub filament: Filament,
    pub cali_idx: Option<i32>,
    pub meta_info: TrayMetaInfo,
}

impl Tray {
    /// The slot with its mark for the running print set to `used`.
    pub open spec fn marked(self, used: bool) -> Tray {
        Tray { meta_info: TrayMetaInfo { used_in_print: used, ..self.meta_info }, ..self }
    }
}

/// The product line of a printer.
#[derive(Clone, Copy, Debug, PartialEq, Eq, Structural)]
pub enum PrinterModelSeries {
    Unknown,
    X1,
    P1,
    A1,
    H2,
}

/// A pressure advance calibration that the printer holds.
#[derive(Debug)]
pub struct Calibration {
    pub cali_idx: i32,
    pub k_value: String,
    pub name: String,
}

/// Word to an observer that an analysis is called off.
#[derive(Clone, Copy, Debug, PartialEq, Eq, Structural)]
pub struct CancelNotice {
    pub observer: usize,
    pub job_number: i32,
}

/// A printer.
#[derive(Debug)]
pub struct BambuPrinter {
    pub printer_number: usize,
    pub printer_index: usize,
    pub printer_serial: String,
    pub printer_name: String,
    pub printer_selector_name: String,
    pub printer_uuid_to_encode: String,
    pub printer_access_code: String,
    pub printer_ip: Option<Ipv4Address>,
    pub printer_connectivity_ok: Option<bool>,
    pub model_series: PrinterModelSeries,
    pub fetch_3mf: Fetch3mf,
    pub track_print_consume: bool,
    pub calibrations: Vec<Calibration>,
    pub ams_exist_bits: Option<u32>,
    pub ams_trays: Vec<Tray>,
    pub virt_tray: Tray,
    pub gcode_state: GcodeState,
    pub layer_num: i32,
    pub tray_tar: i32,
    pub tray_now: i32,
    pub curr_print_project: Option<PrintProject>,
    /// Who is told of analyses, by the numbers under which they subscribed.
    pub observers: Vec<usize>,
    /// What the observers are still to be told.
    pub notices: Vec<CancelNotice>,
}

impl BambuPrinter {
    /// The slots with their marks for the running print set by `used`, the external
    /// one by `external`.
    pub open spec fn marks_set(self, before: BambuPrinter, used: spec_fn(int) -> bool, external: bool) -> bool {
        &&& self.ams_trays@ =~= Seq::new(
            before.ams_trays@.len(),
            |i: int| before.ams_trays@[i].marked(used(i)),
        )
        &&& self.virt_tray == before.virt_tray.marked(external)
    }

    /// Everything but the slots and the tracked print.
    pub open spec fn same_but_trays_and_project(self, o: BambuPrinter) -> bool {
        &&& self.same_identity(o)
        &&& self.observers == o.observers
        &&& self.notices == o.notices
    }

    /// Everything but the slots, the tracked print and the notices.
    pub open spec fn same_identity(self, o: BambuPrinter) -> bool {
        &&& self.printer_number == o.printer_number
        &&& self.printer_index == o.printer_index
        &&& self.printer_serial == o.printer_serial
        &&& self.printer_name == o.printer_name
        &&& self.printer_selector_name == o.printer_selector_name
        &&& self.printer_uuid_to_encode == o.printer_uuid_to_encode
        &&& self.printer_access_code == o.printer_access_code
        &&& self.printer_ip == o.printer_ip
        &&& self.printer_connectivity_ok == o.printer_connectivity_ok
        &&& self.model_series == o.model_series
        &&& self.fetch_3mf == o.fetch_3mf
        &&& self.track_print_consume == o.track_print_consume
        &&& self.calibrations == o.calibrations
        &&& self.ams_exist_bits == o.ams_exist_bits
        &&& self.gcode_state == o.gcode_state
        &&& self.layer_num == o.layer_num
        &&& self.tray_tar == o.tray_tar
        &&& self.tray_now == o.tray_now
        &&& self.observers == o.observers
    }

    /// Takes the mark for the running print from every slot.
    pub fn clear_used_in_print(&mut self)
        ensures
            final(self).marks_set(*old(self), |i: int| false, false),
            final(self).same_but_trays_and_project(*old(self)),
            final(self).curr_print_project == old(self).curr_print_project,
    {
        let mut i: usize = 0;
        while i < self.ams_trays.len()
            invariant
                i <= self.ams_trays@.len() == old(self).ams_trays@.len(),
                forall|j: int| 0 <= j < i ==> self.ams_trays@[j] == old(self).ams_trays@[j].marked(false),
                forall|j: int| i <= j < self.ams_trays@.len() ==> self.ams_trays@[j] == old(self).ams_trays@[j],
                self.virt_tray == old(self).virt_tray,
                self.same_but_trays_and_project(*old(self)),
                self.curr_print_project == old(self).curr_print_project,
            decreases self.ams_trays@.len() - i,
        {
            self.ams_trays[i].meta_info.used_in_print = false;
            i += 1;
        }
        self.virt_tray.meta_info.used_in_print = false;
    }
}

/// A mark changes nothing else of a slot. Marks are set slot by slot, and the external one
/// has its own.
pub proof fn marks_change_nothing_else(before: BambuPrinter, after: BambuPrinter, used: spec_fn(int) -> bool, external: bool)
    requires
        after.marks_set(before, used, external),
    ensures
        after.ams_trays@.len() == before.ams_trays@.len(),
        after.virt_tray.meta_info.used_in_print == external,
        after.virt_tray.state == before.virt_tray.state,
        after.virt_tray.filament == before.virt_tray.filament,
        after.virt_tray.cali_idx == before.virt_tray.cali_idx,
        after.virt_tray.meta_info.spool_id == before.virt_tray.meta_info.spool_id,
        after.virt_tray.meta_info.consumed_since_load == before.virt_tray.meta_info.consumed_since_load,
        after.virt_tray.meta_info.consumed_since_load_saved == before.virt_tray.meta_info.consumed_since_load_saved,
        after.virt_tray.meta_info.consumed_since_weight == before.virt_tray.meta_info.consumed_since_weight,
        forall|i: int|
            0 <= i < before.ams_trays@.len() ==> {
                let (a, b) = (#[trigger] after.ams_trays@[i], before.ams_trays@[i]);
                &&& a.meta_info.used_in_print == used(i)
                &&& a.state == b.state
                &&& a.filament == b.filament
                &&& a.cali_idx == b.cali_idx
                &&& a.meta_info.spool_id == b.meta_info.spool_id
                &&& a.meta_info.consumed_since_load == b.meta_info.consumed_since_load
                &&& a.meta_info.consumed_since_load_saved == b.meta_info.consumed_since_load_saved
                &&& a.meta_info.consumed_since_weight == b.meta_info.consumed_since_weight
            },
{
}

/// A printer is the same but for its slots, the tracked print and the notices exactly where
/// every other field is.
pub proof fn printer_stays_the_same_in_every_other_field(a: BambuPrinter, b: BambuPrinter)
    ensures
        a.same_identity(b) <==> a == (BambuPrinter {
            ams_trays: a.ams_trays,
            virt_tray: a.virt_tray,
            curr_print_project: a.curr_print_project,
            notices: a.notices,
            ..b
        }),
        a.same_but_trays_and_project(b) <==> a == (BambuPrinter {
            ams_trays: a.ams_trays,
            virt_tray: a.virt_tray,
            curr_print_project: a.curr_print_project,
            ..b
        }),
{
}

} // verus!
