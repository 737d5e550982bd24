//! The decisions behind the display: which printer is shown, what a scanned tag, a
//! weight on the scale or a changed slot leads to, and what is written to the store.

use crate::bambu::{BambuPrinter, Tray, TrayMetaInfo};
use crate::bambu_print::{FilamentUsage, PrintProject};
use crate::filament_info::FilamentLists;
use crate::filament_staging::{
    calibrated_printer, k_info_from_tag, k_info_of, StagingOrigin, TagInformation,
};
use crate::hex_text::{decode, encode_upper, hex_bytes, hex_upper, is_hex};
use crate::net::Ipv4Address;
use crate::spool_record::{FullSpoolRecord, KInfo, SpoolRecord, SpoolRecordExt};
use crate::store::{usable, Store};
use crate::text::{append, chars_of, is_blank, joined, lemma_lists_marked, lists_marked, same_text, text_of};
use crate::text_map::TextMap;
use vstd::prelude::*;

verus! {

/// The printers, and the one that is shown.
#[derive(Debug)]
pub struct SelectedPrinter {
    pub printers: Vec<BambuPrinter>,
    pub index: usize,
}

/// The number and the index of the next printer.
#[derive(Clone, Copy, Debug, PartialEq, Eq, Structural)]
pub struct PrinterPlace {
    /// Counts every configured printer, from one.
    pub printer_number: usize,
    /// Counts the printers that could be set up, from zero.
    pub printer_index: usize,
}

/// The first printer with a serial number, or the number of printers.
pub open spec fn first_with_serial(printers: Seq<BambuPrinter>, serial: Seq<char>) -> int
    decreases printers.len(),
{
    if printers.len() == 0 {
        0
    } else if printers[0].printer_serial@ == serial {
        0
    } else {
        1 + first_with_serial(printers.skip(1), serial)
    }
}

/// The printer that is shown first: the first one with the default serial number, or
/// the first of all.
pub open spec fn default_index(printers: Seq<BambuPrinter>, default_serial: Option<String>) -> int {
    match default_serial {
        Some(serial) => if first_with_serial(printers, serial@) < printers.len() {
            first_with_serial(printers, serial@)
        } else {
            0
        },
        None => 0,
    }
}

proof fn lemma_first_with_serial(printers: Seq<BambuPrinter>, serial: Seq<char>)
    ensures
        0 <= first_with_serial(printers, serial) <= printers.len(),
    decreases printers.len(),
{
    if printers.len() > 0 && printers[0].printer_serial@ != serial {
        lemma_first_with_serial(printers.skip(1), serial);
    }
}

proof fn lemma_first_with_serial_push(printers: Seq<BambuPrinter>, p: BambuPrinter, serial: Seq<char>)
    ensures
        first_with_serial(printers.push(p), serial) == (if first_with_serial(printers, serial) < printers.len() {
            first_with_serial(printers, serial)
        } else if p.printer_serial@ == serial {
            printers.len() as int
        } else {
            printers.len() as int + 1
        }),
    decreases printers.len(),
{
    lemma_first_with_serial(printers, serial);
    reveal_with_fuel(first_with_serial, 2);
    if printers.len() == 0 {
        assert(printers.push(p).skip(1).len() == 0);
    } else if printers[0].printer_serial@ != serial {
        assert(printers.push(p).skip(1) =~= printers.skip(1).push(p));
        lemma_first_with_serial_push(printers.skip(1), p, serial);
    }
}

impl SelectedPrinter {
    /// These printers, of which one is shown.
    pub fn new(printers: Vec<BambuPrinter>, default_index: usize) -> (r: Self)
        ensures
            r.printers == printers,
            r.index == default_index,
    {
        SelectedPrinter { printers, index: default_index }
    }

    /// The printer that is shown.
    pub fn current(&self) -> (r: &BambuPrinter)
        requires
            self.index < self.printers@.len(),
        ensures
            *r == self.printers@[self.index as int],
    {
        &self.printers[self.index]
    }

    /// The place of the next printer, after `tried` printers have been set up or not.
    pub fn next_place(&self, tried: usize) -> (r: PrinterPlace)
        requires
            tried < usize::MAX,
        ensures
            r.printer_number == tried + 1,
            r.printer_index == self.printers@.len(),
    {
        PrinterPlace { printer_number: tried + 1, printer_index: self.printers.len() }
    }

    /// Adds a printer that could be set up. The first one with the default serial number
    /// is the one that is shown.
    pub fn add_printer(&mut self, printer: BambuPrinter, default_serial: &Option<String>)
        requires
            old(self).index == default_index(old(self).printers@, *default_serial),
        ensures
            final(self).printers@ == old(self).printers@.push(printer),
            final(self).index == default_index(final(self).printers@, *default_serial),
            final(self).index < final(self).printers@.len(),
    {
        let ghost before = self.printers@;
        let mut is_default = false;
        if let Some(serial) = default_serial {
            proof {
                lemma_first_with_serial(before, serial@);
                lemma_first_with_serial_push(before, printer, serial@);
            }
            if !self.has_serial(serial) && printer.printer_serial == *serial {
                is_default = true;
            }
        }
        self.printers.push(printer);
        if is_default {
            self.index = self.printers.len() - 1;
        }
    }

    fn has_serial(&self, serial: &String) -> (r: bool)
        ensures
            r == (first_with_serial(self.printers@, serial@) < self.printers@.len()),
    {
        let mut i: usize = 0;
        proof {
            assert(self.printers@.skip(0) =~= self.printers@);
        }
        while i < self.printers.len()
            invariant
                i <= self.printers@.len(),
                first_with_serial(self.printers@, serial@) == i + first_with_serial(
                    self.printers@.skip(i as int),
                    serial@,
                ),
            decreases self.printers@.len() - i,
        {
            proof {
                assert(self.printers@.skip(i as int).skip(1) =~= self.printers@.skip(i + 1));
                assert(self.printers@.skip(i as int)[0] == self.printers@[i as int]);
            }
            if self.printers[i].printer_serial == *serial {
                return true;
            }
            i += 1;
        }
        false
    }

    /// The first printer with a name in the selector, or the number of printers.
    pub open spec fn first_named(printers: Seq<BambuPrinter>, name: Seq<char>) -> int
        decreases printers.len(),
    {
        if printers.len() == 0 {
            0
        } else if printers[0].printer_selector_name@ == name {
            0
        } else {
            1 + Self::first_named(printers.skip(1), name)
        }
    }

    fn find_named(&self, name: &str) -> (r: usize)
        ensures
            r == Self::first_named(self.printers@, name@),
            r <= self.printers@.len(),
    {
        let mut i: usize = 0;
        proof {
            assert(self.printers@.skip(0) =~= self.printers@);
        }
        while i < self.printers.len() && !same_text(self.printers[i].printer_selector_name.as_str(), name)
            invariant
                i <= self.printers@.len(),
                Self::first_named(self.printers@, name@) == i + Self::first_named(
                    self.printers@.skip(i as int),
                    name@,
                ),
            decreases self.printers@.len() - i,
        {
            proof {
                assert(self.printers@.skip(i as int).skip(1) =~= self.printers@.skip(i + 1));
            }
            i += 1;
        }
        i
    }
}

/// What was shown of a printer when another was selected.
#[derive(Clone, Copy, Debug, PartialEq, Eq, Structural)]
pub struct PrinterUiState {
    pub curr_ams: Option<i32>,
}

/// A selection that took place: the printer, and the filament unit that was shown of it
/// before.
#[derive(Clone, Copy, Debug, PartialEq, Eq, Structural)]
pub struct Selection {
    pub index: usize,
    pub restored_ams: Option<i32>,
}

/// The state behind the display.
pub struct ViewModel {
    pub bambu_printer_model: SelectedPrinter,
    pub store: Store,
    pub lists: FilamentLists,
    /// The staged spool, and how it came there.
    pub staged: Option<FullSpoolRecord>,
    pub origin: StagingOrigin,
    pub printers_view_state: TextMap<PrinterUiState>,
    pub recently_added_spool_id: Option<String>,
}

/// A text with a text before and after it.
fn around(before: &str, text: &str, after: &str) -> (r: String)
    ensures
        r@ == before@ + text@ + after@,
{
    let mut chars = chars_of(before);
    let inner = chars_of(text);
    let end = chars_of(after);
    append(&mut chars, inner.as_slice());
    append(&mut chars, end.as_slice());
    text_of(chars.as_slice())
}

/// What encoding a tag asks of the tag reader.
#[derive(Debug)]
pub struct EncodeOrder {
    pub descriptor: String,
    pub uid: Vec<u8>,
    /// The spool and the time, to come back once the tag is written.
    pub id: String,
    pub encode_time: Option<i32>,
}

/// A weight on the scale.
#[derive(Clone, Copy, Debug, PartialEq, Eq, Structural)]
pub enum ScaleWeight {
    Stable(i32),
    Unstable(i32),
    Unknown,
}

/// What a request to store the weight on the scale leads to.
#[derive(Debug)]
pub enum WeightRequest {
    /// Store the weight.
    Store(i32),
    /// Tell the user why not.
    Refuse(String),
}

/// What a tag of the first kind leads to.
#[derive(Debug)]
pub enum V1Read {
    /// The text on the tag is of another kind.
    NotV1,
    /// The tag has no id.
    MissingTagId,
    /// The store knows the spool, which is staged now.
    Known,
    /// The store does not know the tag.
    New,
}

/// What adding a tag of the first kind to the store asks for.
pub enum V1Plan {
    /// The text on the tag is of another kind.
    Unparsable,
    /// The tag has no id.
    MissingTagId,
    /// Update the spool, and put the calibrations into its extended record.
    StoreCalibrations { record: SpoolRecord, calibrations: Option<KInfo> },
    /// Add the spool with this extended record.
    Add { ext: SpoolRecordExt },
    /// Read the extended record of the spool.
    ReadExt { id: String },
}

/// What comes of a tag of the first kind once it has been stored, or could not be.
#[derive(Debug)]
pub enum V1Outcome {
    /// The spool is staged now.
    Staged,
    /// Tell the user.
    Say(String),
}

/// What a tag leads to.
#[derive(Debug)]
pub enum TagRead {
    /// The store knows the spool.
    Known(SpoolRecord),
    /// The store does not know the tag, given in hexadecimal digits.
    New(String),
}

/// What the tag reader reports.
pub enum TagStatus {
    FoundTagNowReading,
    FoundTagNowWriting,
    /// A tag was written; with the spool and the time that came back, where they could be
    /// read.
    WriteSuccess(Option<EncodeCookie>),
    /// A tag was read: its id, and what its text says where it is of the first kind.
    ReadSuccess { uid: Vec<u8>, tag_info: Option<TagInformation> },
    TagWriteFailure(String),
    TagReadFailure,
}

/// The spool and the time of encoding, as they go to the tag reader and come back.
#[derive(Debug)]
pub struct EncodeCookie {
    pub id: String,
    pub encode_time: Option<i32>,
}

/// What a report of the tag reader leads to.
#[derive(Debug)]
pub enum TagStep {
    ShowReading,
    ShowWriting,
    /// The tag was written: store the record, go back to reading and say so.
    Written(Option<SpoolRecord>),
    /// The spool is staged now. Its extended record is to be read where this is still to
    /// be done.
    Staged { spool_id: String, read_ext: bool },
    /// The store does not know the tag, of the first kind.
    OfferV1,
    /// The store does not know the tag, given in hexadecimal digits.
    Offer(String),
    /// Tell the user that writing failed, and why.
    WriteFailed(String),
    /// Tell the user that reading failed, and why.
    ReadFailed(String),
}

/// What putting the staged spool into a slot leads to.
pub enum TrayUpdate {
    /// Nothing is staged.
    Nothing,
    /// The printer is not connected.
    Disconnected,
    /// The nozzle temperatures are not known.
    UnknownTemps,
    /// Tell the printer of this spool, which was staged, with these nozzle temperatures.
    Update { spool: FullSpoolRecord, nozzle_temp_low: i32, nozzle_temp_high: i32 },
}

/// A `TrayUpdate` with its temperatures as numbers.
pub ghost enum TrayUpdateView {
    Nothing,
    Disconnected,
    UnknownTemps,
    Update { spool: FullSpoolRecord, nozzle_temp_low: int, nozzle_temp_high: int },
}

/// A `TrayUpdate` with its temperatures as numbers.
pub open spec fn tray_update_of(r: TrayUpdate) -> TrayUpdateView {
    match r {
        TrayUpdate::Nothing => TrayUpdateView::Nothing,
        TrayUpdate::Disconnected => TrayUpdateView::Disconnected,
        TrayUpdate::UnknownTemps => TrayUpdateView::UnknownTemps,
        TrayUpdate::Update { spool, nozzle_temp_low, nozzle_temp_high } => TrayUpdateView::Update {
            spool,
            nozzle_temp_low: nozzle_temp_low as int,
            nozzle_temp_high: nozzle_temp_high as int,
        },
    }
}

/// The record of a spool that was weighed; an unused one is full and new.
pub open spec fn weighed(record: SpoolRecord, weight: i32, unused: bool) -> SpoolRecord {
    SpoolRecord {
        weight_current: Some(weight),
        weight_new: if unused {
            Some(weight)
        } else {
            record.weight_new
        },
        added_full: if unused {
            Some(true)
        } else {
            record.added_full
        },
        ..record
    }
}

/// The bits of the slots as a printer reports them.
#[derive(Clone, Copy, Debug, PartialEq, Eq, Structural)]
pub struct TrayBits {
    pub tray_exist_bits: Option<u32>,
    pub tray_read_done_bits: Option<u32>,
}

/// What a change of the slots leads to, for the staged spool.
#[derive(Clone, Copy, Debug, PartialEq, Eq, Structural)]
pub struct TraysStep {
    /// A single slot was loaded: the time for the staged spool starts anew.
    pub spool_loaded: bool,
    /// A single slot was read: the staged spool goes there.
    pub stage_to: Option<usize>,
}

/// A bit was not set and is now.
pub open spec fn newly_set(before: u32, after: u32, i: int) -> bool {
    (before >> (i as u32)) & 1 == 0 && (after >> (i as u32)) & 1 != 0
}

/// The bits among the first `n` that were not set and are now.
pub open spec fn newly_set_bits(before: u32, after: u32, n: int) -> Seq<usize>
    decreases n,
{
    if n <= 0 {
        seq![]
    } else if newly_set(before, after, n - 1) {
        newly_set_bits(before, after, n - 1).push((n - 1) as usize)
    } else {
        newly_set_bits(before, after, n - 1)
    }
}

/// The only bit that was not set and is now.
pub open spec fn only_newly_set(before: Option<u32>, after: Option<u32>, n: int) -> Option<usize> {
    match after {
        None => None,
        Some(after) => {
            let before = match before {
                Some(b) => b,
                None => 0u32,
            };
            let bits = newly_set_bits(before, after, n);
            if bits.len() == 1 {
                Some(bits[0])
            } else {
                None
            }
        },
    }
}

/// What a change of the slots leads to, for a spool that came into the staging area like
/// this.
pub open spec fn trays_step(origin: StagingOrigin, trays: int, before: TrayBits, after: TrayBits) -> TraysStep {
    match origin {
        StagingOrigin::Scanned | StagingOrigin::Encoded => TraysStep {
            spool_loaded: only_newly_set(before.tray_exist_bits, after.tray_exist_bits, trays) is Some,
            stage_to: only_newly_set(before.tray_read_done_bits, after.tray_read_done_bits, trays),
        },
        StagingOrigin::Empty | StagingOrigin::Unloaded => TraysStep { spool_loaded: false, stage_to: None },
    }
}

fn single_new_bit(before: Option<u32>, after: Option<u32>, n: usize) -> (r: Option<usize>)
    requires
        n <= 32,
    ensures
        r == only_newly_set(before, after, n as int),
{
    match after {
        None => None,
        Some(after) => {
            let before: u32 = match before {
                Some(b) => b,
                None => 0,
            };
            let mut bits: Vec<usize> = Vec::new();
            let mut i: usize = 0;
            while i < n
                invariant
                    i <= n <= 32,
                    bits@ == newly_set_bits(before, after, i as int),
                decreases n - i,
            {
                let k = i as u32;
                let was = (before >> k) & 1 != 0;
                let is = (after >> k) & 1 != 0;
                if !was && is {
                    bits.push(i);
                }
                i += 1;
            }
            if bits.len() == 1 {
                Some(bits[0])
            } else {
                None
            }
        },
    }
}

impl ViewModel {
    /// The store and the remembered views are well formed.
    pub open spec fn wf(self) -> bool {
        self.store.wf() && self.printers_view_state.wf()
    }

    /// Nothing configured, nothing staged.
    pub fn new(lists: FilamentLists) -> (r: ViewModel)
        ensures
            r.wf(),
            r.bambu_printer_model.printers@.len() == 0,
            r.bambu_printer_model.index == 0,
            r.store.spools_db is None,
            r.store.last_spool_id == 0,
            r.store.tag_id_index@ == Map::<Seq<char>, String>::empty(),
            !r.store.initialized,
            r.store.consistent(),
            r.lists == lists,
            r.staged is None,
            r.origin == StagingOrigin::Empty,
            r.staging_agrees(),
            r.printers_view_state@ == Map::<Seq<char>, PrinterUiState>::empty(),
            r.recently_added_spool_id is None,
    {
        ViewModel {
            bambu_printer_model: SelectedPrinter::new(Vec::new(), 0),
            store: Store::new(),
            lists,
            staged: None,
            origin: StagingOrigin::Empty,
            printers_view_state: TextMap::new(),
            recently_added_spool_id: None,
        }
    }

    /// The state with a spool staged of which only the record is known yet.
    pub open spec fn staging(self, spool_rec: SpoolRecord, origin: StagingOrigin) -> ViewModel {
        ViewModel {
            staged: Some(
                FullSpoolRecord { spool_rec, spool_rec_ext: SpoolRecordExt { tag: None, k_info: None } },
            ),
            origin,
            ..self
        }
    }

    /// The state with another extended record of the staged spool, where there is one.
    pub open spec fn with_staged_ext(self, spool_rec_ext: SpoolRecordExt) -> ViewModel {
        match self.staged {
            Some(full) => ViewModel { staged: Some(FullSpoolRecord { spool_rec_ext, ..full }), ..self },
            None => self,
        }
    }

    /// The state with another record of the staged spool, where there is one.
    pub open spec fn with_staged_rec(self, spool_rec: SpoolRecord) -> ViewModel {
        match self.staged {
            Some(full) => ViewModel { staged: Some(FullSpoolRecord { spool_rec, ..full }), ..self },
            None => self,
        }
    }

    /// The state with nothing staged.
    pub open spec fn nothing_staged(self) -> ViewModel {
        ViewModel { staged: None, origin: StagingOrigin::Empty, ..self }
    }

    /// Something is staged exactly where it came there somehow.
    pub open spec fn staging_agrees(self) -> bool {
        self.staged is None <==> self.origin == StagingOrigin::Empty
    }

    /// Stages a spool. Nothing is known of its extended record yet.
    pub fn stage(&mut self, spool_rec: SpoolRecord, origin: StagingOrigin)
        ensures
            *final(self) == old(self).staging(spool_rec, origin),
    {
        self.staged = Some(FullSpoolRecord { spool_rec, spool_rec_ext: SpoolRecordExt { tag: None, k_info: None } });
        self.origin = origin;
    }

    /// Takes the extended record of the staged spool.
    pub fn set_staged_ext(&mut self, spool_rec_ext: SpoolRecordExt)
        ensures
            *final(self) == old(self).with_staged_ext(spool_rec_ext),
    {
        if let Some(full) = &mut self.staged {
            full.spool_rec_ext = spool_rec_ext;
        }
    }

    /// Takes another record of the staged spool, and keeps the rest.
    pub fn set_staged_rec(&mut self, spool_rec: SpoolRecord)
        ensures
            *final(self) == old(self).with_staged_rec(spool_rec),
    {
        if let Some(full) = &mut self.staged {
            full.spool_rec = spool_rec;
        }
    }

    /// Empties the staging area.
    pub fn clear_staging(&mut self)
        ensures
            *final(self) == old(self).nothing_staged(),
    {
        self.staged = None;
        self.origin = StagingOrigin::Empty;
    }

    /// Selects the printer with a name in the selector. What is shown of the current one
    /// is remembered in any case.
    pub fn perform_select_printer(&mut self, current: &str, shown_ams: i32, selected: &str) -> (r: Option<Selection>)
        requires
            old(self).wf(),
        ensures
            final(self).wf(),
            final(self).bambu_printer_model.printers == old(self).bambu_printer_model.printers,
            final(self).store == old(self).store,
            final(self).lists == old(self).lists,
            final(self).staged == old(self).staged,
            final(self).origin == old(self).origin,
            final(self).recently_added_spool_id == old(self).recently_added_spool_id,
            final(self).printers_view_state@ == old(self).printers_view_state@.insert(
                current@,
                PrinterUiState { curr_ams: Some(shown_ams) },
            ),
            ({
                let printers = old(self).bambu_printer_model.printers@;
                let i = SelectedPrinter::first_named(printers, selected@);
                let views = final(self).printers_view_state@;
                if i < printers.len() {
                    &&& final(self).bambu_printer_model.index == i
                    &&& r == Some(
                        Selection {
                            index: i as usize,
                            restored_ams: if views.contains_key(selected@) {
                                views[selected@].curr_ams
                            } else {
                                None
                            },
                        },
                    )
                } else {
                    &&& final(self).bambu_printer_model.index == old(self).bambu_printer_model.index
                    &&& r is None
                }
            }),
    {
        self.printers_view_state.insert(current.to_string(), PrinterUiState { curr_ams: Some(shown_ams) });
        let index = self.bambu_printer_model.find_named(selected);
        if index < self.bambu_printer_model.printers.len() {
            self.bambu_printer_model.index = index;
            let restored_ams = match self.printers_view_state.get(selected) {
                Some(state) => state.curr_ams,
                None => None,
            };
            Some(Selection { index, restored_ams })
        } else {
            None
        }
    }

    /// The spool that was added last, as long as it has no tag; else an empty text.
    pub fn recently_added_spool_id_if_untagged(&self) -> (r: String)
        requires
            self.wf(),
        ensures
            ({
                let id = self.recently_added_spool_id;
                r@ == (if id is Some && self.store.rec(id->0@) is Some && self.store.rec(id->0@)->0.tag_id@.len() == 0 {
                    id->0@
                } else {
                    Seq::empty()
                })
            }),
    {
        if let Some(id) = &self.recently_added_spool_id {
            if let Some(record) = self.store.get_spool_by_id(id.as_str()) {
                if is_blank(record.tag_id.as_str()) {
                    return id.clone();
                }
            }
        }
        let none = String::new();
        proof {
            assert(none@ =~= Seq::empty());
        }
        none
    }

    /// The record that is to be encoded on a tag: that of the staged spool as the store
    /// has it now, with the time of encoding. Else why there is none.
    pub fn record_to_encode(&self, now: Option<i32>) -> (r: Result<SpoolRecord, String>)
        requires
            self.wf(),
        ensures
            self.staged is None ==> r is Err && r->Err_0@ == "Staging is Empty"@,
            self.staged is Some ==> {
                let id = self.staged->0.spool_rec.id@;
                match self.store.rec(id) {
                    None => r is Err && r->Err_0@ == "Spool "@ + id + " not Found"@,
                    Some(record) => r == Ok::<SpoolRecord, String>(SpoolRecord { encode_time: now, ..record }),
                }
            },
    {
        match &self.staged {
            None => Err("Staging is Empty".to_string()),
            Some(full) => match self.store.get_spool_by_id(full.spool_rec.id.as_str()) {
                None => Err(around("Spool ", full.spool_rec.id.as_str(), " not Found")),
                Some(mut record) => {
                    record.encode_time = now;
                    Ok(record)
                },
            },
        }
    }

    /// The order to encode a tag. `descriptor` is what is to be written on it.
    pub fn encode_order(record: SpoolRecord, descriptor: Option<String>) -> (r: Result<EncodeOrder, String>)
        ensures
            descriptor is None ==> r is Err && r->Err_0@ == "Failed to Create Tag Descriptor"@,
            descriptor is Some && !is_hex(record.tag_id@) ==> r is Err && r->Err_0@ == "Spool Tag Id isn't valid"@,
            descriptor is Some && is_hex(record.tag_id@) ==> {
                &&& r is Ok
                &&& r->Ok_0.descriptor == descriptor->0
                &&& r->Ok_0.uid@ == hex_bytes(record.tag_id@)
                &&& r->Ok_0.id == record.id
                &&& r->Ok_0.encode_time == record.encode_time
            },
    {
        match descriptor {
            None => Err("Failed to Create Tag Descriptor".to_string()),
            Some(descriptor) => match decode(record.tag_id.as_str()) {
                None => Err("Spool Tag Id isn't valid".to_string()),
                Some(uid) => Ok(EncodeOrder { descriptor, uid, id: record.id, encode_time: record.encode_time }),
            },
        }
    }

    /// The record that is to be stored once a tag was written: that of the spool, with
    /// the time of encoding.
    pub fn tag_written(&self, id: &str, encode_time: Option<i32>) -> (r: Option<SpoolRecord>)
        requires
            self.wf(),
        ensures
            r == (match self.store.rec(id@) {
                Some(record) => Some(SpoolRecord { encode_time, ..record }),
                None => None,
            }),
    {
        match self.store.get_spool_by_id(id) {
            Some(mut record) => {
                record.encode_time = encode_time;
                Some(record)
            },
            None => None,
        }
    }

    /// What a tag that was read leads to, where its text is not of the first kind.
    pub fn tag_read(&self, uid: &[u8]) -> (r: TagRead)
        requires
            self.wf(),
        ensures
            match self.store.owner(hex_upper(uid@)) {
                Some(record) => r == TagRead::Known(record),
                None => r matches TagRead::New(tag) && tag@ == hex_upper(uid@),
            },
    {
        let hex = encode_upper(uid);
        match self.store.get_spool_by_hex_tag(hex.as_str()) {
            Some(record) => TagRead::Known(record),
            None => TagRead::New(hex),
        }
    }

    /// Why a spool cannot be linked to a tag; an empty text where it can.
    pub fn ui_can_link_spool_to_tag(&self, id: &str) -> (r: String)
        requires
            self.wf(),
        ensures
            match self.store.rec(id@) {
                None => r@ == "Spool Not Found"@,
                Some(record) => if usable(record.tag_id@) {
                    r@ == "Spool Is Tagged"@
                } else {
                    r@.len() == 0
                },
            },
    {
        match self.store.get_spool_by_id(id) {
            None => "Spool Not Found".to_string(),
            Some(record) => {
                let tag = chars_of(record.tag_id.as_str());
                if tag.len() == 0 || tag[0] == '-' {
                    String::new()
                } else {
                    "Spool Is Tagged".to_string()
                }
            },
        }
    }

    /// What putting the staged spool into a slot of a printer leads to.
    pub open spec fn tray_update(self, printer_connectivity_ok: Option<bool>) -> TrayUpdateView {
        match (printer_connectivity_ok, self.staged) {
            (Some(true), None) => TrayUpdateView::Nothing,
            (Some(true), Some(full)) => match self.lists.lookup(
                full.spool_rec.slicer_filament@,
                Some(full.spool_rec.material_type@),
            ) {
                Some(found) => TrayUpdateView::Update {
                    spool: full,
                    nozzle_temp_low: found.entry.low,
                    nozzle_temp_high: found.entry.high,
                },
                None => TrayUpdateView::UnknownTemps,
            },
            _ => TrayUpdateView::Disconnected,
        }
    }

    /// What putting the staged spool into a slot of a printer leads to. A spool of which
    /// the printer is to be told is no longer staged.
    pub fn set_staging_to_tray(&mut self, printer_connectivity_ok: Option<bool>) -> (r: TrayUpdate)
        ensures
            ({
                let before = *old(self);
                let unchanged = *final(self) == before;
                if printer_connectivity_ok != Some(true) {
                    r is Disconnected && unchanged
                } else {
                    match before.staged {
                        None => r is Nothing && unchanged,
                        Some(full) => match before.lists.lookup(
                            full.spool_rec.slicer_filament@,
                            Some(full.spool_rec.material_type@),
                        ) {
                            Some(found) => {
                                &&& r == (TrayUpdate::Update {
                                    spool: full,
                                    nozzle_temp_low: found.entry.low as i32,
                                    nozzle_temp_high: found.entry.high as i32,
                                })
                                &&& *final(self) == before.nothing_staged()
                            },
                            None => r is UnknownTemps && unchanged,
                        },
                    }
                }
            }),
            tray_update_of(r) == old(self).tray_update(printer_connectivity_ok),
    {
        let connected = match printer_connectivity_ok {
            Some(ok) => ok,
            None => false,
        };
        if !connected {
            return TrayUpdate::Disconnected;
        }
        let info = match &self.staged {
            None => {
                return TrayUpdate::Nothing;
            },
            Some(full) => self.lists.get_filament_info(
                full.spool_rec.slicer_filament.as_str(),
                Some(full.spool_rec.material_type.as_str()),
            ),
        };
        match info {
            None => TrayUpdate::UnknownTemps,
            Some(info) => {
                let staged = self.staged.take();
                self.clear_staging();
                match staged {
                    Some(spool) => TrayUpdate::Update {
                        spool,
                        nozzle_temp_low: info.nozzle_temp_low,
                        nozzle_temp_high: info.nozzle_temp_high,
                    },
                    None => TrayUpdate::Nothing,
                }
            },
        }
    }

    /// The id of a filament unit on the display: what is none of the first four is shown
    /// where the external spool is.
    pub fn ams_if_for_ui(ams_id: usize) -> (r: i32)
        requires
            ams_id <= 3 || ams_id > 11,
        ensures
            r == (if ams_id <= 3 {
                ams_id as int
            } else {
                254
            }),
    {
        if ams_id <= 3 {
            ams_id as i32
        } else {
            254
        }
    }

    /// What a change of the slots leads to: only a spool that was scanned or encoded is
    /// put into a slot, and only into one that was loaded alone.
    pub fn on_trays_update(&self, trays: usize, before: &TrayBits, after: &TrayBits) -> (r: TraysStep)
        requires
            trays <= 32,
        ensures
            ({
                let staged = self.origin == StagingOrigin::Scanned || self.origin == StagingOrigin::Encoded;
                &&& r.spool_loaded == (staged && only_newly_set(
                    before.tray_exist_bits,
                    after.tray_exist_bits,
                    trays as int,
                ) is Some)
                &&& r.stage_to == (if staged {
                    only_newly_set(before.tray_read_done_bits, after.tray_read_done_bits, trays as int)
                } else {
                    None
                })
            }),
            r == trays_step(self.origin, trays as int, *before, *after),
    {
        if self.origin == StagingOrigin::Unloaded || self.origin == StagingOrigin::Empty {
            return TraysStep { spool_loaded: false, stage_to: None };
        }
        let loaded = single_new_bit(before.tray_exist_bits, after.tray_exist_bits, trays);
        let stage_to = single_new_bit(before.tray_read_done_bits, after.tray_read_done_bits, trays);
        TraysStep { spool_loaded: loaded.is_some(), stage_to }
    }

    /// Stages the spool that was taken from a slot, unless one is staged that was scanned
    /// or encoded. Says whether it did.
    pub fn stage_unloaded(&mut self, removed: &str) -> (staged: bool)
        requires
            old(self).wf(),
        ensures
            ({
                let free = old(self).origin == StagingOrigin::Empty || old(self).origin == StagingOrigin::Unloaded;
                match old(self).store.rec(removed@) {
                    Some(record) => if free {
                        staged && *final(self) == old(self).staging(record, StagingOrigin::Unloaded)
                    } else {
                        !staged && *final(self) == *old(self)
                    },
                    None => !staged && *final(self) == *old(self),
                }
            }),
    {
        if self.origin != StagingOrigin::Empty && self.origin != StagingOrigin::Unloaded {
            return false;
        }
        match self.store.get_spool_by_id(removed) {
            Some(record) => {
                self.stage(record, StagingOrigin::Unloaded);
                true
            },
            None => false,
        }
    }

    /// The weight that is to be stored for the staged spool: what is on the scale, once it
    /// is stable.
    pub open spec fn weight_to_store(self, scale_weight: ScaleWeight) -> Option<i32> {
        match scale_weight {
            ScaleWeight::Stable(weight) => if self.staged is Some && weight != 0 {
                Some(weight)
            } else {
                None
            },
            _ => None,
        }
    }

    /// What a request to store the weight on the scale leads to.
    pub fn update_spool_weight(&self, scale_weight: ScaleWeight) -> (r: WeightRequest)
        ensures
            self.staged is None ==> (r matches WeightRequest::Refuse(text) && text@
                == "No Spool Tag in Staging\n\nCan't Update Spool Weight"@),
            self.staged is Some ==> match scale_weight {
                ScaleWeight::Stable(weight) => if weight == 0 {
                    r matches WeightRequest::Refuse(text) && text@
                        == "No Weight on Scale\n\nCan't Update Spool Weight"@
                } else {
                    r == WeightRequest::Store(weight)
                },
                ScaleWeight::Unstable(_) => r matches WeightRequest::Refuse(text) && text@
                    == "Weight on Scale Not Stable\n\nCan't Update Spool Weight"@,
                ScaleWeight::Unknown => r matches WeightRequest::Refuse(text) && text@
                    == "Internal Software Error\n\nCan't Update Spool Weight"@,
            },
            self.weight_to_store(scale_weight) == (match r {
                WeightRequest::Store(weight) => Some(weight),
                WeightRequest::Refuse(_) => None,
            }),
    {
        if self.staged.is_none() {
            return WeightRequest::Refuse("No Spool Tag in Staging\n\nCan't Update Spool Weight".to_string());
        }
        match scale_weight {
            ScaleWeight::Stable(weight) => {
                if weight == 0 {
                    WeightRequest::Refuse("No Weight on Scale\n\nCan't Update Spool Weight".to_string())
                } else {
                    WeightRequest::Store(weight)
                }
            },
            ScaleWeight::Unstable(_) => WeightRequest::Refuse(
                "Weight on Scale Not Stable\n\nCan't Update Spool Weight".to_string(),
            ),
            ScaleWeight::Unknown => WeightRequest::Refuse(
                "Internal Software Error\n\nCan't Update Spool Weight".to_string(),
            ),
        }
    }

    /// What the button on the scale is answered at once: nothing while the weight is
    /// being stored, else that it was not.
    pub fn weight_reply(request: &WeightRequest, dispatched: bool) -> (r: Option<bool>)
        ensures
            r == (match request {
                WeightRequest::Store(_) => if dispatched {
                    None
                } else {
                    Some(false)
                },
                WeightRequest::Refuse(_) => Some(false),
            }),
    {
        match request {
            WeightRequest::Store(_) => {
                if dispatched {
                    None
                } else {
                    Some(false)
                }
            },
            WeightRequest::Refuse(_) => Some(false),
        }
    }

    /// The record that is to be stored for a weight on the scale.
    pub fn update_spool_weight_async(&self, weight: i32) -> (r: Option<SpoolRecord>)
        ensures
            r == (match self.staged {
                Some(full) => Some(SpoolRecord { weight_current: Some(weight), ..full.spool_rec }),
                None => None,
            }),
            self.staged is Some ==> r == Some(weighed(self.staged->0.spool_rec, weight, false)),
    {
        match &self.staged {
            Some(full) => {
                let mut record = full.spool_rec.clone();
                record.weight_current = Some(weight);
                Some(record)
            },
            None => None,
        }
    }

    /// What is said once a weight was stored, or could not be.
    pub fn weight_stored_text(id: &str, error: Option<&str>) -> (r: String)
        ensures
            match error {
                None => r@ == "Updated Filament Weight\n\nFor Spool "@ + id@,
                Some(e) => r@ == "Failed to Update Filament Weight/Tag\n\n"@ + e@,
            },
    {
        match error {
            None => joined("Updated Filament Weight\n\nFor Spool ", id),
            Some(e) => joined("Failed to Update Filament Weight/Tag\n\n", e),
        }
    }

    /// What a tag leads to whose text is of the first kind, or is not. The spool is staged
    /// where the store knows it.
    pub fn process_v1_tag_read(&mut self, tag_info: Option<&TagInformation>) -> (r: V1Read)
        requires
            old(self).wf(),
        ensures
            match tag_info {
                None => r is NotV1 && *final(self) == *old(self),
                Some(info) => match info.tag_id {
                    None => r is MissingTagId && *final(self) == *old(self),
                    Some(tag_id) => match old(self).store.owner(hex_upper(tag_id@)) {
                        Some(record) => r is Known && *final(self) == old(self).staging(
                            record,
                            StagingOrigin::Scanned,
                        ),
                        None => r is New && *final(self) == *old(self),
                    },
                },
            },
    {
        match tag_info {
            None => V1Read::NotV1,
            Some(info) => match &info.tag_id {
                None => V1Read::MissingTagId,
                Some(tag_id) => match self.store.get_spool_by_tag_id(tag_id.as_slice()) {
                    Some(record) => {
                        self.stage(record, StagingOrigin::Scanned);
                        V1Read::Known
                    },
                    None => V1Read::New,
                },
            },
        }
    }

    /// The spool of a tag that was read: that of the id in a text of the first kind, which
    /// goes before the id of the tag itself.
    pub open spec fn read_spool(self, uid: Seq<u8>, tag_info: Option<TagInformation>) -> Option<SpoolRecord> {
        match tag_info {
            Some(info) => match info.tag_id {
                Some(tag_id) => self.store.owner(hex_upper(tag_id@)),
                None => None,
            },
            None => self.store.owner(hex_upper(uid)),
        }
    }

    /// What a report of the tag reader leads to. The spool of a tag that was read is
    /// staged where the store knows it; nothing else changes.
    pub fn on_tag_status(&mut self, status: TagStatus) -> (r: TagStep)
        requires
            old(self).wf(),
        ensures
            match status {
                TagStatus::FoundTagNowReading => r is ShowReading,
                TagStatus::FoundTagNowWriting => r is ShowWriting,
                TagStatus::WriteSuccess(cookie) => r == TagStep::Written(
                    match cookie {
                        Some(c) => match old(self).store.rec(c.id@) {
                            Some(record) => Some(SpoolRecord { encode_time: c.encode_time, ..record }),
                            None => None,
                        },
                        None => None,
                    },
                ),
                TagStatus::ReadSuccess { uid, tag_info } => match old(self).read_spool(uid@, tag_info) {
                    Some(record) => {
                        &&& r matches TagStep::Staged { spool_id, read_ext }
                        &&& spool_id@ == record.id@
                        &&& read_ext == (tag_info is None)
                    },
                    None => match tag_info {
                        Some(info) => if info.tag_id is Some {
                            r is OfferV1
                        } else {
                            r matches TagStep::ReadFailed(text) && text@ == "V1 Tag Missing Tag-ID"@
                        },
                        None => r matches TagStep::Offer(tag) && tag@ == hex_upper(uid@),
                    },
                },
                TagStatus::TagWriteFailure(text) => r == TagStep::WriteFailed(text),
                TagStatus::TagReadFailure => r matches TagStep::ReadFailed(text) && text@
                    == "Error: Failed to Scan Tag"@,
            },
            match status {
                TagStatus::ReadSuccess { uid, tag_info } => match old(self).read_spool(uid@, tag_info) {
                    Some(record) => *final(self) == old(self).staging(record, StagingOrigin::Scanned),
                    None => *final(self) == *old(self),
                },
                _ => *final(self) == *old(self),
            },
    {
        match status {
            TagStatus::FoundTagNowReading => TagStep::ShowReading,
            TagStatus::FoundTagNowWriting => TagStep::ShowWriting,
            TagStatus::WriteSuccess(cookie) => TagStep::Written(
                match cookie {
                    Some(c) => self.tag_written(c.id.as_str(), c.encode_time),
                    None => None,
                },
            ),
            TagStatus::ReadSuccess { uid, tag_info } => match self.process_v1_tag_read(tag_info.as_ref()) {
                V1Read::MissingTagId => TagStep::ReadFailed("V1 Tag Missing Tag-ID".to_string()),
                V1Read::Known => TagStep::Staged { spool_id: self.staged_id(), read_ext: false },
                V1Read::New => TagStep::OfferV1,
                V1Read::NotV1 => match self.tag_read(uid.as_slice()) {
                    TagRead::Known(record) => {
                        self.stage(record, StagingOrigin::Scanned);
                        TagStep::Staged { spool_id: self.staged_id(), read_ext: true }
                    },
                    TagRead::New(tag) => TagStep::Offer(tag),
                },
            },
            TagStatus::TagWriteFailure(text) => TagStep::WriteFailed(text),
            TagStatus::TagReadFailure => TagStep::ReadFailed("Error: Failed to Scan Tag".to_string()),
        }
    }

    fn staged_id(&self) -> (r: String)
        ensures
            self.staged is Some ==> r@ == self.staged->0.spool_rec.id@,
    {
        match &self.staged {
            Some(full) => full.spool_rec.id.clone(),
            None => String::new(),
        }
    }

    /// The calibrations on an old tag, for the printer that they are for.
    pub fn get_k_info_from_old_tag(&self, tag_with_k: &TagInformation) -> (r: Option<KInfo>)
        requires
            tag_with_k.calibrations.wf(),
        ensures
            r is Some <==> tag_with_k.calibrations.order().len() > 0 && calibrated_printer(
                self.bambu_printer_model.printers@,
                *tag_with_k,
            ) is Some,
            r is Some ==> k_info_of(self.bambu_printer_model.printers@, *tag_with_k, r->0),
    {
        k_info_from_tag(&self.bambu_printer_model.printers, tag_with_k)
    }

    /// What adding a tag of the first kind to the store asks for. A spool that the store
    /// does not know is added; one that it knows without calibrations gets those on the
    /// tag; of any other the extended record is read.
    pub fn process_v1_tag_read_async(&self, tag: &str, tag_info: Option<&TagInformation>) -> (r: V1Plan)
        requires
            self.wf(),
            tag_info is Some ==> tag_info->0.calibrations.wf(),
        ensures
            match tag_info {
                None => r is Unparsable,
                Some(info) => match info.tag_id {
                    None => r is MissingTagId,
                    Some(tag_id) => {
                        let calibrated = info.calibrations.order().len() > 0;
                        let kept = calibrated && calibrated_printer(
                            self.bambu_printer_model.printers@,
                            *info,
                        ) is Some;
                        match self.store.owner(hex_upper(tag_id@)) {
                            None => {
                                &&& r matches V1Plan::Add { ext }
                                &&& ext.tag is Some
                                &&& ext.tag->0@ == tag@
                                &&& ext.k_info is Some <==> kept
                                &&& kept ==> k_info_of(
                                    self.bambu_printer_model.printers@,
                                    *info,
                                    ext.k_info->0,
                                )
                            },
                            Some(record) => if calibrated && !record.ext_has_k {
                                &&& r matches V1Plan::StoreCalibrations { record: changed, calibrations }
                                &&& changed == (SpoolRecord { ext_has_k: true, ..record })
                                &&& calibrations is Some <==> kept
                                &&& kept ==> k_info_of(
                                    self.bambu_printer_model.printers@,
                                    *info,
                                    calibrations->0,
                                )
                            } else {
                                r matches V1Plan::ReadExt { id } && id == record.id
                            },
                        }
                    },
                },
            },
    {
        match tag_info {
            None => V1Plan::Unparsable,
            Some(info) => match &info.tag_id {
                None => V1Plan::MissingTagId,
                Some(tag_id) => {
                    let known = self.store.get_spool_by_tag_id(tag_id.as_slice());
                    let has_calibrations = info.calibrations.len() > 0;
                    let needs_k = has_calibrations && match &known {
                        Some(record) => !record.ext_has_k,
                        None => true,
                    };
                    let k_info = if needs_k {
                        self.get_k_info_from_old_tag(info)
                    } else {
                        None
                    };
                    match known {
                        None => V1Plan::Add { ext: SpoolRecordExt { tag: Some(tag.to_string()), k_info } },
                        Some(mut record) => {
                            if needs_k {
                                record.ext_has_k = true;
                                V1Plan::StoreCalibrations { record, calibrations: k_info }
                            } else {
                                V1Plan::ReadExt { id: record.id }
                            }
                        },
                    }
                },
            },
        }
    }

    /// Why nothing is stored of a tag, where the plan says so.
    pub fn v1_refusal(plan: &V1Plan) -> (r: Option<String>)
        ensures
            match plan {
                V1Plan::Unparsable => r is Some && r->0@ == "Cant parse tag descriptor"@,
                V1Plan::MissingTagId => r is Some && r->0@ == "Tag is missing tag id"@,
                _ => r is None,
            },
    {
        match plan {
            V1Plan::Unparsable => Some("Cant parse tag descriptor".to_string()),
            V1Plan::MissingTagId => Some("Tag is missing tag id".to_string()),
            _ => None,
        }
    }

    /// What comes of a tag of the first kind: the spool is staged as the store has it now,
    /// with its extended record where that is known.
    pub fn v1_stored(&mut self, stored: Result<(), String>, spool_id: &str, ext: Option<SpoolRecordExt>) -> (r: V1Outcome)
        requires
            old(self).wf(),
        ensures
            match stored {
                Err(e) => {
                    &&& r matches V1Outcome::Say(text)
                    &&& text@ == "Failed to store information from tag\n"@ + e@
                    &&& *final(self) == *old(self)
                },
                Ok(()) => match old(self).store.rec(spool_id@) {
                    Some(record) => {
                        let staged = old(self).staging(record, StagingOrigin::Scanned);
                        &&& r is Staged
                        &&& *final(self) == (match ext {
                            Some(ext) => staged.with_staged_ext(ext),
                            None => staged,
                        })
                    },
                    None => {
                        &&& r matches V1Outcome::Say(text)
                        &&& text@ == "Failed to get spool after storing it"@
                        &&& *final(self) == *old(self)
                    },
                },
            },
    {
        match stored {
            Err(e) => V1Outcome::Say(joined("Failed to store information from tag\n", e.as_str())),
            Ok(()) => match self.store.get_spool_by_id(spool_id) {
                Some(record) => {
                    self.stage(record, StagingOrigin::Scanned);
                    if let Some(ext) = ext {
                        self.set_staged_ext(ext);
                    }
                    V1Outcome::Staged
                },
                None => V1Outcome::Say("Failed to get spool after storing it".to_string()),
            },
        }
    }

    /// What comes of linking a spool to a tag, once its record was stored or could not be:
    /// the spool is staged and nothing is said, or the user is told.
    pub fn tag_linked(&mut self, spool_rec: SpoolRecord, spool_id: &str, error: Option<&str>) -> (r: String)
        ensures
            match error {
                None => r@.len() == 0 && *final(self) == old(self).staging(spool_rec, StagingOrigin::Scanned),
                Some(e) => {
                    &&& r@ == "Failed to link tag to spool "@ + (spool_id@ + ": "@ + e@)
                    &&& *final(self) == *old(self)
                },
            },
    {
        match error {
            None => {
                self.stage(spool_rec, StagingOrigin::Scanned);
                String::new()
            },
            Some(e) => {
                let what = around(spool_id, ": ", e);
                joined("Failed to link tag to spool ", what.as_str())
            },
        }
    }

    /// The record that links a spool to a tag.
    pub fn link_tag_to_spool_id(&self, tag_id: String, spool_id: &str) -> (r: Option<SpoolRecord>)
        requires
            self.wf(),
        ensures
            r == (match self.store.rec(spool_id@) {
                Some(record) => Some(SpoolRecord { tag_id, ..record }),
                None => None,
            }),
    {
        match self.store.get_spool_by_id(spool_id) {
            Some(mut record) => {
                record.tag_id = tag_id;
                Some(record)
            },
            None => None,
        }
    }

    /// The record with the weight of a spool; an unused one is full and new.
    pub fn set_spool_weight(&self, spool_id: &str, weight: i32, unused: bool) -> (r: Option<SpoolRecord>)
        requires
            self.wf(),
        ensures
            r == (match self.store.rec(spool_id@) {
                Some(record) => Some(
                    SpoolRecord {
                        weight_current: Some(weight),
                        weight_new: if unused {
                            Some(weight)
                        } else {
                            record.weight_new
                        },
                        added_full: if unused {
                            Some(true)
                        } else {
                            record.added_full
                        },
                        ..record
                    },
                ),
                None => None,
            }),
            self.store.rec(spool_id@) is Some ==> r == Some(weighed(self.store.rec(spool_id@)->0, weight, unused)),
    {
        match self.store.get_spool_by_id(spool_id) {
            Some(mut record) => {
                record.weight_current = Some(weight);
                if unused {
                    record.weight_new = Some(weight);
                    record.added_full = Some(true);
                }
                Some(record)
            },
            None => None,
        }
    }

    /// Takes a record that was stored, where it is that of the staged spool. Says whether
    /// it is.
    pub fn update_spool_rec(&mut self, spool_rec: SpoolRecord) -> (r: bool)
        ensures
            r == (old(self).staged is Some && old(self).staged->0.spool_rec.id@ == spool_rec.id@),
            *final(self) == (if r {
                old(self).with_staged_rec(spool_rec)
            } else {
                *old(self)
            }),
    {
        let replaces = match &self.staged {
            Some(full) => full.spool_rec.id == spool_rec.id,
            None => false,
        };
        if replaces {
            self.set_staged_rec(spool_rec);
        }
        replaces
    }

    /// Takes the result of an analysis to the print that awaits it. Says whether there is
    /// one.
    pub fn on_gcode_analysis(&mut self, job_number: i32, printer_index: usize, at: u64, usage: FilamentUsage) -> (accepted: bool)
        ensures
            ({
                let printers = old(self).bambu_printer_model.printers@;
                let project = printers[printer_index as int].curr_print_project;
                accepted == (printer_index < printers.len() && project is Some && project->0.awaited_job() == Some(
                    job_number,
                ))
            }),
            !accepted ==> *final(self) == *old(self),
            accepted ==> {
                let before = old(self).bambu_printer_model.printers@[printer_index as int];
                let after = final(self).bambu_printer_model.printers@[printer_index as int];
                &&& final(self).bambu_printer_model.printers@ == old(self).bambu_printer_model.printers@.update(
                    printer_index as int,
                    after,
                )
                &&& final(self).bambu_printer_model.index == old(self).bambu_printer_model.index
                &&& *final(self) == (ViewModel { bambu_printer_model: final(self).bambu_printer_model, ..*old(self) })
                &&& after == (BambuPrinter { curr_print_project: after.curr_print_project, ..before })
                &&& after.curr_print_project == Some(
                    PrintProject {
                        gcode_analysis: crate::bambu_print::GcodeAnalysis::Received { at, job_number, usage },
                        consume_index: if before.curr_print_project->0.consume_index == -1 {
                            0
                        } else {
                            before.curr_print_project->0.consume_index
                        },
                        ..before.curr_print_project->0
                    },
                )
            },
    {
        if printer_index >= self.bambu_printer_model.printers.len() {
            return false;
        }
        let awaited = match &self.bambu_printer_model.printers[printer_index].curr_print_project {
            Some(project) => project.awaits(job_number),
            None => false,
        };
        if !awaited {
            return false;
        }
        let taken = self.bambu_printer_model.printers[printer_index].curr_print_project.take();
        if let Some(mut project) = taken {
            project.receive_analysis(job_number, at, usage);
            self.bambu_printer_model.printers[printer_index].curr_print_project = Some(project);
            proof {
                assert(self.bambu_printer_model.printers@ =~= old(self).bambu_printer_model.printers@.update(
                    printer_index as int,
                    self.bambu_printer_model.printers@[printer_index as int],
                ));
            }
        }
        true
    }
}

/// The consumption of a slot is to be added to its spool: something was used since it
/// was loaded, and not all of it has been added.
pub open spec fn consumption_due(tray: Tray) -> bool {
    &&& tray.meta_info.spool_id is Some
    &&& !tray.meta_info.consumed_since_load.is_zero()
    &&& !tray.meta_info.consumed_since_load_saved.equals(tray.meta_info.consumed_since_load)
}

/// However a spool is staged, changed while it is staged, or no longer staged: something is
/// staged exactly where it came there somehow, and the store is the same.
pub proof fn staging_keeps_its_origin(
    v: ViewModel,
    spool_rec: SpoolRecord,
    spool_rec_ext: SpoolRecordExt,
    origin: StagingOrigin,
)
    requires
        v.staging_agrees(),
        origin != StagingOrigin::Empty,
    ensures
        v.staging(spool_rec, origin).staging_agrees(),
        v.with_staged_ext(spool_rec_ext).staging_agrees(),
        v.with_staged_rec(spool_rec).staging_agrees(),
        v.nothing_staged().staging_agrees(),
        v.staging(spool_rec, origin).store == v.store,
        v.with_staged_ext(spool_rec_ext).store == v.store,
        v.with_staged_rec(spool_rec).store == v.store,
        v.nothing_staged().store == v.store,
        v.with_staged_ext(spool_rec_ext).origin == v.origin,
        v.with_staged_rec(spool_rec).origin == v.origin,
{
}

/// What is to be done about the consumption of a slot.
#[derive(Debug)]
pub enum ConsumptionStep {
    /// Nothing is to be added.
    Nothing,
    /// Something is to be added to a spool that the store does not know.
    UnknownSpool,
    /// What was used since the last time is to be added to this record.
    AddTo { record: SpoolRecord },
}

/// Decides what is to be done about the consumption of a slot.
pub fn store_printers_consume(tray: &Tray, store: &Store) -> (r: ConsumptionStep)
    requires
        store.wf(),
    ensures
        r == (if !consumption_due(*tray) {
            ConsumptionStep::Nothing
        } else {
            match store.rec(tray.meta_info.spool_id->0@) {
                Some(record) => ConsumptionStep::AddTo { record },
                None => ConsumptionStep::UnknownSpool,
            }
        }),
{
    if tray.meta_info.consumed_since_load.zero_grams() || tray.meta_info.consumed_since_load_saved.same_as(
        &tray.meta_info.consumed_since_load,
    ) {
        return ConsumptionStep::Nothing;
    }
    match &tray.meta_info.spool_id {
        Some(id) => match store.get_spool_by_id(id.as_str()) {
            Some(record) => ConsumptionStep::AddTo { record },
            None => ConsumptionStep::UnknownSpool,
        },
        None => ConsumptionStep::Nothing,
    }
}

/// The slot after an attempt to add its consumption to its spool: all that was used
/// counts as added where the attempt succeeded.
pub open spec fn with_consumption_stored(tray: Tray, stored: bool) -> Tray {
    Tray {
        meta_info: TrayMetaInfo {
            consumed_since_load_saved: if stored {
                tray.meta_info.consumed_since_load
            } else {
                tray.meta_info.consumed_since_load_saved
            },
            ..tray.meta_info
        },
        ..tray
    }
}

/// Notes whether the consumption of a slot could be added to its spool.
pub fn consumption_stored(tray: &mut Tray, stored: bool)
    ensures
        *final(tray) == with_consumption_stored(*old(tray), stored),
{
    if stored {
        tray.meta_info.consumed_since_load_saved = tray.meta_info.consumed_since_load;
    }
}

/// What was added to a spool is not due again until more is used, and what could not be
/// added stays due. A weight that is not a number equals nothing and stays due.
pub proof fn consumption_is_added_once(tray: Tray)
    ensures
        !tray.meta_info.consumed_since_load.is_nan() ==> !consumption_due(with_consumption_stored(tray, true)),
        consumption_due(with_consumption_stored(tray, false)) == consumption_due(tray),
{
}

/// The milliseconds between storing the states of two printers: each comes every three
/// seconds, but no two within one.
pub fn store_state_delay(num_of_printers: usize) -> (r: u64)
    requires
        num_of_printers > 0,
    ensures
        r == (if num_of_printers >= 3 {
            1000
        } else {
            3000int / num_of_printers as int
        }),
{
    let share: usize = 3000 / num_of_printers;
    proof {
        if num_of_printers == 1 {
            assert(share == 3000);
        } else if num_of_printers == 2 {
            assert(share == 1500);
        } else {
            assert(3000int / num_of_printers as int <= 1000) by (nonlinear_arith)
                requires
                    num_of_printers >= 3,
            ;
        }
    }
    if share > 1000 {
        share as u64
    } else {
        1000
    }
}

/// The printer whose state is stored next: they take turns.
pub fn next_to_store(printer_index: usize, num_of_printers: usize) -> (r: usize)
    requires
        printer_index < usize::MAX,
    ensures
        r == (if printer_index + 1 < num_of_printers {
            printer_index + 1
        } else {
            0
        }),
{
    let next = printer_index + 1;
    if next >= num_of_printers {
        0
    } else {
        next
    }
}

/// How the configuration page was started.
#[derive(Clone, Copy, Debug, PartialEq, Eq, Structural)]
pub enum WebConfigMode {
    AP,
    STA,
}

/// What is shown while the configuration page can be reached.
#[derive(Clone, Copy, Debug, PartialEq, Eq, Structural)]
pub enum WebConfigState {
    StartedAP,
    StartedSTA,
    StartedSTADisplayed,
}

/// What is shown while the configuration page can be reached: its address is displayed
/// as long as the configuration lacks something.
pub fn on_web_config_started(mode: WebConfigMode, missing_configs: bool) -> (r: WebConfigState)
    ensures
        r == (match mode {
            WebConfigMode::AP => WebConfigState::StartedAP,
            WebConfigMode::STA => if missing_configs {
                WebConfigState::StartedSTADisplayed
            } else {
                WebConfigState::StartedSTA
            },
        }),
{
    match mode {
        WebConfigMode::AP => WebConfigState::StartedAP,
        WebConfigMode::STA => {
            if missing_configs {
                WebConfigState::StartedSTADisplayed
            } else {
                WebConfigState::StartedSTA
            }
        },
    }
}

/// The address of the configuration page on the display: by number, and by name where
/// there is one.
pub fn on_webapp_url_update(ip_url: &str, name_url: Option<&str>) -> (r: String)
    ensures
        r@ == (match name_url {
            Some(name) => ip_url@ + " / "@ + name@,
            None => ip_url@,
        }),
{
    match name_url {
        Some(name) => around(ip_url, " / ", name),
        None => ip_url.to_string(),
    }
}

/// The address of the configuration page with the key to it.
pub fn web_config_url(ip_url: &str, key: &str) -> (r: String)
    ensures
        r@ == ip_url@ + "#sk="@ + key@,
{
    around(ip_url, "#sk=", key)
}

/// A line of the scale in the terminal of the console.
pub fn on_term_text(text: &str) -> (r: String)
    ensures
        r@ == "\n[S] "@ + text@,
{
    joined("\n[S] ", text)
}

/// A scale on the display: its address and name. A scale without name is shown by what
/// stands for one.
pub open spec fn scale_label(ip: Seq<char>, name: Option<Seq<char>>, unnamed: Seq<char>) -> Seq<char> {
    ip + " - "@ + (match name {
        Some(n) => if n.len() > 0 {
            n
        } else {
            unnamed
        },
        None => unnamed,
    })
}

fn write_scale_label(ip: Ipv4Address, name: &Option<String>, unnamed: &str) -> (r: String)
    ensures
        r@ == scale_label(
            ip.dotted(),
            match *name {
                Some(n) => Some(n@),
                None => None,
            },
            unnamed@,
        ),
{
    let address = ip.text();
    match name {
        Some(n) => {
            if is_blank(n.as_str()) {
                around(address.as_str(), " - ", unnamed)
            } else {
                around(address.as_str(), " - ", n.as_str())
            }
        },
        None => around(address.as_str(), " - ", unnamed),
    }
}

/// A scale that was found.
#[derive(Debug)]
pub struct FoundScale {
    pub name: Option<String>,
    pub ip: Ipv4Address,
}

impl FoundScale {
    /// The name by its characters.
    pub open spec fn name_text(self) -> Option<Seq<char>> {
        match self.name {
            Some(n) => Some(n@),
            None => None,
        }
    }
}

/// The scale that is connected, on the display.
pub fn connected_scale_info(scale: &Option<FoundScale>) -> (r: String)
    ensures
        r@ == (match scale {
            Some(s) => scale_label(s.ip.dotted(), s.name_text(), "<Unnamed Scale/IP set w/o name>"@),
            None => "<No Scale Connected>"@,
        }),
{
    match scale {
        Some(s) => write_scale_label(s.ip, &s.name, "<Unnamed Scale/IP set w/o name>"),
        None => "<No Scale Connected>".to_string(),
    }
}

/// The scales that were found, on the display.
pub fn available_scales_info(scales: &Vec<FoundScale>) -> (r: Vec<String>)
    ensures
        r@.len() == scales@.len(),
        forall|i: int|
            0 <= i < scales@.len() ==> (#[trigger] r@[i])@ == scale_label(
                scales@[i].ip.dotted(),
                scales@[i].name_text(),
                "<Unnamed Scale>"@,
            ),
{
    let mut r: Vec<String> = Vec::new();
    let mut i: usize = 0;
    while i < scales.len()
        invariant
            i <= scales@.len(),
            r@.len() == i,
            forall|j: int|
                0 <= j < i ==> (#[trigger] r@[j])@ == scale_label(
                    scales@[j].ip.dotted(),
                    scales@[j].name_text(),
                    "<Unnamed Scale>"@,
                ),
        decreases scales@.len() - i,
    {
        r.push(write_scale_label(scales[i].ip, &scales[i].name, "<Unnamed Scale>"));
        i += 1;
    }
    r
}

/// A bit is set.
pub open spec fn bit_is_set(bits: u32, i: int) -> bool {
    (bits >> (i as u32)) & 1 != 0
}

proof fn lemma_newly_set_bits(before: u32, after: u32, n: int) -> (at: Seq<int>)
    requires
        0 <= n <= 32,
    ensures
        lists_marked(at, Seq::new(n as nat, |i: int| !bit_is_set(before, i) && bit_is_set(after, i))),
        newly_set_bits(before, after, n).len() == at.len(),
        forall|k: int| 0 <= k < at.len() ==> #[trigger] newly_set_bits(before, after, n)[k] == at[k],
    decreases n,
{
    let marks = Seq::new(n as nat, |i: int| !bit_is_set(before, i) && bit_is_set(after, i));
    if n == 0 {
        assert(lists_marked(seq![], marks));
        seq![]
    } else {
        let at = lemma_newly_set_bits(before, after, n - 1);
        let fewer = Seq::new((n - 1) as nat, |i: int| !bit_is_set(before, i) && bit_is_set(after, i));
        lemma_lists_marked(at, fewer, newly_set(before, after, n - 1));
        assert(fewer.push(newly_set(before, after, n - 1)) =~= marks);
        if newly_set(before, after, n - 1) {
            at.push(n - 1)
        } else {
            at
        }
    }
}

/// The slot that was loaded is the one whose bit was not set and is now, where there is
/// exactly one among the slots of the printer. Without bits before, none was set.
pub proof fn single_slot_that_switched_is_taken(before: u32, after: u32, n: int)
    requires
        0 <= n <= 32,
    ensures
        ({
            let r = only_newly_set(Some(before), Some(after), n);
            &&& r is Some ==> {
                &&& r->0 < n
                &&& !bit_is_set(before, r->0 as int)
                &&& bit_is_set(after, r->0 as int)
                &&& forall|j: int|
                    0 <= j < n && !bit_is_set(before, j) && #[trigger] bit_is_set(after, j) ==> j == r->0
            }
            &&& r is None ==> !exists|i: int|
                {
                    &&& 0 <= i < n
                    &&& !bit_is_set(before, i)
                    &&& #[trigger] bit_is_set(after, i)
                    &&& forall|j: int|
                        0 <= j < n && !bit_is_set(before, j) && #[trigger] bit_is_set(after, j) ==> j == i
                }
        }),
        only_newly_set(None, Some(after), n) == only_newly_set(Some(0u32), Some(after), n),
        only_newly_set(Some(before), None, n) is None,
        only_newly_set(None, None, n) is None,
        forall|i: int| 0 <= i < 32 ==> !(#[trigger] bit_is_set(0u32, i)),
{
    let at = lemma_newly_set_bits(before, after, n);
    let marks = Seq::new(n as nat, |i: int| !bit_is_set(before, i) && bit_is_set(after, i));
    let bits = newly_set_bits(before, after, n);
    if bits.len() == 1 {
        assert(bits[0] == at[0]);
        assert(marks[at[0]]);
        assert forall|j: int| 0 <= j < n && !bit_is_set(before, j) && #[trigger] bit_is_set(after, j) implies j == at[0] by {
            assert(marks[j]);
            assert(at.contains(j));
        }
    } else {
        assert forall|i: int| 0 <= i < n && !bit_is_set(before, i) && #[trigger] bit_is_set(after, i) implies exists|j: int|
            0 <= j < n && !bit_is_set(before, j) && #[trigger] bit_is_set(after, j) && j != i by {
            assert(marks[i]);
            assert(at.contains(i));
            assert(at.len() >= 2);
            assert(at[0] < at[1]);
            let j = if at[0] == i {
                at[1]
            } else {
                at[0]
            };
            assert(marks[j]);
            assert(bit_is_set(after, j));
        }
    }
    assert forall|i: int| 0 <= i < 32 implies !(#[trigger] bit_is_set(0u32, i)) by {
        let k = i as u32;
        assert((0u32 >> k) & 1 == 0) by (bit_vector);
    }
}

/// The printer that is shown first is the first one with the default serial number, and
/// the first of all where none has it or there is no default.
pub proof fn default_printer_is_the_first_with_its_serial(printers: Seq<BambuPrinter>, default_serial: Option<String>, i: int)
    requires
        0 <= i <= printers.len(),
        default_serial is Some ==> forall|j: int|
            0 <= j < i ==> (#[trigger] printers[j]).printer_serial@ != default_serial->0@,
        default_serial is Some && i < printers.len() ==> printers[i].printer_serial@ == default_serial->0@,
    ensures
        default_index(printers, default_serial) == (if default_serial is Some && i < printers.len() {
            i
        } else {
            0
        }),
{
    if let Some(serial) = default_serial {
        lemma_first_serial_is(printers, serial@, i);
    }
}

proof fn lemma_first_serial_is(printers: Seq<BambuPrinter>, serial: Seq<char>, i: int)
    requires
        0 <= i <= printers.len(),
        forall|j: int| 0 <= j < i ==> (#[trigger] printers[j]).printer_serial@ != serial,
        i < printers.len() ==> printers[i].printer_serial@ == serial,
    ensures
        first_with_serial(printers, serial) == i,
    decreases printers.len(),
{
    if printers.len() > 0 && i > 0 {
        assert(printers[0].printer_serial@ != serial);
        assert forall|j: int| 0 <= j < i - 1 implies (#[trigger] printers.skip(1)[j]).printer_serial@ != serial by {
            assert(printers.skip(1)[j] == printers[j + 1]);
        }
        lemma_first_serial_is(printers.skip(1), serial, i - 1);
    }
}

/// The printer that is selected is the first one with the name in the selector.
pub proof fn first_printer_with_the_name_is_selected(printers: Seq<BambuPrinter>, name: Seq<char>, i: int)
    requires
        0 <= i <= printers.len(),
        forall|j: int| 0 <= j < i ==> (#[trigger] printers[j]).printer_selector_name@ != name,
        i < printers.len() ==> printers[i].printer_selector_name@ == name,
    ensures
        SelectedPrinter::first_named(printers, name) == i,
    decreases printers.len(),
{
    if printers.len() > 0 && i > 0 {
        assert(printers[0].printer_selector_name@ != name);
        assert forall|j: int| 0 <= j < i - 1 implies (#[trigger] printers.skip(1)[j]).printer_selector_name@ != name by {
            assert(printers.skip(1)[j] == printers[j + 1]);
        }
        first_printer_with_the_name_is_selected(printers.skip(1), name, i - 1);
    }
}

/// What is staged is the record that was given, with nothing known beside it and the origin
/// that was given. An extended record or another record goes to what is staged, and to
/// nothing where nothing is; nothing else of the state ever changes.
pub proof fn staged_spool_is_the_one_given(
    v: ViewModel,
    spool_rec: SpoolRecord,
    spool_rec_ext: SpoolRecordExt,
    origin: StagingOrigin,
)
    ensures
        v.staging(spool_rec, origin).staged is Some,
        v.staging(spool_rec, origin).staged->0.spool_rec == spool_rec,
        v.staging(spool_rec, origin).staged->0.spool_rec_ext.tag is None,
        v.staging(spool_rec, origin).staged->0.spool_rec_ext.k_info is None,
        v.staging(spool_rec, origin).origin == origin,
        v.staged is Some ==> v.with_staged_ext(spool_rec_ext).staged == Some(
            FullSpoolRecord { spool_rec: v.staged->0.spool_rec, spool_rec_ext },
        ),
        v.staged is Some ==> v.with_staged_rec(spool_rec).staged == Some(
            FullSpoolRecord { spool_rec, spool_rec_ext: v.staged->0.spool_rec_ext },
        ),
        v.staged is None ==> v.with_staged_ext(spool_rec_ext) == v && v.with_staged_rec(spool_rec) == v,
        v.nothing_staged().staged is None,
        v.nothing_staged().origin == StagingOrigin::Empty,
        forall|w: ViewModel|
            w == v.staging(spool_rec, origin) || w == v.with_staged_ext(spool_rec_ext) || w == v.with_staged_rec(
                spool_rec,
            ) || w == v.nothing_staged() ==> #[trigger] w.bambu_printer_model == v.bambu_printer_model && w.store
                == v.store && w.lists == v.lists && w.printers_view_state == v.printers_view_state
                && w.recently_added_spool_id == v.recently_added_spool_id,
{
}

/// The spool of a tag is the one that the store has for the id in the text on it, if the
/// text is of the first kind, and for the id of the tag itself if it is not.
pub proof fn text_goes_before_the_tag(v: ViewModel, uid: Seq<u8>, tag_info: Option<TagInformation>)
    ensures
        tag_info is None ==> v.read_spool(uid, tag_info) == v.store.owner(hex_upper(uid)),
        tag_info is Some && tag_info->0.tag_id is None ==> v.read_spool(uid, tag_info) is None,
        tag_info is Some && tag_info->0.tag_id is Some ==> v.read_spool(uid, tag_info) == v.store.owner(
            hex_upper(tag_info->0.tag_id->0@),
        ),
{
}

/// Consumption is due for a slot with a spool of which something was used since it was
/// loaded, as a number, that is not yet what was added. Nothing but what counts as added
/// changes when it was.
pub proof fn used_filament_is_due_until_it_is_added(tray: Tray)
    ensures
        consumption_due(tray) <==> tray.meta_info.spool_id is Some && tray.meta_info.consumed_since_load.bits != 0
            && tray.meta_info.consumed_since_load.bits != 0x8000_0000
            && !tray.meta_info.consumed_since_load_saved.equals(tray.meta_info.consumed_since_load),
        with_consumption_stored(tray, true).meta_info.consumed_since_load_saved == tray.meta_info.consumed_since_load,
        with_consumption_stored(tray, false) == tray,
        forall|stored: bool| {
            let now = #[trigger] with_consumption_stored(tray, stored);
            &&& now.state == tray.state
            &&& now.filament == tray.filament
            &&& now.cali_idx == tray.cali_idx
            &&& now.meta_info.spool_id == tray.meta_info.spool_id
            &&& now.meta_info.used_in_print == tray.meta_info.used_in_print
            &&& now.meta_info.consumed_since_load == tray.meta_info.consumed_since_load
            &&& now.meta_info.consumed_since_weight == tray.meta_info.consumed_since_weight
        },
{
}

/// A scale is shown by its address and its name, or by what stands for one where it has
/// none or an empty one.
pub proof fn scales_are_shown_by_address_and_name(ip: Seq<char>, name: Seq<char>, unnamed: Seq<char>)
    ensures
        name.len() > 0 ==> scale_label(ip, Some(name), unnamed) == ip + seq![' ', '-', ' '] + name,
        scale_label(ip, Some(seq![]), unnamed) == ip + seq![' ', '-', ' '] + unnamed,
        scale_label(ip, None, unnamed) == ip + seq![' ', '-', ' '] + unnamed,
        forall|scale: FoundScale|
            (scale.name is None ==> #[trigger] scale.name_text() is None) && (scale.name is Some ==> scale.name_text()
                == Some(scale.name->0@)),
{
    reveal_strlit(" - ");
    assert(" - "@ =~= seq![' ', '-', ' ']);
}

/// A spool that was scanned or encoded goes into the single slot that was read, and is told
/// of the single slot that was loaded. A spool that was unloaded goes nowhere.
pub proof fn scanned_and_encoded_spools_go_into_slots(origin: StagingOrigin, trays: int, before: TrayBits, after: TrayBits)
    ensures
        origin == StagingOrigin::Scanned || origin == StagingOrigin::Encoded ==> trays_step(origin, trays, before, after).stage_to
            == only_newly_set(before.tray_read_done_bits, after.tray_read_done_bits, trays),
        origin == StagingOrigin::Scanned || origin == StagingOrigin::Encoded ==> (trays_step(origin, trays, before, after).spool_loaded
            <==> only_newly_set(before.tray_exist_bits, after.tray_exist_bits, trays) is Some),
        origin == StagingOrigin::Unloaded || origin == StagingOrigin::Empty ==> trays_step(origin, trays, before, after).stage_to
            is None && !trays_step(origin, trays, before, after).spool_loaded,
{
}

/// A printer that is connected is told of the staged spool, with the temperatures of its
/// filament, where these are known by its code or its material.
pub proof fn connected_printer_is_told_of_the_spool(v: ViewModel, printer_connectivity_ok: Option<bool>)
    ensures
        ({
            let r = v.tray_update(printer_connectivity_ok);
            let rec = v.staged->0.spool_rec;
            let found = v.lists.lookup(rec.slicer_filament@, Some(rec.material_type@));
            &&& r is Disconnected <==> printer_connectivity_ok != Some(true)
            &&& r is Nothing <==> printer_connectivity_ok == Some(true) && v.staged is None
            &&& r is UnknownTemps <==> printer_connectivity_ok == Some(true) && v.staged is Some && found is None
            &&& r is Update ==> r->spool == v.staged->0 && r->nozzle_temp_low == found->0.entry.low
                && r->nozzle_temp_high == found->0.entry.high
        }),
        forall|u: TrayUpdate| #[trigger]
            tray_update_of(u) is Update ==> u is Update && u->spool == tray_update_of(u)->spool && u->nozzle_temp_low
                == tray_update_of(u)->nozzle_temp_low && u->nozzle_temp_high == tray_update_of(u)->nozzle_temp_high,
        forall|u: TrayUpdate| (#[trigger] tray_update_of(u) is Disconnected <==> u is Disconnected) && (tray_update_of(u)
            is Nothing <==> u is Nothing) && (tray_update_of(u) is UnknownTemps <==> u is UnknownTemps),
{
}

/// A weight is stored for the staged spool where it is stable and not zero, and then it is
/// what the scale says.
pub proof fn stable_weight_is_stored(v: ViewModel, scale_weight: ScaleWeight)
    ensures
        v.weight_to_store(scale_weight) is Some <==> v.staged is Some && scale_weight is Stable && scale_weight->Stable_0 != 0,
        v.weight_to_store(scale_weight) is Some ==> scale_weight == ScaleWeight::Stable(v.weight_to_store(scale_weight)->0),
{
}

/// A spool that was weighed has this weight now, and an unused one had it from the beginning
/// and is full. Nothing else changes of it.
pub proof fn weighing_changes_only_weights(record: SpoolRecord, weight: i32, unused: bool)
    ensures
        ({
            let now = weighed(record, weight, unused);
            &&& now.weight_current == Some(weight)
            &&& unused ==> now.weight_new == Some(weight) && now.added_full == Some(true)
            &&& !unused ==> now.weight_new == record.weight_new && now.added_full == record.added_full
            &&& now.id == record.id
            &&& now.tag_id == record.tag_id
            &&& now.material_type == record.material_type
            &&& now.material_subtype == record.material_subtype
            &&& now.color_name == record.color_name
            &&& now.color_code == record.color_code
            &&& now.note == record.note
            &&& now.brand == record.brand
            &&& now.weight_advertised == record.weight_advertised
            &&& now.weight_core == record.weight_core
            &&& now.slicer_filament == record.slicer_filament
            &&& now.added_time == record.added_time
            &&& now.encode_time == record.encode_time
            &&& now.consumed_since_add == record.consumed_since_add
            &&& now.consumed_since_weight == record.consumed_since_weight
            &&& now.ext_has_k == record.ext_has_k
            &&& now.assigned_location == record.assigned_location
            &&& now.actual_location == record.actual_location
            &&& now.spools_count == record.spools_count
        }),
{
}

} // verus!
