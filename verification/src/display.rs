//! What the display shows of slots, spools and the staging area.

use crate::bambu::{BambuPrinter, Calibration, Filament, Tray, TrayState};
use crate::bambu_print::EXTERNAL_TRAY;
use crate::filament_info::FilamentLists;
use crate::filament_staging::StagingOrigin;
use crate::grams::Grams;
use crate::hex_text::digit_value;
use crate::spool_record::FullSpoolRecord;
use crate::store::Store;
use crate::text::{
    append, chars_of, cut, is_blank, lemma_lists_marked, lists_marked, text_of, trim, trim_end, trim_start, trimmed,
    white_space,
};
use vstd::prelude::*;
use vstd::utf8::encode_utf8;

verus! {

/// The state of a slot on the display.
#[derive(Clone, Copy, Debug, PartialEq, Eq, Structural)]
pub enum UiTrayState {
    Unknown,
    Empty,
    Spool,
    Reading,
    Ready,
    Loading,
    Unloading,
    Loaded,
}

/// The state of a slot on the display.
pub open spec fn ui_tray_state(v: TrayState) -> UiTrayState {
    match v {
        TrayState::Unknown => UiTrayState::Unknown,
        TrayState::Empty => UiTrayState::Empty,
        TrayState::Spool => UiTrayState::Spool,
        TrayState::Reading => UiTrayState::Reading,
        TrayState::Ready => UiTrayState::Ready,
        TrayState::Loading => UiTrayState::Loading,
        TrayState::Unloading => UiTrayState::Unloading,
        TrayState::Loaded => UiTrayState::Loaded,
    }
}

impl From<TrayState> for UiTrayState {
    fn from(v: TrayState) -> (r: UiTrayState) {
        match v {
            TrayState::Unknown => UiTrayState::Unknown,
            TrayState::Empty => UiTrayState::Empty,
            TrayState::Spool => UiTrayState::Spool,
            TrayState::Reading => UiTrayState::Reading,
            TrayState::Ready => UiTrayState::Ready,
            TrayState::Loading => UiTrayState::Loading,
            TrayState::Unloading => UiTrayState::Unloading,
            TrayState::Loaded => UiTrayState::Loaded,
        }
    }
}

impl vstd::std_specs::convert::FromSpecImpl<TrayState> for UiTrayState {
    open spec fn obeys_from_spec() -> bool {
        true
    }

    open spec fn from_spec(v: TrayState) -> UiTrayState {
        ui_tray_state(v)
    }
}

/// Hexadecimal digits, of either case.
pub open spec fn hex_digits(s: Seq<char>) -> bool {
    s.len() > 0 && forall|i: int| 0 <= i < s.len() ==> digit_value(#[trigger] s[i]) is Some
}

/// What hexadecimal digits stand for.
pub open spec fn hex_value(s: Seq<char>) -> int
    decreases s.len(),
{
    if s.len() == 0 {
        0
    } else {
        hex_value(s.drop_last()) * 16 + digit_value(s.last())->0
    }
}

/// The digits of a number behind an optional plus sign.
pub open spec fn unsigned_digits(s: Seq<char>) -> Seq<char> {
    if s.len() > 0 && s[0] == '+' {
        s.skip(1)
    } else {
        s
    }
}

/// The first six characters of a color code.
pub open spec fn color_digits(code: Seq<char>) -> Seq<char> {
    unsigned_digits(code.take(6))
}

/// A code is long enough to be one of a color.
pub open spec fn long_enough(code: Seq<char>) -> bool {
    encode_utf8(code).len() >= 6
}

/// A code that is long enough begins with the digits of a color.
pub open spec fn color_ok(code: Seq<char>) -> bool {
    long_enough(code) ==> code.len() >= 6 && hex_digits(color_digits(code))
}

/// The color of a code, opaque.
pub open spec fn color_of(code: Seq<char>) -> int {
    0xff00_0000 + hex_value(color_digits(code))
}

proof fn lemma_hex_value(s: Seq<char>, k: int)
    requires
        hex_digits(s),
        0 <= k <= s.len() <= 6,
    ensures
        0 <= hex_value(s.take(k)),
        k == 0 ==> hex_value(s.take(k)) == 0,
        k == 1 ==> hex_value(s.take(k)) < 0x10,
        k == 2 ==> hex_value(s.take(k)) < 0x100,
        k == 3 ==> hex_value(s.take(k)) < 0x1000,
        k == 4 ==> hex_value(s.take(k)) < 0x1_0000,
        k == 5 ==> hex_value(s.take(k)) < 0x10_0000,
        k == 6 ==> hex_value(s.take(k)) < 0x100_0000,
    decreases k,
{
    if k > 0 {
        lemma_hex_value(s, k - 1);
        assert(s.take(k).drop_last() =~= s.take(k - 1));
        assert(digit_value(s[k - 1]) is Some);
    }
}

fn read_digit(c: char) -> (r: u32)
    requires
        digit_value(c) is Some,
    ensures
        r == digit_value(c)->0,
{
    if '0' <= c && c <= '9' {
        c as u32 - '0' as u32
    } else if 'A' <= c && c <= 'F' {
        c as u32 - 'A' as u32 + 10
    } else {
        c as u32 - 'a' as u32 + 10
    }
}

/// The color of a code, opaque.
pub fn read_color(code: &str) -> (r: u32)
    requires
        code@.len() >= 6,
        hex_digits(color_digits(code@)),
    ensures
        r == color_of(code@),
{
    let chars = chars_of(code);
    let from: usize = if chars[0] == '+' { 1 } else { 0 };
    let digits = cut(chars.as_slice(), from, 6);
    proof {
        assert(digits@ =~= color_digits(code@));
    }
    let mut value: u32 = 0;
    let mut i: usize = 0;
    proof {
        assert(digits@.take(0).len() == 0);
    }
    while i < digits.len()
        invariant
            i <= digits@.len() <= 6,
            hex_digits(digits@),
            value == hex_value(digits@.take(i as int)),
        decreases digits@.len() - i,
    {
        proof {
            lemma_hex_value(digits@, i as int);
            lemma_hex_value(digits@, i + 1);
            assert(digits@.take(i + 1).drop_last() =~= digits@.take(i as int));
            assert(digit_value(digits@[i as int]) is Some);
        }
        value = value * 16 + read_digit(digits[i]);
        i += 1;
    }
    proof {
        lemma_hex_value(digits@, digits@.len() as int);
        assert(digits@.take(digits@.len() as int) =~= digits@);
    }
    0xff00_0000 + value
}

/// Whether a code is long enough to be one of a color.
pub fn is_color(code: &str) -> (r: bool)
    ensures
        r == long_enough(code@),
{
    let bytes = code.as_bytes();
    bytes.len() >= 6
}

/// The filament of the slicer on the display: marked where it is one of the slicer's
/// own.
pub open spec fn shown_name(name: Seq<char>, base: bool) -> Seq<char> {
    if base {
        name + " (base)"@
    } else {
        name
    }
}

/// What the slicer knows of a filament, as it is shown.
pub ghost struct SlicerView {
    pub name: Seq<char>,
    pub temp_min: int,
    pub temp_max: int,
}

/// What the slicer knows of a filament, as it is shown: nothing where it is not known.
pub open spec fn slicer_view(lists: FilamentLists, code: Seq<char>, material: Option<Seq<char>>) -> SlicerView {
    match lists.lookup(code, material) {
        Some(found) => SlicerView {
            name: shown_name(found.entry.name, found.base_filament),
            temp_min: found.entry.low,
            temp_max: found.entry.high,
        },
        None => SlicerView { name: seq![], temp_min: 0, temp_max: 0 },
    }
}

/// What the slicer knows of a filament, as it is shown.
#[derive(Debug)]
pub struct SlicerDisplay {
    pub name: String,
    pub temp_min: i32,
    pub temp_max: i32,
}

impl SlicerDisplay {
    /// It shows this.
    pub open spec fn shows(self, v: SlicerView) -> bool {
        self.name@ == v.name && self.temp_min == v.temp_min && self.temp_max == v.temp_max
    }
}

fn slicer_display(lists: &FilamentLists, code: &str, material: Option<&str>) -> (r: SlicerDisplay)
    ensures
        ({
            let m = match material {
                Some(text) => Some(text@),
                None => None,
            };
            r.shows(slicer_view(*lists, code@, m))
        }),
{
    match lists.get_filament_info(code, material) {
        Some(info) => {
            let mut name = chars_of(info.slicer_name.as_str());
            if info.base_filament {
                let mark = chars_of(" (base)");
                append(&mut name, mark.as_slice());
            }
            SlicerDisplay {
                name: text_of(name.as_slice()),
                temp_min: info.nozzle_temp_low,
                temp_max: info.nozzle_temp_high,
            }
        },
        None => {
            let name = String::new();
            proof {
                assert(name@ =~= seq![]);
            }
            SlicerDisplay { name, temp_min: 0, temp_max: 0 }
        },
    }
}

/// The pressure advance of a slot on the display.
#[derive(Debug)]
pub enum PressureAdvance {
    /// The value that the slot itself reports, in brackets.
    FromTray,
    /// The value and the name of a calibration.
    Calibrated(String),
}

/// The text for the calibration of a slot: its value and name, and the printer's
/// default where it is not known.
pub open spec fn calibration_text(calibrations: Seq<Calibration>, cali_idx: i32) -> Seq<char>
    decreases calibrations.len(),
{
    if calibrations.len() == 0 {
        "0.2"@ + ", "@
    } else if calibrations[0].cali_idx == cali_idx {
        calibrations[0].k_value@ + ", "@ + calibrations[0].name@
    } else {
        calibration_text(calibrations.skip(1), cali_idx)
    }
}

fn write_calibration(calibrations: &Vec<Calibration>, cali_idx: i32) -> (r: String)
    ensures
        r@ == calibration_text(calibrations@, cali_idx),
{
    let comma = chars_of(", ");
    let mut i: usize = 0;
    proof {
        assert(calibrations@.skip(0) =~= calibrations@);
    }
    while i < calibrations.len()
        invariant
            i <= calibrations@.len(),
            comma@ == ", "@,
            calibration_text(calibrations@.skip(i as int), cali_idx) == calibration_text(calibrations@, cali_idx),
        decreases calibrations@.len() - i,
    {
        proof {
            assert(calibrations@.skip(i as int).skip(1) =~= calibrations@.skip(i + 1));
            assert(calibrations@.skip(i as int)[0] == calibrations@[i as int]);
        }
        if calibrations[i].cali_idx == cali_idx {
            let mut text = chars_of(calibrations[i].k_value.as_str());
            append(&mut text, comma.as_slice());
            let name = chars_of(calibrations[i].name.as_str());
            append(&mut text, name.as_slice());
            return text_of(text.as_slice());
        }
        i += 1;
    }
    let mut text = chars_of("0.2");
    append(&mut text, comma.as_slice());
    text_of(text.as_slice())
}

/// A slot on the display.
#[derive(Debug)]
pub struct SlotDisplay {
    pub color_code: String,
    pub material: String,
    pub brand: String,
    pub slicer: SlicerDisplay,
    pub pa: PressureAdvance,
    pub consumed_since_loaded: Grams,
}

/// The title of a slot: brand, material and color.
pub open spec fn title_of(brand: Seq<char>, material: Seq<char>, color: Seq<char>) -> Seq<char> {
    trimmed(brand + seq![' '] + material + seq![' '] + color)
}

/// Writes the title of a slot.
pub fn slot_title(brand: &str, material: &str, color_name: &str) -> (r: String)
    ensures
        r@ == title_of(brand@, material@, color_name@),
{
    let mut text = chars_of(brand);
    text.push(' ');
    let m = chars_of(material);
    append(&mut text, m.as_slice());
    text.push(' ');
    let c = chars_of(color_name);
    append(&mut text, c.as_slice());
    proof {
        assert(text@ =~= brand@ + seq![' '] + material@ + seq![' '] + color_name@);
    }
    let title = trim(text.as_slice());
    text_of(title.as_slice())
}

/// The weight of the filament on the spool in a slot, before what was used since it was
/// last weighed: without the core where its weight is known, else by how much lighter
/// the spool is than when it was new.
pub open spec fn weight_base(store: Store, tray: Tray) -> Option<int> {
    match tray.meta_info.spool_id {
        None => None,
        Some(id) => match store.rec(id@) {
            None => None,
            Some(spool) => match (spool.weight_current, spool.weight_core) {
                (Some(current), Some(core)) => Some(current - core),
                (Some(current), None) => match (spool.weight_new, spool.weight_advertised) {
                    (Some(new), Some(advertised)) => Some(current - (new - advertised)),
                    _ => None,
                },
                _ => None,
            },
        },
    }
}

/// The differences of the weights that are looked at can be held.
pub open spec fn weights_fit(store: Store, tray: Tray) -> bool {
    match tray.meta_info.spool_id {
        None => true,
        Some(id) => match store.rec(id@) {
            None => true,
            Some(spool) => match (spool.weight_current, spool.weight_core) {
                (Some(current), Some(core)) => i32::MIN <= current - core <= i32::MAX,
                (Some(current), None) => match (spool.weight_new, spool.weight_advertised) {
                    (Some(new), Some(advertised)) => i32::MIN <= new - advertised <= i32::MAX && i32::MIN <= current - (
                    new - advertised) <= i32::MAX,
                    _ => true,
                },
                _ => true,
            },
        },
    }
}

/// The weight of the filament on the spool in a slot, before what was used since it was
/// last weighed.
pub fn weight_left(store: &Store, tray: &Tray) -> (r: Option<i32>)
    requires
        store.wf(),
        weights_fit(*store, *tray),
    ensures
        match r {
            Some(w) => weight_base(*store, *tray) == Some(w as int),
            None => weight_base(*store, *tray) is None,
        },
{
    match &tray.meta_info.spool_id {
        None => None,
        Some(id) => match store.get_spool_by_id(id.as_str()) {
            None => None,
            Some(spool) => match (spool.weight_current, spool.weight_core) {
                (Some(current), Some(core)) => Some(current - core),
                (Some(current), None) => match (spool.weight_new, spool.weight_advertised) {
                    (Some(new), Some(advertised)) => Some(current - (new - advertised)),
                    _ => None,
                },
                _ => None,
            },
        },
    }
}

/// What is shown as the weight of a slot.
#[derive(Clone, Copy, Debug, PartialEq, Eq, Structural)]
pub enum WeightDisplay {
    /// What is left: this, less what was used since it was last weighed.
    Left(i32),
    /// What was used since the spool was loaded.
    Used,
    Nothing,
}

/// What is shown as the weight of a slot: what is left where it is known, else what was
/// used, if anything.
pub open spec fn shown_weight(store: Store, tray: Tray) -> WeightDisplay {
    if weight_base(store, tray) is Some {
        WeightDisplay::Left(weight_base(store, tray)->0 as i32)
    } else if tray.meta_info.consumed_since_load.is_zero() {
        WeightDisplay::Nothing
    } else {
        WeightDisplay::Used
    }
}

/// Decides what is shown as the weight of a slot.
pub fn weight_display(store: &Store, tray: &Tray) -> (r: WeightDisplay)
    requires
        store.wf(),
        weights_fit(*store, *tray),
    ensures
        r == (match weight_base(*store, *tray) {
            Some(w) => WeightDisplay::Left(w as i32),
            None => if tray.meta_info.consumed_since_load.is_zero() {
                WeightDisplay::Nothing
            } else {
                WeightDisplay::Used
            },
        }),
        r == shown_weight(*store, *tray),
{
    match weight_left(store, tray) {
        Some(w) => WeightDisplay::Left(w),
        None => {
            if tray.meta_info.consumed_since_load.zero_grams() {
                WeightDisplay::Nothing
            } else {
                WeightDisplay::Used
            }
        },
    }
}

/// What a slot shows of its filament: code, material and type.
pub ghost struct FilamentView {
    pub color: Seq<char>,
    pub material: Seq<char>,
    pub code: Seq<char>,
}

/// What a slot shows of its filament.
pub open spec fn filament_view(filament: Filament) -> Option<FilamentView> {
    match filament {
        Filament::Unknown => None,
        Filament::Known(info) => Some(
            FilamentView { color: info.tray_color@, material: info.tray_type@, code: info.tray_info_idx@ },
        ),
    }
}

/// The display of a slot. The brand is looked for in the name of the slicer's filament.
pub fn ui_get_slot_display(lists: &FilamentLists, printer: &BambuPrinter, tray: &Tray) -> (r: SlotDisplay)
    ensures
        match filament_view(tray.filament) {
            None => {
                &&& r.color_code@.len() == 0
                &&& r.material@.len() == 0
                &&& r.brand@.len() == 0
                &&& r.slicer.shows(SlicerView { name: seq![], temp_min: 0, temp_max: 0 })
            },
            Some(f) => {
                &&& r.color_code@ == f.color
                &&& r.material@ == f.material
                &&& r.slicer.shows(slicer_view(*lists, f.code, Some(f.material)))
                &&& r.brand@ == shown_brand(*lists, r.slicer.name@)
            },
        },
        r.consumed_since_loaded == tray.meta_info.consumed_since_load,
        match tray.cali_idx {
            None => r.pa is FromTray,
            Some(idx) => if idx == -1 {
                r.pa is FromTray
            } else {
                r.pa matches PressureAdvance::Calibrated(text) && text@ == calibration_text(printer.calibrations@, idx)
            },
        },
{
    let pa = match tray.cali_idx {
        None => PressureAdvance::FromTray,
        Some(idx) => {
            if idx == -1 {
                PressureAdvance::FromTray
            } else {
                PressureAdvance::Calibrated(write_calibration(&printer.calibrations, idx))
            }
        },
    };
    match &tray.filament {
        Filament::Unknown => {
            let name = String::new();
            proof {
                assert(name@ =~= seq![]);
            }
            SlotDisplay {
                color_code: String::new(),
                material: String::new(),
                brand: String::new(),
                slicer: SlicerDisplay { name, temp_min: 0, temp_max: 0 },
                pa,
                consumed_since_loaded: tray.meta_info.consumed_since_load,
            }
        },
        Filament::Known(info) => {
            let slicer = slicer_display(lists, info.tray_info_idx.as_str(), Some(info.tray_type.as_str()));
            let brand = if is_blank(slicer.name.as_str()) {
                String::new()
            } else {
                match lists.get_brand_from_text(slicer.name.as_str()) {
                    Some(brand) => brand,
                    None => String::new(),
                }
            };
            proof {
                assert(shown_brand(*lists, slicer.name@) =~= brand@);
            }
            SlotDisplay {
                color_code: info.tray_color.clone(),
                material: info.tray_type.clone(),
                brand,
                slicer,
                pa,
                consumed_since_loaded: tray.meta_info.consumed_since_load,
            }
        },
    }
}

/// The brand that is shown for the name of a filament.
pub open spec fn shown_brand(lists: FilamentLists, name: Seq<char>) -> Seq<char> {
    let found = crate::filament_info::picked(
        crate::filament_info::lowered(name),
        lists.brand_keywords(),
        lists.brand_names(),
    );
    if name.len() == 0 || found is None {
        seq![]
    } else {
        found->0
    }
}

/// A spool on the display.
#[derive(Debug)]
pub struct UiSpoolRecord {
    pub added_full: bool,
    pub brand: String,
    pub color_code: String,
    pub color_name: String,
    pub consumed_since_add: Grams,
    pub consumed_since_weight: Grams,
    pub ext_has_k: bool,
    pub id: String,
    pub material_subtype: String,
    pub material_type: String,
    pub note: String,
    pub slicer_filament: String,
    pub tag_id: String,
    pub weight_advertised: i32,
    pub weight_core: i32,
    pub weight_current: i32,
    pub weight_new: i32,
}

/// A number, or zero.
pub open spec fn or_zero(n: Option<i32>) -> i32 {
    match n {
        Some(n) => n,
        None => 0,
    }
}

fn zero_if_none(n: Option<i32>) -> (r: i32)
    ensures
        r == or_zero(n),
{
    match n {
        Some(n) => n,
        None => 0,
    }
}

/// The details of a spool on the display.
#[derive(Debug)]
pub struct SpoolRecordDisplay {
    pub spool_record: UiSpoolRecord,
    pub slicer: SlicerDisplay,
    pub pa_line1: String,
    /// The color, opaque; none where the code is too short.
    pub color: Option<u32>,
}

/// The display of a spool. The two fields for the material change places, and the
/// advertised weight stands for that of the core.
pub fn ui_get_spool_record_display(store: &Store, lists: &FilamentLists, spool_id: &str) -> (r: Option<SpoolRecordDisplay>)
    requires
        store.wf(),
        store.rec(spool_id@) is Some ==> color_ok(store.rec(spool_id@)->0.color_code@),
    ensures
        r is Some <==> store.rec(spool_id@) is Some,
        r is Some ==> {
            let spool = store.rec(spool_id@)->0;
            &&& r->0.spool_record == (UiSpoolRecord {
                added_full: spool.added_full == Some(true),
                brand: spool.brand,
                color_code: spool.color_code,
                color_name: spool.color_name,
                consumed_since_add: spool.consumed_since_add,
                consumed_since_weight: spool.consumed_since_weight,
                ext_has_k: spool.ext_has_k,
                id: spool.id,
                material_subtype: spool.material_type,
                material_type: spool.material_subtype,
                note: spool.note,
                slicer_filament: spool.slicer_filament,
                tag_id: spool.tag_id,
                weight_advertised: or_zero(spool.weight_advertised),
                weight_core: or_zero(spool.weight_advertised),
                weight_current: or_zero(spool.weight_current),
                weight_new: or_zero(spool.weight_new),
            })
            &&& r->0.slicer.shows(slicer_view(*lists, spool.slicer_filament@, None))
            &&& r->0.pa_line1@ == (if spool.ext_has_k {
                "Configured"@
            } else {
                "Not Configured"@
            })
            &&& r->0.color is Some <==> long_enough(spool.color_code@)
            &&& r->0.color is Some ==> r->0.color->0 == color_of(spool.color_code@)
        },
{
    match store.get_spool_by_id(spool_id) {
        None => None,
        Some(spool) => {
            let color = if is_color(spool.color_code.as_str()) {
                Some(read_color(spool.color_code.as_str()))
            } else {
                None
            };
            let slicer = slicer_display(lists, spool.slicer_filament.as_str(), None);
            let pa_line1 = if spool.ext_has_k { "Configured".to_string() } else { "Not Configured".to_string() };
            let added_full = match spool.added_full {
                Some(full) => full,
                None => false,
            };
            let spool_record = UiSpoolRecord {
                added_full,
                brand: spool.brand,
                color_code: spool.color_code,
                color_name: spool.color_name,
                consumed_since_add: spool.consumed_since_add,
                consumed_since_weight: spool.consumed_since_weight,
                ext_has_k: spool.ext_has_k,
                id: spool.id,
                material_subtype: spool.material_type,
                material_type: spool.material_subtype,
                note: spool.note,
                slicer_filament: spool.slicer_filament,
                tag_id: spool.tag_id,
                weight_advertised: zero_if_none(spool.weight_advertised),
                weight_core: zero_if_none(spool.weight_advertised),
                weight_current: zero_if_none(spool.weight_current),
                weight_new: zero_if_none(spool.weight_new),
            };
            Some(SpoolRecordDisplay { spool_record, slicer, pa_line1, color })
        },
    }
}

/// A staged spool on the display.
#[derive(Debug)]
pub struct UiSpoolInfo {
    pub id: String,
    pub color: u32,
    pub k: String,
    pub material: String,
    pub weight_core: i32,
}

/// The color that is shown where the code is too short: white, transparent.
pub const NO_COLOR: u32 = 0x00ff_ffff;

/// The display of a staged spool. `calibration` is the value that the printer has for
/// it.
pub fn tag_info_to_ui_spool_info(staged: &Option<FullSpoolRecord>, calibration: Option<String>) -> (r: Option<UiSpoolInfo>)
    requires
        staged is Some ==> color_ok(staged->0.spool_rec.color_code@),
    ensures
        r is Some <==> staged is Some,
        r is Some ==> {
            let spool = staged->0.spool_rec;
            &&& r->0.id == spool.id
            &&& r->0.material == spool.material_type
            &&& r->0.weight_core == or_zero(spool.weight_core)
            &&& r->0.color == (if long_enough(spool.color_code@) {
                color_of(spool.color_code@)
            } else {
                NO_COLOR as int
            })
            &&& r->0.k@ == (match calibration {
                Some(k) => k@,
                None => if staged->0.spool_rec_ext.k_info is Some {
                    "NoMatch"@
                } else {
                    "N/A"@
                },
            })
        },
{
    match staged {
        None => None,
        Some(full) => {
            let spool = &full.spool_rec;
            let color = if is_color(spool.color_code.as_str()) {
                read_color(spool.color_code.as_str())
            } else {
                NO_COLOR
            };
            let k = match calibration {
                Some(k) => k,
                None => {
                    if full.spool_rec_ext.k_info.is_some() {
                        "NoMatch".to_string()
                    } else {
                        "N/A".to_string()
                    }
                },
            };
            Some(
                UiSpoolInfo {
                    id: spool.id.clone(),
                    color,
                    k,
                    material: spool.material_type.clone(),
                    weight_core: zero_if_none(spool.weight_core),
                },
            )
        },
    }
}

/// How a staged spool is announced.
#[derive(Clone, Copy, Debug, PartialEq, Eq, Structural)]
pub enum StagingNotice {
    Read,
    Encoded,
    Unloaded,
    Unchanged,
}

/// How a staged spool is announced: by where it came from, where its coming is to be
/// told.
pub open spec fn staging_notice(origin: StagingOrigin, notify_operation: bool) -> StagingNotice {
    if !notify_operation {
        StagingNotice::Unchanged
    } else {
        match origin {
            StagingOrigin::Scanned => StagingNotice::Read,
            StagingOrigin::Encoded => StagingNotice::Encoded,
            StagingOrigin::Unloaded => StagingNotice::Unloaded,
            StagingOrigin::Empty => StagingNotice::Unchanged,
        }
    }
}

/// Decides how a staged spool is announced.
pub fn display_filament_staging(origin: StagingOrigin, notify_operation: bool) -> (r: StagingNotice)
    ensures
        r == staging_notice(origin, notify_operation),
{
    if !notify_operation {
        return StagingNotice::Unchanged;
    }
    match origin {
        StagingOrigin::Scanned => StagingNotice::Read,
        StagingOrigin::Encoded => StagingNotice::Encoded,
        StagingOrigin::Unloaded => StagingNotice::Unloaded,
        StagingOrigin::Empty => StagingNotice::Unchanged,
    }
}

/// A filament unit is there.
pub open spec fn ams_exists(bits: u32, ams_id: int) -> bool {
    (bits >> (ams_id as u32)) & 1 != 0
}

/// The filament units that are there, among the first `n`.
pub open spec fn ams_list(bits: u32, n: int) -> Seq<i32>
    decreases n,
{
    if n <= 0 {
        seq![]
    } else if ams_exists(bits, n - 1) {
        ams_list(bits, n - 1).push((n - 1) as i32)
    } else {
        ams_list(bits, n - 1)
    }
}

/// The number of filament units that can be there: four of one kind and eight of
/// another.
pub const MAX_AMS: u32 = 12;

/// The filament units on the display.
#[derive(Debug)]
pub struct AmsDisplay {
    pub exists: Vec<i32>,
    /// The unit that is to be shown, where it is another than before.
    pub show: Option<i32>,
}

/// The unit that is to be shown, where another is shown now.
pub open spec fn unit_to_show(exists: Seq<i32>, shown: i32) -> Option<i32> {
    if exists.len() > 0 {
        if exists[0] > shown {
            Some(exists[0])
        } else {
            None
        }
    } else if shown < -1 {
        Some(-1i32)
    } else {
        None
    }
}

/// The filament units on the display. The first one that is there is shown where one
/// before it was; where none is there, nothing changes.
pub fn ams_display(ams_exist_bits: u32, shown: i32) -> (r: AmsDisplay)
    ensures
        r.exists@ == ams_list(ams_exist_bits, MAX_AMS as int),
        ({
            let first = if r.exists@.len() > 0 {
                r.exists@[0] as int
            } else {
                -1
            };
            r.show == (if first > shown {
                Some(first as i32)
            } else {
                None
            })
        }),
        r.show == unit_to_show(r.exists@, shown),
{
    let mut exists: Vec<i32> = Vec::new();
    let mut ams_id: u32 = 0;
    while ams_id < MAX_AMS
        invariant
            ams_id <= MAX_AMS,
            exists@ == ams_list(ams_exist_bits, ams_id as int),
        decreases MAX_AMS - ams_id,
    {
        if (ams_exist_bits >> ams_id) & 1 != 0 {
            exists.push(ams_id as i32);
        }
        ams_id += 1;
    }
    let first: i32 = if exists.len() > 0 { exists[0] } else { -1 };
    let show = if first > shown { Some(first) } else { None };
    AmsDisplay { exists, show }
}

/// A row of the slots on the display.
#[derive(Debug)]
pub struct UiTray {
    pub id: i32,
    pub spool_state: UiTrayState,
    /// Color and material; none where the filament is not known.
    pub filament: Option<UiFilament>,
    /// The spool in the slot.
    pub spool_rec_id: Option<String>,
    pub weight: WeightDisplay,
    pub used_in_print: bool,
}

/// A filament on the display.
#[derive(Debug)]
pub struct UiFilament {
    pub color: u32,
    pub material: String,
}

/// The slot with an id.
pub open spec fn tray_with_id(printer: BambuPrinter, id: i32) -> Tray {
    if id == EXTERNAL_TRAY {
        printer.virt_tray
    } else {
        printer.ams_trays@[id as int]
    }
}

/// The slot with an id can be shown.
pub open spec fn tray_shown(store: Store, printer: BambuPrinter, id: i32) -> bool {
    &&& id != EXTERNAL_TRAY ==> 0 <= id < printer.ams_trays@.len()
    &&& weights_fit(store, tray_with_id(printer, id))
    &&& filament_view(tray_with_id(printer, id).filament) is Some ==> {
        let color = filament_view(tray_with_id(printer, id).filament)->0.color;
        color.len() >= 6 && hex_digits(color_digits(color))
    }
}

/// The row for the slot with an id.
pub fn tray_row(store: &Store, printer: &BambuPrinter, id: i32) -> (r: UiTray)
    requires
        store.wf(),
        tray_shown(*store, *printer, id),
    ensures
        ({
            let tray = tray_with_id(*printer, id);
            &&& r.id == id
            &&& r.spool_state == ui_tray_state(tray.state)
            &&& r.spool_rec_id == tray.meta_info.spool_id
            &&& r.used_in_print == tray.meta_info.used_in_print
            &&& r.weight == shown_weight(*store, tray)
            &&& r.weight == (match weight_base(*store, tray) {
                Some(w) => WeightDisplay::Left(w as i32),
                None => if tray.meta_info.consumed_since_load.is_zero() {
                    WeightDisplay::Nothing
                } else {
                    WeightDisplay::Used
                },
            })
            &&& match filament_view(tray.filament) {
                Some(f) => {
                    &&& r.filament is Some
                    &&& r.filament->0.color == color_of(f.color)
                    &&& r.filament->0.material@ == f.material
                },
                None => r.filament is None,
            }
        }),
{
    let tray = if id == EXTERNAL_TRAY { &printer.virt_tray } else { &printer.ams_trays[id as usize] };
    let filament = match &tray.filament {
        Filament::Unknown => None,
        Filament::Known(info) => Some(
            UiFilament { color: read_color(info.tray_color.as_str()), material: info.tray_type.clone() },
        ),
    };
    let spool_rec_id = match &tray.meta_info.spool_id {
        Some(id) => Some(id.clone()),
        None => None,
    };
    UiTray {
        id,
        spool_state: UiTrayState::from(tray.state),
        filament,
        spool_rec_id,
        weight: weight_display(store, tray),
        used_in_print: tray.meta_info.used_in_print,
    }
}

/// Whether the slot with an id can be shown.
pub fn can_show_tray(store: &Store, printer: &BambuPrinter, id: i32) -> (r: bool)
    requires
        store.wf(),
    ensures
        r == tray_shown(*store, *printer, id),
{
    if id != EXTERNAL_TRAY && (id < 0 || id as usize >= printer.ams_trays.len()) {
        return false;
    }
    let tray = if id == EXTERNAL_TRAY { &printer.virt_tray } else { &printer.ams_trays[id as usize] };
    can_weigh(store, tray) && match &tray.filament {
        Filament::Unknown => true,
        Filament::Known(info) => can_read_color(info.tray_color.as_str()),
    }
}

/// Whether a code begins with the digits of a color.
pub fn can_read_color(code: &str) -> (r: bool)
    ensures
        r == (code@.len() >= 6 && hex_digits(color_digits(code@))),
{
    let chars = chars_of(code);
    if chars.len() < 6 {
        return false;
    }
    let from: usize = if chars[0] == '+' { 1 } else { 0 };
    let digits = cut(chars.as_slice(), from, 6);
    proof {
        assert(digits@ =~= color_digits(code@));
    }
    let mut i: usize = 0;
    while i < digits.len()
        invariant
            i <= digits@.len(),
            digits@ == color_digits(code@),
            code@.len() >= 6,
            forall|j: int| 0 <= j < i ==> digit_value(#[trigger] digits@[j]) is Some,
        decreases digits@.len() - i,
    {
        let c = digits[i];
        if !(('0' <= c && c <= '9') || ('A' <= c && c <= 'F') || ('a' <= c && c <= 'f')) {
            proof {
                assert(digit_value(digits@[i as int]) is None);
            }
            return false;
        }
        i += 1;
    }
    true
}

/// Whether the differences of the weights that are looked at can be held.
pub fn can_weigh(store: &Store, tray: &Tray) -> (r: bool)
    requires
        store.wf(),
    ensures
        r == weights_fit(*store, *tray),
{
    match &tray.meta_info.spool_id {
        None => true,
        Some(id) => match store.get_spool_by_id(id.as_str()) {
            None => true,
            Some(spool) => match (spool.weight_current, spool.weight_core) {
                (Some(current), Some(core)) => in_i32(current as i64 - core as i64),
                (Some(current), None) => match (spool.weight_new, spool.weight_advertised) {
                    (Some(new), Some(advertised)) => in_i32(new as i64 - advertised as i64) && in_i32(
                        current as i64 - (new as i64 - advertised as i64),
                    ),
                    _ => true,
                },
                _ => true,
            },
        },
    }
}

fn in_i32(n: i64) -> (r: bool)
    ensures
        r == (i32::MIN <= n <= i32::MAX),
{
    i32::MIN as i64 <= n && n <= i32::MAX as i64
}

/// The filament on a spool is its weight without the core, whatever else is known of it.
/// Without the weight of the core it is what was advertised, less by how much lighter the
/// spool is than when it was new. Without its weight, or that of either, nothing is known.
pub proof fn weight_of_the_core_is_enough(store: Store, tray: Tray)
    ensures
        tray.meta_info.spool_id is None ==> weight_base(store, tray) is None,
        tray.meta_info.spool_id is Some ==> {
            let found = store.rec(tray.meta_info.spool_id->0@);
            let spool = found->0;
            let left = weight_base(store, tray);
            &&& found is None ==> left is None
            &&& found is Some && spool.weight_current is None ==> left is None
            &&& found is Some && spool.weight_current is Some && spool.weight_core is Some ==> left == Some(
                spool.weight_current->0 - spool.weight_core->0,
            )
            &&& found is Some && spool.weight_current is Some && spool.weight_core is None ==> {
                &&& left is Some <==> spool.weight_new is Some && spool.weight_advertised is Some
                &&& left is Some ==> left->0 + (spool.weight_new->0 - spool.weight_current->0)
                    == spool.weight_advertised->0
            }
        },
{
}

/// The weights of a slot can be looked at where the differences that are taken can be held:
/// that of weight and core, or without the core those of the new weight and what was
/// advertised, and of the weight and that.
pub proof fn weights_that_can_be_held_are_shown(store: Store, tray: Tray)
    ensures
        weights_fit(store, tray) && weight_base(store, tray) is Some ==> i32::MIN <= weight_base(store, tray)->0
            <= i32::MAX,
        weight_base(store, tray) is None ==> weights_fit(store, tray),
        tray.meta_info.spool_id is Some && store.rec(tray.meta_info.spool_id->0@) is Some ==> {
            let spool = store.rec(tray.meta_info.spool_id->0@)->0;
            spool.weight_current is Some && spool.weight_core is Some && i32::MIN <= spool.weight_current->0
                - spool.weight_core->0 <= i32::MAX ==> weights_fit(store, tray)
        },
{
}

/// The six digits of a color are read two by two for red, green and blue, in either case,
/// and the color is opaque.
pub proof fn color_is_read_from_its_digits(code: Seq<char>)
    requires
        code.len() >= 6,
        code[0] != '+',
        hex_digits(code.take(6)),
    ensures
        ({
            let red = digit_value(code[0])->0 * 16 + digit_value(code[1])->0;
            let green = digit_value(code[2])->0 * 16 + digit_value(code[3])->0;
            let blue = digit_value(code[4])->0 * 16 + digit_value(code[5])->0;
            color_of(code) == 0xff00_0000 + red * 0x1_0000 + green * 0x100 + blue
        }),
        hex_digits(color_digits(code)),
{
    let s = code.take(6);
    assert(s[0] == code[0]);
    reveal_with_fuel(hex_value, 7);
    assert(s.drop_last() =~= code.take(5));
    assert(code.take(5).drop_last() =~= code.take(4));
    assert(code.take(4).drop_last() =~= code.take(3));
    assert(code.take(3).drop_last() =~= code.take(2));
    assert(code.take(2).drop_last() =~= code.take(1));
    assert(code.take(1).drop_last() =~= code.take(0));
}

/// A hexadecimal digit stands for its value, in either case; no other character does.
pub proof fn hexadecimal_digits_have_their_values(c: char)
    ensures
        '0' <= c && c <= '9' ==> digit_value(c) == Some(c as int - 48),
        'A' <= c && c <= 'F' ==> digit_value(c) == Some(c as int - 55),
        'a' <= c && c <= 'f' ==> digit_value(c) == Some(c as int - 87),
        digit_value(c) is Some <==> ('0' <= c && c <= '9') || ('A' <= c && c <= 'F') || ('a' <= c && c <= 'f'),
{
}

proof fn lemma_ams_list(bits: u32, n: int) -> (at: Seq<int>)
    requires
        0 <= n <= 12,
    ensures
        lists_marked(at, Seq::new(n as nat, |i: int| (bits >> (i as u32)) & 1 != 0)),
        ams_list(bits, n).len() == at.len(),
        forall|k: int| 0 <= k < at.len() ==> #[trigger] ams_list(bits, n)[k] == at[k],
    decreases n,
{
    let marks = Seq::new(n as nat, |i: int| (bits >> (i as u32)) & 1 != 0);
    if n == 0 {
        assert(lists_marked(seq![], marks));
        seq![]
    } else {
        let at = lemma_ams_list(bits, n - 1);
        let fewer = Seq::new((n - 1) as nat, |i: int| (bits >> (i as u32)) & 1 != 0);
        lemma_lists_marked(at, fewer, ams_exists(bits, n - 1));
        assert(fewer.push(ams_exists(bits, n - 1)) =~= marks);
        if ams_exists(bits, n - 1) {
            at.push(n - 1)
        } else {
            at
        }
    }
}

/// The filament units that are there are exactly those of the twelve whose bit is set, in
/// rising order.
pub proof fn units_are_there_by_their_bits(bits: u32) -> (at: Seq<int>)
    ensures
        lists_marked(at, Seq::new(12, |i: int| (bits >> (i as u32)) & 1 != 0)),
        ams_list(bits, MAX_AMS as int).len() == at.len(),
        forall|k: int| 0 <= k < at.len() ==> #[trigger] ams_list(bits, MAX_AMS as int)[k] == at[k],
{
    lemma_ams_list(bits, 12)
}

/// The first calibration with the index of a slot gives its value and name; where none has
/// it, the printer's default is shown.
pub proof fn first_calibration_with_the_index_is_shown(calibrations: Seq<Calibration>, cali_idx: i32, i: int)
    requires
        0 <= i <= calibrations.len(),
        forall|j: int| 0 <= j < i ==> (#[trigger] calibrations[j]).cali_idx != cali_idx,
        i < calibrations.len() ==> calibrations[i].cali_idx == cali_idx,
    ensures
        i < calibrations.len() ==> calibration_text(calibrations, cali_idx) == calibrations[i].k_value@ + seq![',', ' ']
            + calibrations[i].name@,
        i == calibrations.len() ==> calibration_text(calibrations, cali_idx) == seq!['0', '.', '2', ',', ' '],
    decreases calibrations.len(),
{
    reveal_strlit(", ");
    reveal_strlit("0.2");
    assert(", "@ =~= seq![',', ' ']);
    assert("0.2"@ + ", "@ =~= seq!['0', '.', '2', ',', ' ']);
    if calibrations.len() > 0 && i > 0 {
        assert(calibrations[0].cali_idx != cali_idx);
        let rest = calibrations.skip(1);
        assert forall|j: int| 0 <= j < i - 1 implies (#[trigger] rest[j]).cali_idx != cali_idx by {
            assert(calibrations[j + 1].cali_idx != cali_idx);
        }
        first_calibration_with_the_index_is_shown(rest, cali_idx, i - 1);
    }
}

/// The display knows a slot's state by the same name.
pub proof fn states_keep_their_names(v: TrayState)
    ensures
        v is Unknown <==> ui_tray_state(v) is Unknown,
        v is Empty <==> ui_tray_state(v) is Empty,
        v is Spool <==> ui_tray_state(v) is Spool,
        v is Reading <==> ui_tray_state(v) is Reading,
        v is Ready <==> ui_tray_state(v) is Ready,
        v is Loading <==> ui_tray_state(v) is Loading,
        v is Unloading <==> ui_tray_state(v) is Unloading,
        v is Loaded <==> ui_tray_state(v) is Loaded,
{
}

/// A staged spool is announced by how it came there, and only where that is to be told.
pub proof fn staged_spool_is_announced_by_its_origin(origin: StagingOrigin, notify_operation: bool)
    ensures
        staging_notice(origin, notify_operation) is Read <==> notify_operation && origin == StagingOrigin::Scanned,
        staging_notice(origin, notify_operation) is Encoded <==> notify_operation && origin == StagingOrigin::Encoded,
        staging_notice(origin, notify_operation) is Unloaded <==> notify_operation && origin == StagingOrigin::Unloaded,
{
}

/// The slots count from zero, and the external one has the number 254.
pub proof fn slots_are_found_by_their_ids(printer: BambuPrinter, id: i32)
    ensures
        id == 254 ==> tray_with_id(printer, id) == printer.virt_tray,
        0 <= id < printer.ams_trays@.len() && id != 254 ==> tray_with_id(printer, id) == printer.ams_trays@[id as int],
{
}

/// A filament of the slicer is shown with its name and temperatures, marked where it is
/// one of the slicer's own; one that is not known is shown by nothing.
pub proof fn known_filament_is_shown(lists: FilamentLists, code: Seq<char>, material: Option<Seq<char>>)
    ensures
        ({
            let shown = slicer_view(lists, code, material);
            match lists.lookup(code, material) {
                Some(found) => {
                    &&& shown.temp_min == found.entry.low
                    &&& shown.temp_max == found.entry.high
                    &&& !found.base_filament ==> shown.name == found.entry.name
                    &&& found.base_filament ==> shown.name == found.entry.name + " (base)"@
                },
                None => shown.name.len() == 0 && shown.temp_min == 0 && shown.temp_max == 0,
            }
        }),
{
}

/// The title of a slot is brand, material and color with a blank between any two, without
/// the blanks at its ends.
pub proof fn title_is_brand_material_and_color(brand: Seq<char>, material: Seq<char>, color: Seq<char>)
    requires
        brand.len() > 0,
        color.len() > 0,
        !white_space(brand[0]),
        !white_space(color.last()),
    ensures
        title_of(brand, material, color) == brand + seq![' '] + material + seq![' '] + color,
{
    let whole = brand + seq![' '] + material + seq![' '] + color;
    assert(whole[0] == brand[0]);
    assert(whole.last() == color.last());
    assert(trim_start(whole) == whole);
    assert(trim_end(whole) == whole);
}

/// A slot shows the color, the material and the code of its filament, where it is known.
pub proof fn known_filament_of_a_slot_is_shown(filament: Filament)
    ensures
        filament is Unknown <==> filament_view(filament) is None,
        filament matches Filament::Known(info) ==> filament_view(filament)->0.color == info.tray_color@ && filament_view(
            filament,
        )->0.material == info.tray_type@ && filament_view(filament)->0.code == info.tray_info_idx@,
{
}

/// A code is one of a color from six bytes on. A weight that is not known is shown as zero.
pub proof fn short_codes_are_no_colors(code: Seq<char>, n: Option<i32>)
    ensures
        long_enough(code) <==> encode_utf8(code).len() > 5,
        !long_enough(code) ==> color_ok(code),
        n is Some ==> or_zero(n) == n->0,
        n is None ==> or_zero(n) == 0,
{
}

/// The brand of a filament is the one that its name names; a filament without name has none.
pub proof fn brand_is_looked_for_in_the_name(lists: FilamentLists, name: Seq<char>)
    ensures
        ({
            let found = crate::filament_info::picked(
                crate::filament_info::lowered(name),
                lists.brand_keywords(),
                lists.brand_names(),
            );
            &&& name.len() == 0 ==> shown_brand(lists, name).len() == 0
            &&& name.len() > 0 && found is Some ==> shown_brand(lists, name) == found->0
            &&& found is None ==> shown_brand(lists, name).len() == 0
        }),
{
}

/// A slot can be shown where it is there, its weights can be looked at, and the color of its
/// filament, if that is known, begins with six digits.
pub proof fn slots_with_readable_colors_can_be_shown(store: Store, printer: BambuPrinter, id: i32)
    ensures
        tray_shown(store, printer, id) <==> (id == 254 || 0 <= id < printer.ams_trays@.len()) && weights_fit(
            store,
            tray_with_id(printer, id),
        ) && (tray_with_id(printer, id).filament matches Filament::Known(info) ==> info.tray_color@.len() >= 6
            && hex_digits(color_digits(info.tray_color@))),
{
}

/// What is left on a spool is shown where it is known. Else what was used of it is shown,
/// unless that is nothing.
pub proof fn what_is_left_goes_before_what_was_used(store: Store, tray: Tray)
    requires
        weights_fit(store, tray),
    ensures
        weight_base(store, tray) is Some <==> shown_weight(store, tray) is Left,
        shown_weight(store, tray) matches WeightDisplay::Left(w) ==> weight_base(store, tray) == Some(w as int),
        shown_weight(store, tray) is Used <==> weight_base(store, tray) is None
            && tray.meta_info.consumed_since_load.bits != 0 && tray.meta_info.consumed_since_load.bits != 0x8000_0000,
{
}

/// The first unit that is there is shown where the one that is shown comes before it; a unit
/// behind it stays.
pub proof fn first_unit_is_shown_from_before(exists: Seq<i32>, shown: i32)
    requires
        exists.len() > 0,
    ensures
        shown < exists[0] ==> unit_to_show(exists, shown) == Some(exists[0]),
        shown >= exists[0] ==> unit_to_show(exists, shown) is None,
{
}

} // verus!
