//! What is kept of a spool: its record in the record file, and the extended record
//! in a file of its own.

use crate::csvdb::CsvDbId;
use crate::grams::Grams;
use crate::text_map::{NumberMap, TextMap};
use vstd::prelude::*;

verus! {

/// The record of a spool.
#[derive(Debug)]
pub struct SpoolRecord {
    pub id: String,
    pub tag_id: String,
    pub material_type: String,
    pub material_subtype: String,
    pub color_name: String,
    pub color_code: String,
    pub note: String,
    pub brand: String,
    pub weight_advertised: Option<i32>,
    pub weight_core: Option<i32>,
    pub weight_new: Option<i32>,
    pub weight_current: Option<i32>,
    pub slicer_filament: String,
    pub added_time: Option<i32>,
    pub encode_time: Option<i32>,
    pub added_full: Option<bool>,
    pub consumed_since_add: Grams,
    pub consumed_since_weight: Grams,
    pub ext_has_k: bool,
    /// Where the spool belongs.
    pub assigned_location: String,
    /// Where the spool is now.
    pub actual_location: String,
    /// How many spools the record stands for.
    pub spools_count: i32,
}

impl SpoolRecord {
    /// The texts of two records are equal.
    pub open spec fn same_texts(self, o: SpoolRecord) -> bool {
        &&& self.id@ == o.id@
        &&& self.tag_id@ == o.tag_id@
        &&& self.material_type@ == o.material_type@
        &&& self.material_subtype@ == o.material_subtype@
        &&& self.color_name@ == o.color_name@
        &&& self.color_code@ == o.color_code@
        &&& self.note@ == o.note@
        &&& self.brand@ == o.brand@
        &&& self.slicer_filament@ == o.slicer_filament@
        &&& self.assigned_location@ == o.assigned_location@
        &&& self.actual_location@ == o.actual_location@
    }

    /// The numbers and flags of two records are equal, the weights as numbers.
    pub open spec fn same_numbers(self, o: SpoolRecord) -> bool {
        &&& self.weight_advertised == o.weight_advertised
        &&& self.weight_core == o.weight_core
        &&& self.weight_new == o.weight_new
        &&& self.weight_current == o.weight_current
        &&& self.added_time == o.added_time
        &&& self.encode_time == o.encode_time
        &&& self.added_full == o.added_full
        &&& self.consumed_since_add.equals(o.consumed_since_add)
        &&& self.consumed_since_weight.equals(o.consumed_since_weight)
        &&& self.ext_has_k == o.ext_has_k
        &&& self.spools_count == o.spools_count
    }

    fn texts_equal(&self, o: &SpoolRecord) -> (r: bool)
        ensures
            r == self.same_texts(*o),
    {
        self.id == o.id && self.tag_id == o.tag_id && self.material_type == o.material_type && self.material_subtype
            == o.material_subtype && self.color_name == o.color_name && self.color_code == o.color_code && self.note
            == o.note && self.brand == o.brand && self.slicer_filament == o.slicer_filament && self.assigned_location
            == o.assigned_location && self.actual_location == o.actual_location
    }

    fn numbers_equal(&self, o: &SpoolRecord) -> (r: bool)
        ensures
            r == self.same_numbers(*o),
    {
        self.weight_advertised == o.weight_advertised && self.weight_core == o.weight_core && self.weight_new
            == o.weight_new && self.weight_current == o.weight_current && self.added_time == o.added_time
            && self.encode_time == o.encode_time && self.added_full == o.added_full && self.consumed_since_add.same_as(
            &o.consumed_since_add,
        ) && self.consumed_since_weight.same_as(&o.consumed_since_weight) && self.ext_has_k == o.ext_has_k
            && self.spools_count == o.spools_count
    }
}

impl CsvDbId for SpoolRecord {
    open spec fn key(&self) -> Seq<char> {
        self.id@
    }

    open spec fn equals(&self, other: &Self) -> bool {
        self.same_texts(*other) && self.same_numbers(*other)
    }

    fn id(&self) -> &String {
        &self.id
    }

    fn same_as(&self, other: &Self) -> bool {
        self.texts_equal(other) && self.numbers_equal(other)
    }
}

impl Clone for SpoolRecord {
    fn clone(&self) -> (r: Self)
        ensures
            r == *self,
    {
        SpoolRecord {
            id: self.id.clone(),
            tag_id: self.tag_id.clone(),
            material_type: self.material_type.clone(),
            material_subtype: self.material_subtype.clone(),
            color_name: self.color_name.clone(),
            color_code: self.color_code.clone(),
            note: self.note.clone(),
            brand: self.brand.clone(),
            weight_advertised: self.weight_advertised,
            weight_core: self.weight_core,
            weight_new: self.weight_new,
            weight_current: self.weight_current,
            slicer_filament: self.slicer_filament.clone(),
            added_time: self.added_time,
            encode_time: self.encode_time,
            added_full: self.added_full,
            consumed_since_add: self.consumed_since_add,
            consumed_since_weight: self.consumed_since_weight,
            ext_has_k: self.ext_has_k,
            assigned_location: self.assigned_location.clone(),
            actual_location: self.actual_location.clone(),
            spools_count: self.spools_count,
        }
    }
}

impl Default for SpoolRecord {
    fn default() -> (r: Self)
        ensures
            r.id@.len() == 0,
            r.tag_id@.len() == 0,
            r.material_type@.len() == 0,
            r.material_subtype@.len() == 0,
            r.color_name@.len() == 0,
            r.color_code@.len() == 0,
            r.note@.len() == 0,
            r.brand@.len() == 0,
            r.weight_advertised is None,
            r.weight_core is None,
            r.weight_new is None,
            r.weight_current is None,
            r.slicer_filament@.len() == 0,
            r.added_time is None,
            r.encode_time is None,
            r.added_full is None,
            r.consumed_since_add.bits == 0,
            r.consumed_since_weight.bits == 0,
            !r.ext_has_k,
            r.assigned_location@.len() == 0,
            r.actual_location@.len() == 0,
            r.spools_count == 1,
    {
        SpoolRecord {
            id: String::new(),
            tag_id: String::new(),
            material_type: String::new(),
            material_subtype: String::new(),
            color_name: String::new(),
            color_code: String::new(),
            note: String::new(),
            brand: String::new(),
            weight_advertised: None,
            weight_core: None,
            weight_new: None,
            weight_current: None,
            slicer_filament: String::new(),
            added_time: None,
            encode_time: None,
            added_full: None,
            consumed_since_add: Grams::zero(),
            consumed_since_weight: Grams::zero(),
            ext_has_k: false,
            assigned_location: String::new(),
            actual_location: String::new(),
            spools_count: 1,
        }
    }
}

/// A pressure advance calibration for a nozzle.
#[derive(Debug)]
pub struct KNozzleId {
    pub name: String,
    pub k_value: String,
    pub cali_idx: i32,
    pub setting_id: Option<String>,
}

/// The calibrations for the nozzles of a diameter, by nozzle.
pub struct KNozzleDiameter {
    pub nozzles: TextMap<KNozzleId>,
}

/// The calibrations for an extruder, by nozzle diameter.
pub struct KExtruder {
    pub diameters: TextMap<KNozzleDiameter>,
}

/// The calibrations for a printer, by extruder.
pub struct KPrinter {
    pub extruders: NumberMap<KExtruder>,
}

/// The calibrations of a filament, by printer.
pub struct KInfo {
    pub printers: TextMap<KPrinter>,
}

impl KInfo {
    /// The maps are well formed, at every depth.
    pub open spec fn wf(self) -> bool {
        &&& self.printers.wf()
        &&& forall|p: Seq<char>| #[trigger] self.printers@.contains_key(p) ==> self.printers@[p].wf()
    }

    /// The calibration for a printer, extruder, diameter and nozzle.
    pub open spec fn calibration(self, printer: Seq<char>, extruder: i32, diameter: Seq<char>, nozzle: Seq<char>) -> Option<
        KNozzleId,
    > {
        if !self.printers@.contains_key(printer) {
            None
        } else {
            let extruders = self.printers@[printer].extruders@;
            if !extruders.contains_key(extruder) {
                None
            } else {
                let diameters = extruders[extruder].diameters@;
                if !diameters.contains_key(diameter) || !diameters[diameter].nozzles@.contains_key(nozzle) {
                    None
                } else {
                    Some(diameters[diameter].nozzles@[nozzle])
                }
            }
        }
    }
}

impl KPrinter {
    /// The maps are well formed, at every depth.
    pub open spec fn wf(self) -> bool {
        &&& self.extruders.wf()
        &&& forall|e: i32| #[trigger] self.extruders@.contains_key(e) ==> self.extruders@[e].wf()
    }
}

impl KExtruder {
    /// The maps are well formed, at every depth.
    pub open spec fn wf(self) -> bool {
        &&& self.diameters.wf()
        &&& forall|d: Seq<char>| #[trigger] self.diameters@.contains_key(d) ==> self.diameters@[d].nozzles.wf()
    }
}

/// What is kept of a spool beside its record.
pub struct SpoolRecordExt {
    pub tag: Option<String>,
    pub k_info: Option<KInfo>,
}

impl Default for SpoolRecordExt {
    fn default() -> (r: Self)
        ensures
            r.tag is None,
            r.k_info is None,
    {
        SpoolRecordExt { tag: None, k_info: None }
    }
}

impl SpoolRecordExt {
    /// The calibration of the spool for a printer, extruder, diameter and nozzle.
    pub fn get_calibrations(&self, printer: &str, extruder: i32, diameter: &str, nozzle_id: &str) -> (r: Option<
        &KNozzleId,
    >)
        requires
            self.k_info is Some ==> self.k_info->0.wf(),
        ensures
            match self.k_info {
                None => r is None,
                Some(k) => match k.calibration(printer@, extruder, diameter@, nozzle_id@) {
                    Some(found) => r is Some && *r->0 == found,
                    None => r is None,
                },
            },
    {
        match &self.k_info {
            None => None,
            Some(k_info) => match k_info.printers.get(printer) {
                None => None,
                Some(printer) => match printer.extruders.get(extruder) {
                    None => None,
                    Some(extruder) => match extruder.diameters.get(diameter) {
                        None => None,
                        Some(diameter) => diameter.nozzles.get(nozzle_id),
                    },
                },
            },
        }
    }
}

/// All that is kept of a spool.
pub struct FullSpoolRecord {
    pub spool_rec: SpoolRecord,
    pub spool_rec_ext: SpoolRecordExt,
}

/// Two records count as the same, so that nothing is written, exactly where they agree in
/// every field: the texts, the numbers and the flags, and the used weights as numbers.
pub proof fn unchanged_record_agrees_in_every_field(a: SpoolRecord, b: SpoolRecord)
    ensures
        a.equals(&b) <==> {
            &&& a.id@ == b.id@
            &&& a.tag_id@ == b.tag_id@
            &&& a.material_type@ == b.material_type@
            &&& a.material_subtype@ == b.material_subtype@
            &&& a.color_name@ == b.color_name@
            &&& a.color_code@ == b.color_code@
            &&& a.note@ == b.note@
            &&& a.brand@ == b.brand@
            &&& a.weight_advertised == b.weight_advertised
            &&& a.weight_core == b.weight_core
            &&& a.weight_new == b.weight_new
            &&& a.weight_current == b.weight_current
            &&& a.slicer_filament@ == b.slicer_filament@
            &&& a.added_time == b.added_time
            &&& a.encode_time == b.encode_time
            &&& a.added_full == b.added_full
            &&& a.consumed_since_add.equals(b.consumed_since_add)
            &&& a.consumed_since_weight.equals(b.consumed_since_weight)
            &&& a.ext_has_k == b.ext_has_k
            &&& a.assigned_location@ == b.assigned_location@
            &&& a.actual_location@ == b.actual_location@
            &&& a.spools_count == b.spools_count
        },
        a.key() == a.id@,
{
}

/// The calibration of a spool is the one that stands under the printer, the extruder, the
/// diameter and the nozzle, and there is none where one of them is missing.
pub proof fn calibration_stands_under_its_keys(k: KInfo, printer: Seq<char>, extruder: i32, diameter: Seq<char>, nozzle: Seq<char>)
    ensures
        ({
            let p = k.printers@[printer];
            let e = p.extruders@[extruder];
            let d = e.diameters@[diameter];
            let known = k.printers@.contains_key(printer) && p.extruders@.contains_key(extruder)
                && e.diameters@.contains_key(diameter) && d.nozzles@.contains_key(nozzle);
            &&& k.calibration(printer, extruder, diameter, nozzle) is Some <==> known
            &&& known ==> k.calibration(printer, extruder, diameter, nozzle) == Some(d.nozzles@[nozzle])
        }),
{
}

} // verus!
