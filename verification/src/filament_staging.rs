//! The staging area: the filament that was scanned, encoded or unloaded last, until it
//! is put into a slot.

use crate::bambu::BambuPrinter;
use crate::hex_text::hex_upper;
use crate::spool_record::{KExtruder, KInfo, KNozzleDiameter, KNozzleId, KPrinter, SpoolRecord};
use crate::store::Store;
use crate::text::is_blank;
use crate::text_map::{NumberMap, TextMap};
use vstd::prelude::*;

verus! {

/// A calibration on a tag.
#[derive(Debug)]
pub struct TagCalibration {
    pub name: String,
    pub k_value: String,
    pub setting_id: Option<String>,
    pub cali_idx: i32,
}

/// What a tag says of its spool.
pub struct TagInformation {
    pub tag_id: Option<Vec<u8>>,
    pub note: Option<String>,
    /// The calibrations, by nozzle diameter.
    pub calibrations: TextMap<TagCalibration>,
    /// The printer that the calibrations are for: a hash of its serial number, and its
    /// name.
    pub calibrations_printer_uuid: String,
    pub calibrations_printer_name: String,
}

/// How the filament came into the staging area.
#[derive(Clone, Copy, Debug, PartialEq, Eq, Structural)]
pub enum StagingOrigin {
    Empty,
    Scanned,
    Encoded,
    Unloaded,
}

/// The staging area.
pub struct FilamentStaging {
    pub tag_info: Option<TagInformation>,
    pub spool_record: Option<SpoolRecord>,
    pub origin: StagingOrigin,
}

impl FilamentStaging {
    /// An empty staging area.
    pub fn new() -> (r: Self)
        ensures
            r.tag_info is None,
            r.spool_record is None,
            r.origin == StagingOrigin::Empty,
    {
        FilamentStaging { tag_info: None, spool_record: None, origin: StagingOrigin::Empty }
    }

    /// Whether no tag is staged.
    pub fn is_empty(&self) -> (r: bool)
        ensures
            r == (self.tag_info is None),
    {
        self.tag_info.is_none()
    }

    /// Empties the staging area.
    pub fn clear(&mut self)
        ensures
            final(self).tag_info is None,
            final(self).spool_record is None,
            final(self).origin == StagingOrigin::Empty,
    {
        self.tag_info = None;
        self.spool_record = None;
        self.origin = StagingOrigin::Empty;
    }

    /// The tag.
    pub fn tag_info(&self) -> (r: &Option<TagInformation>)
        ensures
            *r == self.tag_info,
    {
        &self.tag_info
    }

    /// The record of the spool.
    pub fn spool_record(&self) -> (r: &Option<SpoolRecord>)
        ensures
            *r == self.spool_record,
    {
        &self.spool_record
    }

    /// The tag, to be changed.
    pub fn tag_info_mut(&mut self) -> (r: &mut Option<TagInformation>)
        ensures
            *r == old(self).tag_info,
            *final(self) == (FilamentStaging { tag_info: *final(r), ..*old(self) }),
    {
        &mut self.tag_info
    }

    /// How the filament came here.
    pub fn origin(&self) -> (r: &StagingOrigin)
        ensures
            *r == self.origin,
    {
        &self.origin
    }

    /// The spool in the store that a tag belongs to, where the store is to be asked: the
    /// tag was scanned or its spool was unloaded.
    pub open spec fn spool_of(tag_info: TagInformation, origin: StagingOrigin, store: Store) -> Option<SpoolRecord> {
        if origin == StagingOrigin::Scanned || origin == StagingOrigin::Unloaded {
            match tag_info.tag_id {
                Some(tag_id) => store.owner(hex_upper(tag_id@)),
                None => None,
            }
        } else {
            None
        }
    }

    /// Stages a tag. The spool that the store has for it is staged too, and its note
    /// replaces the one on the tag.
    pub fn set_tag_info(&mut self, tag_info: TagInformation, origin: StagingOrigin, store: &Store)
        requires
            store.wf(),
        ensures
            final(self).origin == origin,
            final(self).tag_info is Some,
            match Self::spool_of(tag_info, origin, *store) {
                Some(spool) => {
                    &&& final(self).spool_record == Some(spool)
                    &&& final(self).tag_info->0 == (TagInformation { note: Some(spool.note), ..tag_info })
                },
                None => {
                    &&& final(self).spool_record == old(self).spool_record
                    &&& final(self).tag_info->0 == tag_info
                },
            },
    {
        let mut tag_info = tag_info;
        if origin == StagingOrigin::Scanned || origin == StagingOrigin::Unloaded {
            let found = match &tag_info.tag_id {
                Some(tag_id) => store.get_spool_by_tag_id(tag_id.as_slice()),
                None => None,
            };
            if let Some(spool) = found {
                tag_info.note = Some(spool.note.clone());
                self.spool_record = Some(spool);
            }
        }
        self.tag_info = Some(tag_info);
        self.origin = origin;
    }
}

/// The last of the printers with a hash of its serial number, or with a name.
pub open spec fn last_with(printers: Seq<BambuPrinter>, text: Seq<char>, by_uuid: bool) -> Option<BambuPrinter>
    decreases printers.len(),
{
    if printers.len() == 0 {
        None
    } else {
        let last = printers.last();
        if text == (if by_uuid {
            last.printer_uuid_to_encode@
        } else {
            last.printer_name@
        }) {
            Some(last)
        } else {
            last_with(printers.drop_last(), text, by_uuid)
        }
    }
}

/// The printer that the calibrations on a tag are for: the last one with the hash on
/// the tag, else the last one with the name on it.
pub open spec fn calibrated_printer(printers: Seq<BambuPrinter>, tag: TagInformation) -> Option<BambuPrinter> {
    let by_uuid = if tag.calibrations_printer_uuid@.len() > 0 {
        last_with(printers, tag.calibrations_printer_uuid@, true)
    } else {
        None
    };
    if by_uuid is Some {
        by_uuid
    } else if tag.calibrations_printer_name@.len() > 0 {
        last_with(printers, tag.calibrations_printer_name@, false)
    } else {
        None
    }
}

fn find_printer(printers: &Vec<BambuPrinter>, text: &String, by_uuid: bool) -> (r: Option<usize>)
    ensures
        ({
            let found = last_with(printers@, text@, by_uuid);
            &&& r is Some <==> found is Some
            &&& r is Some ==> r->0 < printers@.len() && printers@[r->0 as int] == found->0
        }),
{
    let mut n: usize = printers.len();
    proof {
        assert(printers@.take(n as int) =~= printers@);
    }
    while n > 0
        invariant
            n <= printers@.len(),
            last_with(printers@.take(n as int), text@, by_uuid) == last_with(printers@, text@, by_uuid),
        decreases n,
    {
        proof {
            assert(printers@.take(n as int).drop_last() =~= printers@.take(n - 1));
            assert(printers@.take(n as int).last() == printers@[n - 1]);
        }
        let matches = if by_uuid {
            printers[n - 1].printer_uuid_to_encode == *text
        } else {
            printers[n - 1].printer_name == *text
        };
        if matches {
            return Some(n - 1);
        }
        n -= 1;
    }
    None
}

/// One of the calibrations on a tag, and nothing else, is kept for the printer that they
/// are for.
pub open spec fn k_info_of(printers: Seq<BambuPrinter>, tag: TagInformation, k_info: KInfo) -> bool {
    let serial = calibrated_printer(printers, tag)->0.printer_serial@;
    &&& k_info.wf()
    &&& exists|diameter: Seq<char>|
        {
            &&& #[trigger] tag.calibrations@.contains_key(diameter)
            &&& k_info.holds_only(serial, diameter, tag.calibrations@[diameter])
        }
}

impl KInfo {
    /// The only calibration is one from a tag, for a printer, its first extruder and a
    /// diameter.
    pub open spec fn holds_only(self, serial: Seq<char>, diameter: Seq<char>, on_tag: TagCalibration) -> bool {
        let kept = self.calibration(serial, 0, diameter, Seq::empty());
        &&& kept is Some
        &&& kept->0.name == on_tag.name
        &&& kept->0.k_value == on_tag.k_value
        &&& kept->0.setting_id == on_tag.setting_id
        &&& kept->0.cali_idx == on_tag.cali_idx
        &&& self.printers@.dom() == set![serial]
        &&& self.printers@[serial].extruders@.dom() == set![0i32]
        &&& self.printers@[serial].extruders@[0i32].diameters@.dom() == set![diameter]
        &&& self.printers@[serial].extruders@[0i32].diameters@[diameter].nozzles@.dom() == set![Seq::<char>::empty()]
    }
}

/// The calibrations on an old tag, for the printer that they are for. A tag holds one;
/// of several any may be taken.
pub fn k_info_from_tag(printers: &Vec<BambuPrinter>, tag_with_k: &TagInformation) -> (r: Option<KInfo>)
    requires
        tag_with_k.calibrations.wf(),
    ensures
        r is Some <==> tag_with_k.calibrations.order().len() > 0 && calibrated_printer(printers@, *tag_with_k) is Some,
        r is Some ==> k_info_of(printers@, *tag_with_k, r->0),
{
    if tag_with_k.calibrations.len() == 0 {
        return None;
    }
    let mut found: Option<usize> = None;
    if !is_blank(tag_with_k.calibrations_printer_uuid.as_str()) {
        found = find_printer(printers, &tag_with_k.calibrations_printer_uuid, true);
    }
    if found.is_none() && !is_blank(tag_with_k.calibrations_printer_name.as_str()) {
        found = find_printer(printers, &tag_with_k.calibrations_printer_name, false);
    }
    match found {
        None => None,
        Some(index) => {
            let printer = &printers[index];
            let diameter = tag_with_k.calibrations.key_at(0).clone();
            let on_tag = tag_with_k.calibrations.value_at(0);
            let nozzle = KNozzleId {
                name: on_tag.name.clone(),
                k_value: on_tag.k_value.clone(),
                cali_idx: on_tag.cali_idx,
                setting_id: match &on_tag.setting_id {
                    Some(s) => Some(s.clone()),
                    None => None,
                },
            };
            let mut nozzles: TextMap<KNozzleId> = TextMap::new();
            let no_nozzle = String::new();
            proof {
                assert(no_nozzle@ =~= Seq::<char>::empty());
            }
            nozzles.insert(no_nozzle, nozzle);
            proof {
                assert(nozzles@.dom() =~= set![Seq::<char>::empty()]);
            }
            let mut diameters: TextMap<KNozzleDiameter> = TextMap::new();
            diameters.insert(diameter, KNozzleDiameter { nozzles });
            let mut extruders: NumberMap<KExtruder> = NumberMap::new();
            extruders.insert(0, KExtruder { diameters });
            let mut k_printers: TextMap<KPrinter> = TextMap::new();
            k_printers.insert(printer.printer_serial.clone(), KPrinter { extruders });
            let r = KInfo { printers: k_printers };
            proof {
                assert(tag_with_k.calibrations@.contains_key(diameter@));
                assert(r.printers@.dom() =~= set![printer.printer_serial@]);
                assert(r.printers@[printer.printer_serial@].extruders@.dom() =~= set![0i32]);
                assert(r.printers@[printer.printer_serial@].extruders@[0i32].diameters@.dom() =~= set![diameter@]);
                assert(r.holds_only(printer.printer_serial@, diameter@, tag_with_k.calibrations@[diameter@]));
            }
            Some(r)
        },
    }
}

/// The store is asked for the spool of a tag that was scanned, or whose spool was unloaded,
/// and for no other. A tag without id belongs to no spool.
pub proof fn scanned_and_unloaded_tags_have_their_spools(tag_info: TagInformation, origin: StagingOrigin, store: Store)
    ensures
        origin == StagingOrigin::Empty || origin == StagingOrigin::Encoded || tag_info.tag_id is None
            ==> FilamentStaging::spool_of(tag_info, origin, store) is None,
        (origin == StagingOrigin::Scanned || origin == StagingOrigin::Unloaded) && tag_info.tag_id is Some
            ==> FilamentStaging::spool_of(tag_info, origin, store) == store.owner(hex_upper(tag_info.tag_id->0@)),
{
}

/// Of several printers with a name, or a hash of a serial number, the last one counts.
pub proof fn last_printer_with_the_name_counts(printers: Seq<BambuPrinter>, text: Seq<char>, by_uuid: bool, i: int)
    requires
        -1 <= i < printers.len(),
        i >= 0 ==> (if by_uuid {
            printers[i].printer_uuid_to_encode@ == text
        } else {
            printers[i].printer_name@ == text
        }),
        forall|j: int|
            i < j < printers.len() ==> if by_uuid {
                (#[trigger] printers[j]).printer_uuid_to_encode@ != text
            } else {
                printers[j].printer_name@ != text
            },
    ensures
        last_with(printers, text, by_uuid) == (if i >= 0 {
            Some(printers[i])
        } else {
            None
        }),
    decreases printers.len(),
{
    if printers.len() > 0 && i < printers.len() - 1 {
        assert(printers[printers.len() - 1] == printers.last());
        last_printer_with_the_name_counts(printers.drop_last(), text, by_uuid, i);
    }
}

/// The calibrations on a tag are for the printer with its hash. Where the tag has none, or
/// no printer has it, they are for the printer with its name, where it has one.
pub proof fn hash_goes_before_the_name(printers: Seq<BambuPrinter>, tag: TagInformation)
    ensures
        ({
            let by_uuid = last_with(printers, tag.calibrations_printer_uuid@, true);
            let by_name = last_with(printers, tag.calibrations_printer_name@, false);
            let has_uuid = tag.calibrations_printer_uuid@.len() > 0 && by_uuid is Some;
            let found = calibrated_printer(printers, tag);
            &&& has_uuid ==> found == by_uuid
            &&& !has_uuid && tag.calibrations_printer_name@.len() > 0 ==> found == by_name
            &&& !has_uuid && tag.calibrations_printer_name@.len() == 0 ==> found is None
        }),
{
}

/// What is kept of the calibrations on a tag is one of them, as it stands there, for the
/// first extruder of the printer and no particular nozzle.
pub proof fn one_calibration_of_the_tag_is_kept(printers: Seq<BambuPrinter>, tag: TagInformation, k_info: KInfo) -> (diameter: Seq<
    char,
>)
    requires
        k_info_of(printers, tag, k_info),
    ensures
        ({
            let serial = calibrated_printer(printers, tag)->0.printer_serial@;
            let kept = k_info.calibration(serial, 0, diameter, Seq::empty());
            let on_tag = tag.calibrations@[diameter];
            &&& tag.calibrations@.contains_key(diameter)
            &&& kept is Some
            &&& kept->0.name == on_tag.name
            &&& kept->0.k_value == on_tag.k_value
            &&& kept->0.cali_idx == on_tag.cali_idx
            &&& kept->0.setting_id == on_tag.setting_id
            &&& forall|p: Seq<char>, e: i32, d: Seq<char>, n: Seq<char>| #[trigger]
                k_info.calibration(p, e, d, n) is Some ==> p == serial && e == 0 && d == diameter && n.len() == 0
        }),
{
    let serial = calibrated_printer(printers, tag)->0.printer_serial@;
    let diameter = choose|diameter: Seq<char>|
        {
            &&& #[trigger] tag.calibrations@.contains_key(diameter)
            &&& k_info.holds_only(serial, diameter, tag.calibrations@[diameter])
        };
    assert forall|p: Seq<char>, e: i32, d: Seq<char>, n: Seq<char>| #[trigger] k_info.calibration(p, e, d, n) is Some implies p
        == serial && e == 0 && d == diameter && n.len() == 0 by {
        assert(k_info.printers@.dom().contains(p));
        assert(k_info.printers@[p].extruders@.dom().contains(e));
        assert(k_info.printers@[p].extruders@[e].diameters@.dom().contains(d));
        assert(k_info.printers@[p].extruders@[e].diameters@[d].nozzles@.dom().contains(n));
    }
    diameter
}

} // verus!
