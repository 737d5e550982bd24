use spoolease::bambu::{BambuPrinter, Filament, PrinterModelSeries, Tray, TrayMetaInfo, TrayState};
use spoolease::bambu_print::{Fetch3mf, GcodeState};
use spoolease::csvdb::CsvDb;
use spoolease::filament_info::{decode_csv_field, pick_brand, FilamentLists};
use spoolease::filament_staging::{k_info_from_tag, FilamentStaging, StagingOrigin, TagCalibration, TagInformation};
use spoolease::grams::Grams;
use spoolease::spool_record::SpoolRecord;
use spoolease::store::Store;
use spoolease::text_map::TextMap;

fn lists() -> FilamentLists {
    FilamentLists {
        base_filaments: "GFA00,Bambu PLA Basic,190,230\r\nGFB00,\"Bambu \"\"ABS\"\"\",x,280\nshort,one,1\n".to_string(),
        custom_filaments: Some("GFA00,mine,1,2\nP123,My PETG,220,250,extra\n".to_string()),
        materials: "Material,Code,Low,High\nPLA,GFA00,190,230\nABS,GFB00,low,280\nABS,GFB00,240,280\nPA,GFX,1,2\n".to_string(),
        brands: "Bambu\nprusament,Prusa Research\nÖko\n".to_string(),
    }
}

#[test]
fn filament_is_looked_up_by_code() {
    let l = lists();
    let own = l.get_filament_info("GFA00", None).unwrap();
    assert_eq!((own.slicer_name.as_str(), own.nozzle_temp_low, own.nozzle_temp_high), ("Bambu PLA Basic", 190, 230));
    assert!(own.base_filament && !own.origin_is_material);
    let quoted = l.get_filament_info("GFB00", None).unwrap();
    assert_eq!((quoted.slicer_name.as_str(), quoted.nozzle_temp_low, quoted.nozzle_temp_high), ("Bambu \"ABS\"", 0, 280));
    let custom = l.get_filament_info("P123", Some("PLA")).unwrap();
    assert_eq!((custom.slicer_name.as_str(), custom.slicer_code.as_str()), ("My PETG", "P123"));
    assert!(!custom.base_filament && !custom.origin_is_material);
    assert!(l.get_filament_info("short", None).is_none());
    assert!(l.get_filament_info("", None).is_none());
}

#[test]
fn material_stands_in_for_an_unknown_code() {
    let l = lists();
    let stand_in = l.get_filament_info("?", Some("PLA")).unwrap();
    assert_eq!(stand_in.slicer_code, "GFA00");
    assert!(stand_in.origin_is_material && stand_in.base_filament);
    assert_eq!(l.get_filament_info("?", Some("ABS")).unwrap().slicer_code, "GFB00");
    assert!(l.get_filament_info("?", Some("PA")).is_none());
    assert!(l.get_filament_info("?", Some("Material")).is_none());
    assert!(l.get_filament_info("?", None).is_none());
}

#[test]
fn quotes_are_taken_from_fields() {
    let field = |s: &str| decode_csv_field(&s.chars().collect::<Vec<_>>());
    assert_eq!(field("plain"), "plain");
    assert_eq!(field("\"a \"\"b\"\"\""), "a \"b\"");
    assert_eq!(field("\""), "\"");
    assert_eq!(field("\"\""), "");
    assert_eq!(field("\"open"), "\"open");
}

#[test]
fn brands_are_found_whatever_their_case() {
    let l = lists();
    assert_eq!(l.get_brand_from_text("BAMBU PLA").unwrap(), "Bambu");
    assert_eq!(l.get_brand_from_text("Generic PRUSAMENT").unwrap(), "Prusa Research");
    assert_eq!(l.get_brand_from_text("Prusament for Bambu").unwrap(), "Prusa Research");
    assert_eq!(l.get_brand_from_text("like öKO").unwrap(), "Öko");
    assert!(l.get_brand_from_text("Generic PLA").is_none());
    let chars = |s: &str| s.chars().collect::<Vec<_>>();
    assert_eq!(pick_brand(&chars("bc a"), &vec![chars("a"), chars("bc")], &vec![chars("A"), chars("B")]).unwrap(), "B");
    assert_eq!(pick_brand(&chars("x bc a"), &vec![chars("a"), chars("bc")], &vec![chars("A"), chars("B")]).unwrap(), "A");
}

fn store_with(records: Vec<SpoolRecord>) -> Store {
    let mut store = Store::new();
    let (mut db, _) = CsvDb::new("s", "", 64).unwrap();
    for (i, r) in records.into_iter().enumerate() {
        db.complete_insert(r, 64 * i as u32, 1);
    }
    store.spools_db = Some(db);
    store.finish_opening(true);
    store
}

fn tag(id: Option<Vec<u8>>) -> TagInformation {
    TagInformation {
        tag_id: id,
        note: Some("on tag".to_string()),
        calibrations: TextMap::new(),
        calibrations_printer_uuid: String::new(),
        calibrations_printer_name: String::new(),
    }
}

#[test]
fn staged_tag_takes_the_note_of_its_spool() {
    let spool = SpoolRecord {
        id: "1".to_string(),
        tag_id: "04AB".to_string(),
        note: "in store".to_string(),
        ..SpoolRecord::default()
    };
    let store = store_with(vec![spool]);
    let mut staging = FilamentStaging::new();
    assert!(staging.is_empty());
    staging.set_tag_info(tag(Some(vec![4, 0xab])), StagingOrigin::Scanned, &store);
    assert_eq!(staging.tag_info().as_ref().unwrap().note.as_deref(), Some("in store"));
    assert_eq!(staging.spool_record().as_ref().unwrap().id, "1");
    assert_eq!(*staging.origin(), StagingOrigin::Scanned);
    staging.set_tag_info(tag(Some(vec![4, 0xab])), StagingOrigin::Encoded, &store);
    assert_eq!(staging.tag_info().as_ref().unwrap().note.as_deref(), Some("on tag"));
    assert_eq!(staging.spool_record().as_ref().unwrap().id, "1");
    staging.clear();
    assert!(staging.is_empty() && staging.spool_record().is_none() && *staging.origin() == StagingOrigin::Empty);
    staging.set_tag_info(tag(Some(vec![9])), StagingOrigin::Unloaded, &store);
    assert!(staging.spool_record().is_none() && !staging.is_empty());
    staging.tag_info_mut().as_mut().unwrap().note = None;
    assert!(staging.tag_info().as_ref().unwrap().note.is_none());
    staging.set_tag_info(tag(None), StagingOrigin::Scanned, &store);
    assert!(staging.spool_record().is_none());
}

fn printer(serial: &str, name: &str, uuid: &str) -> BambuPrinter {
    let tray = Tray {
        state: TrayState::Unknown,
        filament: Filament::Unknown,
        cali_idx: None,
        meta_info: TrayMetaInfo {
            spool_id: None,
            used_in_print: false,
            consumed_since_load: Grams::zero(),
            consumed_since_load_saved: Grams::zero(),
            consumed_since_weight: Grams::zero(),
        },
    };
    BambuPrinter {
        printer_number: 1,
        printer_index: 0,
        printer_serial: serial.to_string(),
        printer_name: name.to_string(),
        printer_selector_name: name.to_string(),
        printer_uuid_to_encode: uuid.to_string(),
        printer_access_code: String::new(),
        printer_ip: None,
        printer_connectivity_ok: None,
        model_series: PrinterModelSeries::A1,
        fetch_3mf: Fetch3mf::CloudHttp,
        track_print_consume: true,
        calibrations: Vec::new(),
        ams_exist_bits: None,
        ams_trays: Vec::new(),
        virt_tray: tray,
        gcode_state: GcodeState::IDLE,
        layer_num: 0,
        tray_tar: 255,
        tray_now: 255,
        curr_print_project: None,
        observers: Vec::new(),
        notices: Vec::new(),
    }
}

#[test]
fn calibration_goes_to_its_printer() {
    let printers = vec![printer("S1", "A", "u1"), printer("S2", "B", "u2"), printer("S3", "B", "u2")];
    let mut on_tag = tag(None);
    assert!(k_info_from_tag(&printers, &on_tag).is_none());
    on_tag.calibrations.insert(
        "0.4".to_string(),
        TagCalibration { name: "n".to_string(), k_value: "0.031".to_string(), setting_id: Some("s".to_string()), cali_idx: 3 },
    );
    assert!(k_info_from_tag(&printers, &on_tag).is_none());
    let serial_of = |t: &TagInformation| {
        let k = k_info_from_tag(&printers, t)?;
        let kept = k.printers.value_at(0).extruders.get(0)?.diameters.get("0.4")?.nozzles.get("")?;
        assert_eq!((kept.name.as_str(), kept.k_value.as_str(), kept.cali_idx), ("n", "0.031", 3));
        assert_eq!(kept.setting_id.as_deref(), Some("s"));
        Some(k.printers.key_at(0).clone())
    };
    on_tag.calibrations_printer_name = "A".to_string();
    assert_eq!(serial_of(&on_tag).unwrap(), "S1");
    on_tag.calibrations_printer_uuid = "u2".to_string();
    assert_eq!(serial_of(&on_tag).unwrap(), "S3");
    on_tag.calibrations_printer_uuid = "other".to_string();
    assert_eq!(serial_of(&on_tag).unwrap(), "S1");
    on_tag.calibrations_printer_name = "C".to_string();
    assert!(serial_of(&on_tag).is_none());
}
