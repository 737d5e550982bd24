use spoolease::bambu::{
    BambuPrinter, Calibration, Filament, FilamentInfo, PrinterModelSeries, Tray, TrayMetaInfo, TrayState,
};
use spoolease::bambu_print::{Fetch3mf, FilamentUsage, GcodeAnalysis, GcodeState, PrintProject};
use spoolease::csvdb::CsvDb;
use spoolease::display::{
    ams_display, can_read_color, can_show_tray, can_weigh, display_filament_staging, is_color, read_color, slot_title,
    tag_info_to_ui_spool_info, tray_row, ui_get_slot_display, ui_get_spool_record_display, weight_display, weight_left,
    PressureAdvance, StagingNotice, UiTrayState, WeightDisplay, NO_COLOR,
};
use spoolease::filament_info::FilamentLists;
use spoolease::filament_staging::{StagingOrigin, TagCalibration, TagInformation};
use spoolease::grams::Grams;
use spoolease::net::Ipv4Address;
use spoolease::spool_record::{FullSpoolRecord, KInfo, SpoolRecord, SpoolRecordExt};
use spoolease::store::Store;
use spoolease::text_map::TextMap;
use spoolease::view_model::{
    available_scales_info, connected_scale_info, consumption_stored, next_to_store, on_term_text, on_web_config_started,
    on_webapp_url_update, store_printers_consume, store_state_delay, web_config_url, ConsumptionStep, FoundScale, PrinterPlace,
    EncodeCookie, ScaleWeight, SelectedPrinter, Selection, TagRead, TagStatus, TagStep, TrayBits, TrayUpdate, TraysStep, V1Outcome, V1Plan, V1Read,
    ViewModel, WebConfigMode, WebConfigState, WeightRequest,
};

fn grams(g: f32) -> Grams {
    Grams { bits: g.to_bits() }
}

fn tray(spool: Option<&str>, used: f32) -> Tray {
    Tray {
        state: TrayState::Ready,
        filament: Filament::Unknown,
        cali_idx: None,
        meta_info: TrayMetaInfo {
            spool_id: spool.map(|s| s.to_string()),
            used_in_print: true,
            consumed_since_load: grams(used),
            consumed_since_load_saved: Grams::zero(),
            consumed_since_weight: Grams::zero(),
        },
    }
}

fn known(color: &str) -> Filament {
    Filament::Known(FilamentInfo {
        tray_info_idx: "GFA00".to_string(),
        tray_type: "PLA".to_string(),
        tray_color: color.to_string(),
    })
}

fn printer(serial: &str, name: &str) -> BambuPrinter {
    BambuPrinter {
        printer_number: 1,
        printer_index: 0,
        printer_serial: serial.to_string(),
        printer_name: name.to_string(),
        printer_selector_name: name.to_string(),
        printer_uuid_to_encode: serial.to_string(),
        printer_access_code: String::new(),
        printer_ip: None,
        printer_connectivity_ok: Some(true),
        model_series: PrinterModelSeries::A1,
        fetch_3mf: Fetch3mf::CloudHttp,
        track_print_consume: true,
        calibrations: vec![Calibration { cali_idx: 7, k_value: "0.025".to_string(), name: "mine".to_string() }],
        ams_exist_bits: None,
        ams_trays: vec![tray(None, 0.0), tray(None, 2.5)],
        virt_tray: tray(None, 0.0),
        gcode_state: GcodeState::IDLE,
        layer_num: 0,
        tray_tar: 255,
        tray_now: 255,
        curr_print_project: None,
        observers: Vec::new(),
        notices: Vec::new(),
    }
}

fn lists() -> FilamentLists {
    FilamentLists {
        base_filaments: "GFA00,Bambu PLA Basic,190,230\n".to_string(),
        custom_filaments: Some("C1,Other,200,210".to_string()),
        materials: "title\nABS,GFA00,1,2\n".to_string(),
        brands: "Bambu\n".to_string(),
    }
}

fn spool(id: &str, tag: &str) -> SpoolRecord {
    SpoolRecord { id: id.to_string(), tag_id: tag.to_string(), ..SpoolRecord::default() }
}

fn store_with(records: Vec<SpoolRecord>) -> Store {
    let mut store = Store::new();
    let (mut db, _) = CsvDb::new("s", "", 64).unwrap();
    for (i, r) in records.into_iter().enumerate() {
        db.complete_insert(r, 64 * i as u32, 1);
    }
    store.spools_db = Some(db);
    store.finish_opening(true);
    store
}

fn view(records: Vec<SpoolRecord>) -> ViewModel {
    let mut v = ViewModel::new(lists());
    v.store = store_with(records);
    v
}

fn staged(record: SpoolRecord) -> Option<FullSpoolRecord> {
    Some(FullSpoolRecord { spool_rec: record, spool_rec_ext: SpoolRecordExt::default() })
}

#[test]
fn colors_are_opaque() {
    assert_eq!(read_color("00FF7f"), 0xff00_ff7f);
    assert_eq!(read_color("FFFFFFFF"), 0xffff_ffff);
    assert_eq!(read_color("+12345"), 0xff01_2345);
    assert!(can_read_color("000000x") && !can_read_color("00000") && !can_read_color("00000g") && !can_read_color("++0000"));
    assert!(is_color("000000") && !is_color("00000") && is_color("éééé"));
}

#[test]
fn title_is_trimmed() {
    assert_eq!(slot_title("Bambu", "PLA", "Red"), "Bambu PLA Red");
    assert_eq!(slot_title("", "PLA", ""), "PLA");
    assert_eq!(slot_title("", "", ""), "");
    assert_eq!(slot_title("a", "", "b"), "a  b");
}

#[test]
fn weight_left_is_without_the_core() {
    let mut with_core = spool("1", "");
    with_core.weight_current = Some(900);
    with_core.weight_core = Some(250);
    with_core.weight_new = Some(1250);
    with_core.weight_advertised = Some(1000);
    let mut by_new = with_core.clone();
    by_new.id = "2".to_string();
    by_new.weight_core = None;
    by_new.weight_current = Some(800);
    let mut unknown = by_new.clone();
    unknown.id = "3".to_string();
    unknown.weight_new = None;
    let mut extreme = with_core.clone();
    extreme.id = "4".to_string();
    extreme.weight_current = Some(i32::MIN);
    let store = store_with(vec![with_core, by_new, unknown, extreme]);
    assert_eq!(weight_left(&store, &tray(Some("1"), 0.0)), Some(650));
    assert_eq!(weight_left(&store, &tray(Some("2"), 0.0)), Some(550));
    assert_eq!(weight_left(&store, &tray(Some("3"), 0.0)), None);
    assert_eq!(weight_left(&store, &tray(Some("9"), 0.0)), None);
    assert_eq!(weight_left(&store, &tray(None, 0.0)), None);
    assert!(!can_weigh(&store, &tray(Some("4"), 0.0)) && can_weigh(&store, &tray(Some("1"), 0.0)));
    assert_eq!(weight_display(&store, &tray(Some("1"), 3.0)), WeightDisplay::Left(650));
    assert_eq!(weight_display(&store, &tray(Some("3"), 3.0)), WeightDisplay::Used);
    assert_eq!(weight_display(&store, &tray(None, -0.0)), WeightDisplay::Nothing);
}

#[test]
fn slot_is_displayed() {
    let mut p = printer("S", "P");
    let shown = ui_get_slot_display(&lists(), &p, &p.ams_trays[1]);
    assert_eq!((shown.color_code.as_str(), shown.material.as_str(), shown.brand.as_str()), ("", "", ""));
    assert!(matches!(shown.pa, PressureAdvance::FromTray));
    assert_eq!(f32::from_bits(shown.consumed_since_loaded.bits), 2.5);
    p.ams_trays[0].filament = known("FF0000FF");
    p.ams_trays[0].cali_idx = Some(7);
    let shown = ui_get_slot_display(&lists(), &p, &p.ams_trays[0]);
    assert_eq!((shown.color_code.as_str(), shown.material.as_str(), shown.brand.as_str()), ("FF0000FF", "PLA", "Bambu"));
    assert_eq!(shown.slicer.name, "Bambu PLA Basic (base)");
    assert_eq!((shown.slicer.temp_min, shown.slicer.temp_max), (190, 230));
    assert!(matches!(shown.pa, PressureAdvance::Calibrated(t) if t == "0.025, mine"));
    p.ams_trays[0].cali_idx = Some(8);
    let shown = ui_get_slot_display(&lists(), &p, &p.ams_trays[0]);
    assert!(matches!(shown.pa, PressureAdvance::Calibrated(t) if t == "0.2, "));
    p.ams_trays[0].cali_idx = Some(-1);
    assert!(matches!(ui_get_slot_display(&lists(), &p, &p.ams_trays[0]).pa, PressureAdvance::FromTray));
}

#[test]
fn rows_show_their_slots() {
    let mut p = printer("S", "P");
    let store = store_with(vec![]);
    p.ams_trays[1].filament = known("0A0B0CFF");
    p.ams_trays[1].meta_info.spool_id = Some("5".to_string());
    assert!(can_show_tray(&store, &p, 1) && can_show_tray(&store, &p, 254));
    assert!(!can_show_tray(&store, &p, 2) && !can_show_tray(&store, &p, -1));
    let row = tray_row(&store, &p, 1);
    assert_eq!((row.id, row.spool_state, row.weight), (1, UiTrayState::Ready, WeightDisplay::Used));
    assert_eq!(row.filament.as_ref().unwrap().color, 0xff0a_0b0c);
    assert_eq!((row.spool_rec_id.as_deref(), row.used_in_print), (Some("5"), true));
    assert!(tray_row(&store, &p, 254).filament.is_none());
    p.ams_trays[1].filament = known("red");
    assert!(!can_show_tray(&store, &p, 1));
    assert_eq!(UiTrayState::from(TrayState::Unloading), UiTrayState::Unloading);
}

#[test]
fn spool_is_displayed() {
    let mut r = spool("1", "");
    r.material_type = "PLA".to_string();
    r.material_subtype = "Matte".to_string();
    r.weight_advertised = Some(1000);
    r.weight_core = Some(250);
    r.color_code = "102030FF".to_string();
    r.slicer_filament = "C1".to_string();
    let mut plain = spool("2", "");
    plain.ext_has_k = true;
    plain.added_full = Some(true);
    let store = store_with(vec![r, plain]);
    let shown = ui_get_spool_record_display(&store, &lists(), "1").unwrap();
    assert_eq!(shown.spool_record.material_type, "Matte");
    assert_eq!(shown.spool_record.material_subtype, "PLA");
    assert_eq!((shown.spool_record.weight_core, shown.spool_record.weight_current), (1000, 0));
    assert_eq!((shown.slicer.name.as_str(), shown.slicer.temp_min), ("Other", 200));
    assert_eq!((shown.color, shown.pa_line1.as_str()), (Some(0xff10_2030), "Not Configured"));
    let shown = ui_get_spool_record_display(&store, &lists(), "2").unwrap();
    assert_eq!((shown.color, shown.pa_line1.as_str()), (None, "Configured"));
    assert!(shown.spool_record.added_full);
    assert!(ui_get_spool_record_display(&store, &lists(), "3").is_none());
}

#[test]
fn staged_spool_is_displayed() {
    assert!(tag_info_to_ui_spool_info(&None, None).is_none());
    let mut full = staged(spool("1", ""));
    let shown = tag_info_to_ui_spool_info(&full, None).unwrap();
    assert_eq!((shown.id.as_str(), shown.color, shown.k.as_str()), ("1", NO_COLOR, "N/A"));
    full.as_mut().unwrap().spool_rec_ext.k_info = Some(KInfo { printers: TextMap::new() });
    assert_eq!(tag_info_to_ui_spool_info(&full, None).unwrap().k, "NoMatch");
    assert_eq!(tag_info_to_ui_spool_info(&full, Some("0.02".to_string())).unwrap().k, "0.02");
    assert_eq!(display_filament_staging(StagingOrigin::Scanned, true), StagingNotice::Read);
    assert_eq!(display_filament_staging(StagingOrigin::Encoded, true), StagingNotice::Encoded);
    assert_eq!(display_filament_staging(StagingOrigin::Unloaded, true), StagingNotice::Unloaded);
    assert_eq!(display_filament_staging(StagingOrigin::Empty, true), StagingNotice::Unchanged);
    assert_eq!(display_filament_staging(StagingOrigin::Scanned, false), StagingNotice::Unchanged);
}

#[test]
fn units_are_listed() {
    let shown = ams_display(0b1000_0000_0110, 0);
    assert_eq!((shown.exists, shown.show), (vec![1, 2, 11], Some(1)));
    assert_eq!(ams_display(0b0110, 2).show, None);
    let none = ams_display(0x1000, -1);
    assert_eq!((none.exists, none.show), (vec![], None));
}

#[test]
fn first_printer_with_the_default_serial_is_shown() {
    let mut s = SelectedPrinter::new(Vec::new(), 0);
    let default = Some("B".to_string());
    assert_eq!(s.next_place(3), PrinterPlace { printer_number: 4, printer_index: 0 });
    for (serial, index) in [("A", 0), ("B", 1), ("B", 1), ("C", 1)] {
        s.add_printer(printer(serial, serial), &default);
        assert_eq!(s.index, index);
    }
    assert_eq!(s.current().printer_serial, "B");
    let mut s = SelectedPrinter::new(Vec::new(), 0);
    s.add_printer(printer("A", "A"), &None);
    assert_eq!((s.index, s.next_place(1).printer_index), (0, 1));
}

#[test]
fn selection_remembers_what_was_shown() {
    let mut v = view(vec![]);
    v.bambu_printer_model = SelectedPrinter::new(vec![printer("1", "a"), printer("2", "b"), printer("3", "b")], 0);
    assert_eq!(v.perform_select_printer("a", 3, "b"), Some(Selection { index: 1, restored_ams: None }));
    assert_eq!(v.perform_select_printer("b", 1, "c"), None);
    assert_eq!(v.bambu_printer_model.index, 1);
    assert_eq!(v.perform_select_printer("b", 1, "a"), Some(Selection { index: 0, restored_ams: Some(3) }));
    assert_eq!(v.perform_select_printer("a", 2, "b"), Some(Selection { index: 1, restored_ams: Some(1) }));
}

#[test]
fn untagged_spool_is_offered() {
    let mut v = view(vec![spool("1", ""), spool("2", "0A")]);
    assert_eq!(v.recently_added_spool_id_if_untagged(), "");
    for (id, offered) in [("1", "1"), ("2", ""), ("3", "")] {
        v.recently_added_spool_id = Some(id.to_string());
        assert_eq!(v.recently_added_spool_id_if_untagged(), offered);
    }
}

#[test]
fn encoding_takes_the_record_of_the_store() {
    let mut in_store = spool("1", "04aB");
    in_store.note = "new".to_string();
    let mut v = view(vec![in_store]);
    assert_eq!(v.record_to_encode(None).unwrap_err(), "Staging is Empty");
    v.staged = staged(spool("9", ""));
    assert_eq!(v.record_to_encode(None).unwrap_err(), "Spool 9 not Found");
    v.staged = staged(spool("1", ""));
    let record = v.record_to_encode(Some(33)).unwrap();
    assert_eq!((record.note.as_str(), record.encode_time), ("new", Some(33)));
    let order = ViewModel::encode_order(record, Some("text".to_string())).unwrap();
    assert_eq!((order.uid, order.id.as_str(), order.encode_time), (vec![4, 0xab], "1", Some(33)));
    assert_eq!(order.descriptor, "text");
    let no_hex = ViewModel::encode_order(spool("1", "-04"), Some("text".to_string()));
    assert_eq!(no_hex.unwrap_err(), "Spool Tag Id isn't valid");
    assert_eq!(ViewModel::encode_order(spool("1", "04"), None).unwrap_err(), "Failed to Create Tag Descriptor");
    assert_eq!(v.tag_written("1", Some(44)).unwrap().encode_time, Some(44));
    assert!(v.tag_written("2", None).is_none());
}

fn staged_id(v: &ViewModel) -> &str {
    &v.staged.as_ref().unwrap().spool_rec.id
}

#[test]
fn staging_keeps_its_origin() {
    let mut v = view(vec![]);
    v.set_staged_rec(spool("1", ""));
    v.set_staged_ext(SpoolRecordExt { tag: Some("t".to_string()), k_info: None });
    assert!(v.staged.is_none() && v.origin == StagingOrigin::Empty);
    v.stage(spool("1", ""), StagingOrigin::Unloaded);
    v.set_staged_ext(SpoolRecordExt { tag: Some("t".to_string()), k_info: None });
    v.set_staged_rec(spool("2", ""));
    let full = v.staged.as_ref().unwrap();
    assert_eq!((full.spool_rec.id.as_str(), full.spool_rec_ext.tag.as_deref()), ("2", Some("t")));
    assert_eq!(v.origin, StagingOrigin::Unloaded);
    v.stage(spool("3", ""), StagingOrigin::Scanned);
    assert_eq!((staged_id(&v), v.origin), ("3", StagingOrigin::Scanned));
    assert!(v.staged.as_ref().unwrap().spool_rec_ext.tag.is_none());
    v.clear_staging();
    assert!(v.staged.is_none() && v.origin == StagingOrigin::Empty);
}

#[test]
fn new_view_is_empty() {
    let mut v = ViewModel::new(lists());
    assert!(v.bambu_printer_model.printers.is_empty() && v.staged.is_none() && v.recently_added_spool_id.is_none());
    assert_eq!((v.printers_view_state.len(), v.store.tag_id_index.len(), v.store.last_spool_id), (0, 0, 0));
    assert!(!v.store.is_initialized() && !v.store.is_available());
    assert!(v.perform_select_printer("a", 1, "b").is_none());
}

#[test]
fn tags_lead_to_their_spools() {
    let mut v = view(vec![spool("1", "04AB"), spool("2", "-04AC")]);
    assert!(matches!(v.tag_read(&[4, 0xab]), TagRead::Known(r) if r.id == "1"));
    assert!(matches!(v.tag_read(&[4, 0xac]), TagRead::New(t) if t == "04AC"));
    assert_eq!(v.ui_can_link_spool_to_tag("1"), "Spool Is Tagged");
    assert_eq!(v.ui_can_link_spool_to_tag("2"), "");
    assert_eq!(v.ui_can_link_spool_to_tag("3"), "Spool Not Found");
    assert_eq!(v.link_tag_to_spool_id("0D".to_string(), "2").unwrap().tag_id, "0D");
    assert!(v.link_tag_to_spool_id("0D".to_string(), "3").is_none());
    let failed = v.tag_linked(spool("2", "0D"), "2", Some("BadId"));
    assert_eq!(failed, "Failed to link tag to spool 2: BadId");
    assert!(v.staged.is_none() && v.origin == StagingOrigin::Empty);
    assert_eq!(v.tag_linked(spool("2", "0D"), "2", None), "");
    assert_eq!((staged_id(&v), v.origin), ("2", StagingOrigin::Scanned));
}

#[test]
fn reports_of_the_tag_reader_are_followed() {
    let mut v = view(vec![spool("1", "04AB"), spool("2", "0A")]);
    assert!(matches!(v.on_tag_status(TagStatus::FoundTagNowReading), TagStep::ShowReading));
    assert!(matches!(v.on_tag_status(TagStatus::FoundTagNowWriting), TagStep::ShowWriting));
    let cookie = |id: &str| TagStatus::WriteSuccess(Some(EncodeCookie { id: id.to_string(), encode_time: Some(5) }));
    let written = v.on_tag_status(cookie("1"));
    assert!(matches!(written, TagStep::Written(Some(r)) if r.id == "1" && r.encode_time == Some(5)));
    assert!(matches!(v.on_tag_status(cookie("9")), TagStep::Written(None)));
    assert!(matches!(v.on_tag_status(TagStatus::WriteSuccess(None)), TagStep::Written(None)));
    assert!(v.staged.is_none() && v.origin == StagingOrigin::Empty);
    let read = |v: &mut ViewModel, uid: Vec<u8>, tag_info| v.on_tag_status(TagStatus::ReadSuccess { uid, tag_info });
    assert!(matches!(read(&mut v, vec![4, 0xac], None), TagStep::Offer(t) if t == "04AC"));
    assert!(v.staged.is_none() && v.origin == StagingOrigin::Empty);
    let step = read(&mut v, vec![4, 0xab], None);
    assert!(matches!(step, TagStep::Staged { spool_id, read_ext: true } if spool_id == "1"));
    assert_eq!((staged_id(&v), v.origin), ("1", StagingOrigin::Scanned));
    let step = read(&mut v, vec![4, 0xab], Some(old_tag(Some(vec![10]), "", false)));
    assert!(matches!(step, TagStep::Staged { spool_id, read_ext: false } if spool_id == "2"));
    assert_eq!((staged_id(&v), v.origin), ("2", StagingOrigin::Scanned));
    let unknown = read(&mut v, vec![4, 0xab], Some(old_tag(Some(vec![1]), "", false)));
    assert!(matches!(unknown, TagStep::OfferV1));
    let no_id = read(&mut v, vec![4, 0xab], Some(old_tag(None, "", false)));
    assert!(matches!(no_id, TagStep::ReadFailed(t) if t == "V1 Tag Missing Tag-ID"));
    let failed = v.on_tag_status(TagStatus::TagWriteFailure("w".to_string()));
    assert!(matches!(failed, TagStep::WriteFailed(t) if t == "w"));
    let failed = v.on_tag_status(TagStatus::TagReadFailure);
    assert!(matches!(failed, TagStep::ReadFailed(t) if t == "Error: Failed to Scan Tag"));
    assert_eq!((staged_id(&v), v.origin), ("2", StagingOrigin::Scanned));
}

#[test]
fn staged_spool_goes_into_a_slot() {
    let mut v = view(vec![]);
    assert!(matches!(v.set_staging_to_tray(Some(true)), TrayUpdate::Nothing));
    let mut r = spool("1", "");
    r.material_type = "PETG".to_string();
    v.stage(r, StagingOrigin::Scanned);
    assert!(matches!(v.set_staging_to_tray(Some(true)), TrayUpdate::UnknownTemps));
    v.staged.as_mut().unwrap().spool_rec.material_type = "ABS".to_string();
    for state in [Some(false), None] {
        assert!(matches!(v.set_staging_to_tray(state), TrayUpdate::Disconnected));
    }
    assert_eq!((staged_id(&v), v.origin), ("1", StagingOrigin::Scanned));
    match v.set_staging_to_tray(Some(true)) {
        TrayUpdate::Update { spool, nozzle_temp_low, nozzle_temp_high } => {
            assert_eq!((spool.spool_rec.id.as_str(), nozzle_temp_low, nozzle_temp_high), ("1", 190, 230));
        }
        _ => panic!("not updated"),
    }
    assert!(v.staged.is_none() && v.origin == StagingOrigin::Empty);
    for (id, shown) in [(0, 0), (3, 3), (12, 254), (128, 254), (135, 254), (254, 254), (255, 254)] {
        assert_eq!(ViewModel::ams_if_for_ui(id), shown);
    }
}

#[test]
fn single_loaded_slot_is_taken() {
    let mut v = view(vec![spool("1", "")]);
    let bits = |e, r| TrayBits { tray_exist_bits: e, tray_read_done_bits: r };
    v.origin = StagingOrigin::Scanned;
    let step = v.on_trays_update(4, &bits(Some(1), Some(1)), &bits(Some(5), Some(9)));
    assert_eq!(step, TraysStep { spool_loaded: true, stage_to: Some(3) });
    let two = v.on_trays_update(4, &bits(None, None), &bits(Some(3), Some(3)));
    assert_eq!(two, TraysStep { spool_loaded: false, stage_to: None });
    let beyond = v.on_trays_update(4, &bits(Some(0), Some(0)), &bits(Some(16), None));
    assert_eq!(beyond, TraysStep { spool_loaded: false, stage_to: None });
    let last = v.on_trays_update(32, &bits(Some(0), Some(0)), &bits(Some(1 << 31), Some(1 << 31)));
    assert_eq!(last.stage_to, Some(31));
    assert!(!v.stage_unloaded("1") && v.staged.is_none());
    v.origin = StagingOrigin::Unloaded;
    let step = v.on_trays_update(4, &bits(Some(1), Some(1)), &bits(Some(5), Some(9)));
    assert_eq!(step, TraysStep { spool_loaded: false, stage_to: None });
    assert!(v.stage_unloaded("1"));
    assert!(!v.stage_unloaded("2"));
    assert_eq!((staged_id(&v), v.origin), ("1", StagingOrigin::Unloaded));
}

#[test]
fn weight_is_stored_where_it_can_be() {
    let mut v = view(vec![spool("1", "")]);
    let text = |r: WeightRequest| match r {
        WeightRequest::Refuse(t) => t.lines().next().unwrap().to_string(),
        WeightRequest::Store(w) => format!("{w}"),
    };
    assert_eq!(text(v.update_spool_weight(ScaleWeight::Stable(5))), "No Spool Tag in Staging");
    assert!(v.update_spool_weight_async(5).is_none());
    v.staged = staged(spool("1", ""));
    assert_eq!(text(v.update_spool_weight(ScaleWeight::Stable(5))), "5");
    assert_eq!(text(v.update_spool_weight(ScaleWeight::Stable(0))), "No Weight on Scale");
    assert_eq!(text(v.update_spool_weight(ScaleWeight::Unstable(5))), "Weight on Scale Not Stable");
    assert_eq!(text(v.update_spool_weight(ScaleWeight::Unknown)), "Internal Software Error");
    assert_eq!(ViewModel::weight_reply(&WeightRequest::Store(1), true), None);
    assert_eq!(ViewModel::weight_reply(&WeightRequest::Store(1), false), Some(false));
    assert_eq!(ViewModel::weight_reply(&WeightRequest::Refuse(String::new()), true), Some(false));
    assert_eq!(v.update_spool_weight_async(5).unwrap().weight_current, Some(5));
    assert_eq!(ViewModel::weight_stored_text("1", None), "Updated Filament Weight\n\nFor Spool 1");
    assert_eq!(ViewModel::weight_stored_text("1", Some("e")), "Failed to Update Filament Weight/Tag\n\ne");
    let unused = v.set_spool_weight("1", 9, true).unwrap();
    assert_eq!((unused.weight_current, unused.weight_new, unused.added_full), (Some(9), Some(9), Some(true)));
    let used = v.set_spool_weight("1", 9, false).unwrap();
    assert_eq!((used.weight_current, used.weight_new, used.added_full), (Some(9), None, None));
    assert!(v.set_spool_weight("2", 9, false).is_none());
    assert!(!v.update_spool_rec(spool("2", "y")));
    assert_eq!(v.staged.as_ref().unwrap().spool_rec.tag_id, "");
    assert!(v.update_spool_rec(spool("1", "x")));
    assert_eq!(v.staged.as_ref().unwrap().spool_rec.tag_id, "x");
}

fn old_tag(id: Option<Vec<u8>>, printer_name: &str, calibrated: bool) -> TagInformation {
    let mut calibrations = TextMap::new();
    if calibrated {
        let k = TagCalibration { name: String::new(), k_value: "0.02".to_string(), setting_id: None, cali_idx: 1 };
        calibrations.insert("0.4".to_string(), k);
    }
    TagInformation {
        tag_id: id,
        note: None,
        calibrations,
        calibrations_printer_uuid: String::new(),
        calibrations_printer_name: printer_name.to_string(),
    }
}

#[test]
fn old_tags_are_taken_into_the_store() {
    let mut with_k = spool("2", "0B");
    with_k.ext_has_k = true;
    let mut v = view(vec![spool("1", "0A"), with_k]);
    v.bambu_printer_model = SelectedPrinter::new(vec![printer("S1", "P")], 0);
    assert!(matches!(v.process_v1_tag_read(None), V1Read::NotV1));
    assert!(matches!(v.process_v1_tag_read(Some(&old_tag(None, "", false))), V1Read::MissingTagId));
    assert!(matches!(v.process_v1_tag_read(Some(&old_tag(Some(vec![1]), "", false))), V1Read::New));
    assert!(v.staged.is_none() && v.origin == StagingOrigin::Empty);
    assert!(matches!(v.process_v1_tag_read(Some(&old_tag(Some(vec![10]), "", false))), V1Read::Known));
    assert_eq!((staged_id(&v), v.origin), ("1", StagingOrigin::Scanned));
    v.clear_staging();

    let plan = |t: Option<&TagInformation>| v.process_v1_tag_read_async("text", t);
    assert!(matches!(plan(None), V1Plan::Unparsable));
    assert!(matches!(plan(Some(&old_tag(None, "P", true))), V1Plan::MissingTagId));
    match plan(Some(&old_tag(Some(vec![1]), "P", true))) {
        V1Plan::Add { ext } => {
            assert_eq!(ext.tag.as_deref(), Some("text"));
            assert_eq!(ext.get_calibrations("S1", 0, "0.4", "").unwrap().k_value, "0.02");
        }
        _ => panic!("not added"),
    }
    assert!(matches!(plan(Some(&old_tag(Some(vec![1]), "Q", true))), V1Plan::Add { ext } if ext.k_info.is_none()));
    match plan(Some(&old_tag(Some(vec![10]), "P", true))) {
        V1Plan::StoreCalibrations { record, calibrations } => {
            assert!(record.id == "1" && record.ext_has_k && calibrations.is_some());
        }
        _ => panic!("not stored"),
    }
    assert!(matches!(plan(Some(&old_tag(Some(vec![10]), "P", false))), V1Plan::ReadExt { id } if id == "1"));
    assert!(matches!(plan(Some(&old_tag(Some(vec![11]), "P", true))), V1Plan::ReadExt { id } if id == "2"));
    assert_eq!(ViewModel::v1_refusal(&plan(None)).unwrap(), "Cant parse tag descriptor");
    assert_eq!(ViewModel::v1_refusal(&V1Plan::MissingTagId).unwrap(), "Tag is missing tag id");
    assert!(ViewModel::v1_refusal(&V1Plan::ReadExt { id: String::new() }).is_none());
    let missing = v.v1_stored(Ok(()), "7", None);
    assert!(matches!(missing, V1Outcome::Say(t) if t == "Failed to get spool after storing it"));
    let failed = v.v1_stored(Err("e".to_string()), "1", None);
    assert!(matches!(failed, V1Outcome::Say(t) if t == "Failed to store information from tag\ne"));
    assert!(v.staged.is_none());
    let ext = SpoolRecordExt { tag: Some("t".to_string()), k_info: None };
    assert!(matches!(v.v1_stored(Ok(()), "1", Some(ext)), V1Outcome::Staged));
    assert_eq!((staged_id(&v), v.origin), ("1", StagingOrigin::Scanned));
    assert_eq!(v.staged.as_ref().unwrap().spool_rec_ext.tag.as_deref(), Some("t"));
    assert!(v.get_k_info_from_old_tag(&old_tag(None, "P", true)).is_some());
}

#[test]
fn analysis_reaches_the_print_that_awaits_it() {
    let mut v = view(vec![]);
    v.bambu_printer_model = SelectedPrinter::new(vec![printer("S1", "P")], 0);
    assert!(!v.on_gcode_analysis(1, 0, 5, FilamentUsage::new(Vec::new())));
    let mut project = PrintProject::new("n", "u", "f", &vec![0], None, None);
    project.gcode_analysis = GcodeAnalysis::Requested { at: 1, job_number: 4 };
    v.bambu_printer_model.printers[0].curr_print_project = Some(project);
    assert!(!v.on_gcode_analysis(1, 0, 5, FilamentUsage::new(Vec::new())));
    assert!(!v.on_gcode_analysis(4, 1, 5, FilamentUsage::new(Vec::new())));
    assert!(v.on_gcode_analysis(4, 0, 5, FilamentUsage::new(Vec::new())));
    let project = v.bambu_printer_model.printers[0].curr_print_project.as_ref().unwrap();
    assert!(matches!(project.gcode_analysis, GcodeAnalysis::Received { at: 5, job_number: 4, .. }));
    assert_eq!(project.consume_index, 0);
}

#[test]
fn consumption_is_added_once() {
    let v = view(vec![spool("1", "")]);
    let due = |t: &Tray| matches!(store_printers_consume(t, &v.store), ConsumptionStep::AddTo { record } if record.id == "1");
    let nothing = |t: &Tray| matches!(store_printers_consume(t, &v.store), ConsumptionStep::Nothing);
    let mut t = tray(Some("1"), 2.5);
    assert!(due(&t));
    consumption_stored(&mut t, false);
    assert!(due(&t));
    consumption_stored(&mut t, true);
    assert_eq!(t.meta_info.consumed_since_load_saved.bits, 2.5f32.to_bits());
    assert_eq!(t.meta_info.consumed_since_load.bits, 2.5f32.to_bits());
    assert!(nothing(&t));
    t.meta_info.consumed_since_load = grams(3.0);
    assert!(due(&t));
    t.meta_info.consumed_since_load = grams(-0.0);
    assert!(nothing(&t));
    assert!(nothing(&tray(None, 2.5)));
    assert!(matches!(store_printers_consume(&tray(Some("2"), 2.5), &v.store), ConsumptionStep::UnknownSpool));
    let mut t = tray(Some("1"), f32::NAN);
    consumption_stored(&mut t, true);
    assert!(due(&t));
}

#[test]
fn printers_take_turns() {
    assert_eq!((store_state_delay(1), store_state_delay(2), store_state_delay(3)), (3000, 1500, 1000));
    assert_eq!(store_state_delay(50), 1000);
    assert_eq!((next_to_store(0, 3), next_to_store(2, 3), next_to_store(0, 0)), (1, 0, 0));
}

#[test]
fn texts_of_the_display() {
    assert_eq!(on_web_config_started(WebConfigMode::AP, true), WebConfigState::StartedAP);
    assert_eq!(on_web_config_started(WebConfigMode::STA, true), WebConfigState::StartedSTADisplayed);
    assert_eq!(on_web_config_started(WebConfigMode::STA, false), WebConfigState::StartedSTA);
    assert_eq!(on_webapp_url_update("http://1.2.3.4", Some("http://n")), "http://1.2.3.4 / http://n");
    assert_eq!(on_webapp_url_update("http://1.2.3.4", None), "http://1.2.3.4");
    assert_eq!(web_config_url("http://1.2.3.4", "key"), "http://1.2.3.4#sk=key");
    assert_eq!(on_term_text("x"), "\n[S] x");
    let scale = |name: Option<&str>| FoundScale { name: name.map(|s| s.to_string()), ip: Ipv4Address { a: 1, b: 2, c: 3, d: 4 } };
    assert_eq!(connected_scale_info(&None), "<No Scale Connected>");
    assert_eq!(connected_scale_info(&Some(scale(Some("s")))), "1.2.3.4 - s");
    assert_eq!(connected_scale_info(&Some(scale(Some("")))), "1.2.3.4 - <Unnamed Scale/IP set w/o name>");
    let all = available_scales_info(&vec![scale(None), scale(Some("b"))]);
    assert_eq!(all, vec!["1.2.3.4 - <Unnamed Scale>", "1.2.3.4 - b"]);
}
