use spoolease::bambu::{
    BambuPrinter, CancelNotice, Filament, PrinterModelSeries, Tray, TrayMetaInfo, TrayState,
};
use spoolease::bambu_print::{
    AmsMapping2Entry, ConsumeType, Fetch3mf, FilamentUsage, FilamentUsageEntry, GcodeAnalysis, GcodeState, PrintAms,
    PrintData, PrintProject,
};
use spoolease::grams::Grams;

fn tray() -> Tray {
    Tray {
        state: TrayState::Ready,
        filament: Filament::Unknown,
        cali_idx: None,
        meta_info: TrayMetaInfo {
            spool_id: None,
            used_in_print: false,
            consumed_since_load: Grams::zero(),
            consumed_since_load_saved: Grams::zero(),
            consumed_since_weight: Grams::zero(),
        },
    }
}

fn printer() -> BambuPrinter {
    BambuPrinter {
        printer_number: 1,
        printer_index: 0,
        printer_serial: "S1".to_string(),
        printer_name: "P".to_string(),
        printer_selector_name: "P (1)".to_string(),
        printer_uuid_to_encode: "u".to_string(),
        printer_access_code: "code".to_string(),
        printer_ip: None,
        printer_connectivity_ok: Some(true),
        model_series: PrinterModelSeries::P1,
        fetch_3mf: Fetch3mf::PrinterFtp,
        track_print_consume: true,
        calibrations: Vec::new(),
        ams_exist_bits: None,
        ams_trays: vec![tray(), tray(), tray(), tray()],
        virt_tray: tray(),
        gcode_state: GcodeState::IDLE,
        layer_num: 0,
        tray_tar: 255,
        tray_now: 255,
        curr_print_project: None,
        observers: vec![4, 9],
        notices: Vec::new(),
    }
}

fn message() -> PrintData {
    PrintData {
        subtask_name: None,
        ams_mapping: None,
        ams_mapping2: None,
        use_ams: None,
        url: None,
        param: None,
        gcode_state: None,
        total_layer_num: None,
        layer_num: None,
        ams: None,
    }
}

fn announcement(mapping: Vec<i32>, url: &str) -> PrintData {
    PrintData {
        subtask_name: Some("cube".to_string()),
        ams_mapping: Some(mapping),
        url: Some(url.to_string()),
        param: Some("Metadata/plate_1.gcode".to_string()),
        use_ams: Some(true),
        ..message()
    }
}

fn entry(layer: i32, id: i32, weight: f32) -> FilamentUsageEntry {
    FilamentUsageEntry { layer, weight_g: Grams { bits: weight.to_bits() }, gcode_filament_id: id }
}

fn running(entries: Vec<FilamentUsageEntry>) -> BambuPrinter {
    let mut p = printer();
    p.process_print_message__project_file(&announcement(vec![2, 0], "https://cloud/x"));
    let step = p.process_print_message__print_project_logic(&PrintData {
        gcode_state: Some(GcodeState::RUNNING),
        ..message()
    });
    assert!(step.request_analysis);
    p.set_analysis_requested(5, 7);
    p.gcode_state = GcodeState::RUNNING;
    let project = p.curr_print_project.as_mut().unwrap();
    assert!(project.receive_analysis(7, 6, FilamentUsage::new(entries)));
    p
}

fn marks(p: &BambuPrinter) -> Vec<bool> {
    p.ams_trays.iter().map(|t| t.meta_info.used_in_print).collect()
}

#[test]
fn announced_print_marks_its_slots() {
    let mut p = printer();
    p.ams_trays[1].meta_info.used_in_print = true;
    let step = p.process_print_message__project_file(&announcement(vec![2, -1, 3, 40], "https://cloud/x"));
    assert!(step.changed);
    assert!(!step.request_analysis);
    assert_eq!(marks(&p), vec![false, false, true, true]);
    assert!(!p.virt_tray.meta_info.used_in_print);
    let project = p.curr_print_project.unwrap();
    assert_eq!(project.subtask_name, "cube");
    assert_eq!(project.threemf_url, "https://cloud/x");
    assert_eq!(project.consume_index, -1);
    assert_eq!(project.total_layer_num, -1);
}

#[test]
fn announced_print_is_fetched_at_once_where_it_can_be() {
    for (url, at_once) in [("ftp://x", true), ("file:///x", true), ("https://x", false)] {
        let mut p = printer();
        assert_eq!(p.process_print_message__project_file(&announcement(vec![], url)).request_analysis, at_once);
    }
    let mut p = printer();
    p.fetch_3mf = Fetch3mf::CloudHttp;
    assert!(p.process_print_message__project_file(&announcement(vec![], "https://x")).request_analysis);
}

#[test]
fn external_spool_is_marked() {
    let mut p = printer();
    let mut m = announcement(vec![], "https://x");
    m.ams_mapping2 = Some(vec![AmsMapping2Entry { ams_id: 0, slot_id: 1 }, AmsMapping2Entry { ams_id: 255, slot_id: 0 }]);
    assert!(p.process_print_message__project_file(&m).changed);
    assert!(p.virt_tray.meta_info.used_in_print);

    let mut p = printer();
    let mut m = announcement(vec![], "https://x");
    m.use_ams = Some(false);
    assert!(p.process_print_message__project_file(&m).changed);
    assert!(p.virt_tray.meta_info.used_in_print);

    let mut p = printer();
    let mut m = announcement(vec![], "https://x");
    m.use_ams = Some(false);
    m.ams_mapping2 = Some(vec![]);
    assert!(!p.process_print_message__project_file(&m).changed);
    assert!(!p.virt_tray.meta_info.used_in_print);
}

#[test]
fn incomplete_announcement_changes_nothing() {
    let mut p = printer();
    let mut m = announcement(vec![0], "ftp://x");
    m.param = None;
    let step = p.process_print_message__project_file(&m);
    assert!(!step.changed && !step.request_analysis);
    assert!(p.curr_print_project.is_none());
    p.track_print_consume = false;
    let step = p.process_print_message__project_file(&announcement(vec![0], "ftp://x"));
    assert!(!step.changed && !step.request_analysis);
    assert!(p.curr_print_project.is_none());
}

#[test]
fn slots_of_filaments() {
    let mapping = vec![3, -1];
    let plain = PrintProject::new("n", "u", "g", &mapping, None, Some(true));
    assert_eq!(plain.get_ams_id(0), Some(3));
    assert_eq!(plain.get_ams_id(1), Some(-1));
    assert_eq!(plain.get_ams_id(2), None);
    assert_eq!(plain.get_ams_id(-1), None);
    let external = PrintProject::new("n", "u", "g", &mapping, None, Some(false));
    assert_eq!(external.get_ams_id(0), Some(3));
    assert_eq!(external.get_ams_id(1), Some(254));
    assert_eq!(external.get_ams_id(2), Some(254));
    let newer = PrintProject::new(
        "n",
        "u",
        "g",
        &mapping,
        Some(vec![AmsMapping2Entry { ams_id: 0, slot_id: 0 }, AmsMapping2Entry { ams_id: 255, slot_id: 0 }]),
        Some(false),
    );
    assert_eq!(newer.get_ams_id(1), Some(254));
    assert_eq!(newer.get_ams_id(2), None);
}

#[test]
fn layers_below_are_charged_and_each_entry_once() {
    let mut p = running(vec![entry(0, 0, 1.5), entry(0, 1, 2.5), entry(1, 0, 3.5), entry(2, 0, 4.5)]);
    let step = p.process_print_message__print_project_logic(&PrintData { layer_num: Some(1), ..message() });
    assert!(step.changed);
    let taken: Vec<(usize, i32, f32)> =
        step.taken.iter().map(|c| (c.entry, c.tray_id, f32::from_bits(c.weight_g.bits))).collect();
    assert_eq!(taken, vec![(0, 2, 1.5), (1, 0, 2.5)]);
    p.layer_num = 1;
    assert_eq!(p.curr_print_project.as_ref().unwrap().consume_index, 2);
    assert!(p.curr_print_project.as_ref().unwrap().need_consume);

    let step = p.process_print_message__print_project_logic(&PrintData { layer_num: Some(1), ..message() });
    assert!(!step.changed && step.taken.is_empty());

    let step = p.process_print_message__print_project_logic(&PrintData { gcode_state: Some(GcodeState::FINISH), ..message() });
    assert!(!step.changed);
    assert_eq!(step.taken.iter().map(|c| c.entry).collect::<Vec<_>>(), vec![2, 3]);
    assert!(p.curr_print_project.is_none());
    assert_eq!(marks(&p), vec![false; 4]);
    assert!(p.notices.is_empty());
}

#[test]
fn switching_filament_charges_one_entry() {
    let mut p = running(vec![entry(0, 0, 1.0), entry(0, 1, 2.0)]);
    p.tray_now = 2;
    let m = PrintData { ams: Some(PrintAms { tray_tar: Some(0), tray_now: None }), ..message() };
    let step = p.process_print_message__print_project_logic(&m);
    assert!(!step.changed, "the first entry is not charged before the change takes place");
    let m = PrintData { ams: Some(PrintAms { tray_tar: None, tray_now: Some(255) }), ..message() };
    let step = p.process_print_message__print_project_logic(&m);
    assert!(step.changed);
    assert_eq!(step.taken.len(), 1);
    assert_eq!(step.taken[0].entry, 0);
    assert!(!p.curr_print_project.as_ref().unwrap().need_consume);
    p.tray_now = 255;
    let m = PrintData { ams: Some(PrintAms { tray_tar: None, tray_now: Some(0) }), ..message() };
    let step = p.process_print_message__print_project_logic(&m);
    assert!(!step.changed);
    assert!(p.curr_print_project.as_ref().unwrap().need_consume);
}

#[test]
fn entries_without_a_slot_are_passed_over() {
    let mut p = running(vec![entry(0, 9, 1.0), entry(0, 1, 2.0)]);
    let step = p.process_print_message__print_project_logic(&PrintData { layer_num: Some(1), ..message() });
    assert!(step.changed);
    assert_eq!(step.taken.iter().map(|c| c.entry).collect::<Vec<_>>(), vec![1]);
}

#[test]
fn failed_print_calls_its_analysis_off() {
    let mut p = running(vec![entry(0, 0, 1.0)]);
    let step = p.process_print_message__print_project_logic(&PrintData { gcode_state: Some(GcodeState::FAILED), ..message() });
    assert!(step.taken.is_empty());
    assert!(p.curr_print_project.is_none());
    assert_eq!(p.notices, vec![CancelNotice { observer: 4, job_number: 7 }, CancelNotice { observer: 9, job_number: 7 }]);
}

#[test]
fn notify_cancel_tells_every_observer() {
    let mut p = printer();
    p.notify_cancel_gcode_analysis(3);
    p.notify_cancel_gcode_analysis(5);
    assert_eq!(p.notices.iter().map(|n| (n.observer, n.job_number)).collect::<Vec<_>>(), vec![(4, 3), (9, 3), (4, 5), (9, 5)]);
    assert_eq!(p.notify_request_gcode_analysis(&vec![0, 8]), 8);
    assert_eq!(p.notify_request_gcode_analysis(&vec![6, 8]), 6);
    assert_eq!(p.notify_request_gcode_analysis(&vec![0, 0]), 0);
}

#[test]
fn name_and_layers_follow_the_printer() {
    let mut p = printer();
    p.process_print_message__project_file(&announcement(vec![0], "https://x"));
    let m = PrintData {
        gcode_state: Some(GcodeState::PREPARE),
        subtask_name: Some("cube_1".to_string()),
        total_layer_num: Some(120),
        ..message()
    };
    p.process_print_message__print_project_logic(&m);
    let project = p.curr_print_project.as_ref().unwrap();
    assert_eq!(project.subtask_name, "cube_1");
    assert_eq!(project.total_layer_num, 120);
    let m = PrintData { gcode_state: Some(GcodeState::Unsupported), ..message() };
    assert!(!p.process_print_message__print_project_logic(&m).changed);
    assert!(p.curr_print_project.is_some());
}

#[test]
fn analysis_is_taken_only_where_it_is_awaited() {
    let mut project = PrintProject::new("n", "u", "g", &vec![], None, None);
    assert!(!project.receive_analysis(1, 0, FilamentUsage::new(vec![])));
    project.gcode_analysis = GcodeAnalysis::Requested { at: 0, job_number: 2 };
    assert!(!project.awaits(1));
    assert!(!project.receive_analysis(1, 0, FilamentUsage::new(vec![])));
    assert!(project.receive_analysis(2, 9, FilamentUsage::new(vec![entry(4, 0, 1.0)])));
    assert_eq!(project.consume_index, 0);
    assert_eq!(project.curr_usage_entry().unwrap().layer, 4);
}

#[test]
fn nothing_is_charged_without_need() {
    let p = running(vec![entry(0, 0, 1.0)]);
    let mut project = PrintProject::new("n", "u", "g", &vec![2], None, None);
    project.gcode_analysis = GcodeAnalysis::Received { at: 0, job_number: 1, usage: FilamentUsage::new(vec![entry(0, 0, 1.0)]) };
    project.consume_index = 0;
    let mut taken = Vec::new();
    assert!(!p.try_consume(&mut project, ConsumeType::Finish, &mut taken));
    assert!(taken.is_empty());
    project.need_consume = true;
    assert!(p.try_consume(&mut project, ConsumeType::Finish, &mut taken));
    assert_eq!(taken.len(), 1);
    assert_eq!(project.consume_index, 1);
}
