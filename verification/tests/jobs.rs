use spoolease::bambu::{BambuPrinter, Filament, PrinterModelSeries, Tray, TrayMetaInfo, TrayState};
use spoolease::bambu_print::{Fetch3mf, GcodeState, PrintProject};
use spoolease::gcode_jobs::{project_file_name, Dispatch, GcodeJobLocation, GcodeJobs};
use spoolease::grams::Grams;
use spoolease::net::Ipv4Address;

fn tray() -> Tray {
    Tray {
        state: TrayState::Unknown,
        filament: Filament::Unknown,
        cali_idx: None,
        meta_info: TrayMetaInfo {
            spool_id: None,
            used_in_print: false,
            consumed_since_load: Grams::zero(),
            consumed_since_load_saved: Grams::zero(),
            consumed_since_weight: Grams::zero(),
        },
    }
}

fn printer(model: PrinterModelSeries, fetch: Fetch3mf) -> BambuPrinter {
    BambuPrinter {
        printer_number: 2,
        printer_index: 1,
        printer_serial: "S1".to_string(),
        printer_name: "P".to_string(),
        printer_selector_name: "P".to_string(),
        printer_uuid_to_encode: String::new(),
        printer_access_code: "code".to_string(),
        printer_ip: Some(Ipv4Address { a: 10, b: 0, c: 0, d: 9 }),
        printer_connectivity_ok: None,
        model_series: model,
        fetch_3mf: fetch,
        track_print_consume: true,
        calibrations: Vec::new(),
        ams_exist_bits: None,
        ams_trays: Vec::new(),
        virt_tray: tray(),
        gcode_state: GcodeState::IDLE,
        layer_num: 0,
        tray_tar: 255,
        tray_now: 255,
        curr_print_project: None,
        observers: Vec::new(),
        notices: Vec::new(),
    }
}

fn project(file: &str) -> PrintProject {
    PrintProject::new("a/b!c", "https://x", file, &vec![0], None, None)
}

#[test]
fn names_are_those_that_the_printer_uses() {
    assert_eq!(project_file_name(PrinterModelSeries::P1, "a/b!c@d#e'f"), "/cache/a_b_c_d_e_f.3mf");
    assert_eq!(project_file_name(PrinterModelSeries::A1, "é!"), "/cache/é_.3mf");
    assert_eq!(project_file_name(PrinterModelSeries::X1, "a/b!c"), "/cache/a_b!c.3mf");
    assert_eq!(project_file_name(PrinterModelSeries::H2, ""), "/cache/.3mf");
    assert_eq!(project_file_name(PrinterModelSeries::Unknown, "@"), "/cache/@.3mf");
}

#[test]
fn requests_become_waiting_jobs() {
    let mut jobs = GcodeJobs::new();
    let p = printer(PrinterModelSeries::P1, Fetch3mf::PrinterFtp);
    assert_eq!(jobs.on_request_gcode_analysis(&p, &project("x")), 1);
    assert_eq!(jobs.on_request_gcode_analysis(&p, &project("x")), 2);
    let request = jobs.jobs[1].analysis_request.as_ref().unwrap();
    assert_eq!(request.threemf_ftp_filename, "/cache/a_b_c.3mf");
    assert_eq!((request.job_number, request.printer_number, request.printer_index), (2, 2, 1));
    assert_eq!(request.ip, Some(Ipv4Address { a: 10, b: 0, c: 0, d: 9 }));
    assert_eq!((request.serial.as_str(), request.access_code.as_str()), ("S1", "code"));
    assert_eq!((request.threemf_url.as_str(), request.gcode_filename_in_3mf.as_str()), ("https://x", "x"));
    assert!(request.ftp_memory_save);
}

#[test]
fn connections_depend_on_printer_and_transfer() {
    for (model, fetch, file, slots) in [
        (PrinterModelSeries::X1, Fetch3mf::PrinterFtp, "x", 2),
        (PrinterModelSeries::H2, Fetch3mf::PrinterFtp, "x", 2),
        (PrinterModelSeries::Unknown, Fetch3mf::PrinterFtp, "x", 2),
        (PrinterModelSeries::A1, Fetch3mf::PrinterFtp, "x", 1),
        (PrinterModelSeries::X1, Fetch3mf::CloudHttp, "x", 1),
        (PrinterModelSeries::X1, Fetch3mf::CloudHttp, "ftp://x", 2),
        (PrinterModelSeries::X1, Fetch3mf::CloudHttp, "file://x", 2),
        (PrinterModelSeries::P1, Fetch3mf::CloudHttp, "file://x", 1),
    ] {
        let mut jobs = GcodeJobs::new();
        jobs.on_request_gcode_analysis(&printer(model, fetch), &project(file));
        assert_eq!(jobs.jobs[0].tls_slots, slots);
        assert_eq!(jobs.jobs[0].analysis_request.as_ref().unwrap().ftp_memory_save, slots == 1);
    }
}

#[test]
fn console_is_never_overcommitted() {
    let p = printer(PrinterModelSeries::X1, Fetch3mf::PrinterFtp);
    let mut jobs = GcodeJobs::new();
    assert!(matches!(jobs.try_dispatch_next_gcode_job(1, true), Dispatch::Idle));
    for _ in 0..3 {
        jobs.on_request_gcode_analysis(&p, &project("x"));
    }
    let launched = jobs.try_dispatch_next_gcode_job(1, true);
    assert!(matches!(launched, Dispatch::Launch { first_request: Some(r) } if r.job_number == 1));
    assert_eq!((jobs.console_tasks, jobs.jobs[0].job_location), (1, GcodeJobLocation::Console));
    let sent = jobs.try_dispatch_next_gcode_job(1, true);
    assert!(matches!(sent, Dispatch::Scale { index: 1, request } if request.job_number == 2));
    assert!(!jobs.can_dispatch(1, true));
    jobs.dispatched(1, GcodeJobLocation::Scale, true);
    assert_eq!(jobs.jobs[1].job_location, GcodeJobLocation::Scale);
    assert!(jobs.can_dispatch(1, true) && !jobs.can_dispatch(4, true));
    jobs.job_ended(2);
    assert!(jobs.can_dispatch(1, false));
    assert!(matches!(jobs.try_dispatch_next_gcode_job(1, false), Dispatch::Wait));
    jobs.job_ended(1);
    let sent = jobs.try_dispatch_next_gcode_job(1, false);
    assert!(matches!(sent, Dispatch::Console { index: 0, request } if request.job_number == 3));
    jobs.dispatched(0, GcodeJobLocation::Console, false);
    assert_eq!(jobs.jobs[0].job_location, GcodeJobLocation::Pending);
    jobs.dispatched(0, GcodeJobLocation::Console, true);
    assert_eq!(jobs.jobs[0].job_location, GcodeJobLocation::Console);
    assert_eq!(jobs.console_tasks, 1);
}

#[test]
fn scale_is_never_overcommitted() {
    let p = printer(PrinterModelSeries::X1, Fetch3mf::PrinterFtp);
    let mut jobs = GcodeJobs::new();
    for _ in 0..4 {
        jobs.on_request_gcode_analysis(&p, &project("x"));
    }
    assert!(matches!(jobs.try_dispatch_next_gcode_job(1, true), Dispatch::Launch { .. }));
    for index in 1..3 {
        let sent = jobs.try_dispatch_next_gcode_job(1, true);
        assert!(matches!(sent, Dispatch::Scale { index: at, .. } if at == index));
        jobs.dispatched(index, GcodeJobLocation::Scale, true);
    }
    for scale_available in [true, false] {
        assert!(jobs.can_dispatch(1, scale_available));
        assert!(matches!(jobs.try_dispatch_next_gcode_job(1, scale_available), Dispatch::Wait));
    }
    jobs.job_ended(2);
    assert!(matches!(jobs.try_dispatch_next_gcode_job(1, true), Dispatch::Scale { index: 2, .. }));
}

#[test]
fn only_the_ended_job_is_gone() {
    let p = printer(PrinterModelSeries::P1, Fetch3mf::PrinterFtp);
    let mut jobs = GcodeJobs::new();
    for _ in 0..4 {
        jobs.on_request_gcode_analysis(&p, &project("x"));
    }
    jobs.try_dispatch_next_gcode_job(1, false);
    assert!(!jobs.on_cancel_gcode_analysis(3));
    assert!(jobs.on_cancel_gcode_analysis(1));
    assert!(jobs.on_cancel_gcode_analysis(9));
    let numbers = |jobs: &GcodeJobs| jobs.jobs.iter().map(|j| j.job_number).collect::<Vec<_>>();
    assert_eq!(numbers(&jobs), vec![1, 2, 4]);
    jobs.job_ended(2);
    jobs.job_ended(7);
    assert_eq!(numbers(&jobs), vec![1, 4]);
}
