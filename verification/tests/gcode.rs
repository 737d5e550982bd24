use spoolease::bambu_print::FilamentUsage;
use spoolease::gcode_analysis::{classify, GcodeAction, GcodeError, GcodeFilamentCalc, LineKind};
use spoolease::gcode_analysis_task::{
    noop_due, FetchAction, FetchEvent, FetchStage, GcodeAnalysisRequest, GcodeAnalyzerObserver, FTP_PORT,
};
use spoolease::net::Ipv4Address;

fn shown(actions: Vec<GcodeAction>) -> Vec<String> {
    actions.iter().map(|a| format!("{a:?}")).collect()
}

#[test]
fn lines_are_told_apart() {
    for (line, kind) in [
        ("; CHANGE_LAYER", LineKind::LayerChange),
        ("M620 S1A", LineKind::FilamentChange),
        ("M620.11 S1 I0 E-18 F523", LineKind::PullBack),
        ("G1 X2 E.5", LineKind::Move),
        ("; total layer number: 12", LineKind::TotalLayers),
        ("; filament_density: 1.24", LineKind::Density),
        ("; filament_diameter: 1.75", LineKind::Diameter),
        ("; filament: 1,3", LineKind::FilamentIds),
        ("M621 S1A", LineKind::Other),
        ("", LineKind::Other),
    ] {
        assert_eq!(classify(&line.chars().collect::<Vec<_>>()), kind, "{line}");
    }
}

#[test]
fn pieces_read_as_one() {
    let file = "G1 E1\r\n; CHANGE_LAYER\nM620 S0A\nrest é".as_bytes();
    let mut whole = GcodeFilamentCalc::new();
    let lines = whole.add_buffer(file).unwrap();
    assert_eq!(lines, vec!["G1 E1", "; CHANGE_LAYER", "M620 S0A"]);
    assert_eq!(whole.gcode_buffer, "rest é".as_bytes());
    for cut in 0..=file.len() {
        let mut calc = GcodeFilamentCalc::new();
        let mut read = calc.add_buffer(&file[..cut]).unwrap();
        read.extend(calc.add_buffer(&file[cut..]).unwrap());
        assert_eq!(read, lines);
        assert_eq!(calc.gcode_buffer, whole.gcode_buffer);
    }
}

#[test]
fn what_is_not_text_is_refused_and_dropped() {
    let mut calc = GcodeFilamentCalc::new();
    assert!(calc.add_buffer(&[b'G', 0xff]).unwrap().is_empty());
    assert_eq!(calc.add_buffer(&[b'\n', b'x']), Err(GcodeError::NotUtf8));
    assert!(calc.gcode_buffer.is_empty());
}

#[test]
fn layers_and_filaments_are_followed() {
    let mut calc = GcodeFilamentCalc::new();
    assert!(!calc.can_read("; CHANGE_LAYER"));
    assert!(calc.can_read("M620 S1A"));
    assert_eq!(
        shown(calc.process_line("M620 S1A").unwrap()),
        vec!["CloseEntryIfExtruded { layer: 0, loaded: None }", "ResetPosition"]
    );
    assert_eq!(calc.curr_filament_id, Some(1));
    assert_eq!(calc.filament_swaps, 1);
    assert_eq!(
        shown(calc.process_line("M620 S1A S3A").unwrap()),
        vec![
            "CloseEntryIfExtruded { layer: 0, loaded: Some(1) }",
            "CloseEntryIfExtruded { layer: 0, loaded: Some(1) }",
            "ResetPosition"
        ]
    );
    assert_eq!(calc.filament_swaps, 2);
    assert_eq!(
        shown(calc.process_line("; CHANGE_LAYER").unwrap()),
        vec!["CloseEntry { layer: 0, filament_id: 3 }"]
    );
    assert_eq!(calc.curr_layer, 1);
    assert_eq!(format!("{:?}", calc.done()), "CloseEntry { layer: 1, filament_id: 3 }");
    assert_eq!(calc.curr_layer, 2);
    assert_eq!(calc.curr_gcode_line, 3);
    assert!(!calc.can_read("M620 SxA"));
    assert!(!calc.can_read("M620 SA"));
    assert!(calc.can_read("M620 S-1A"));
}

#[test]
fn each_layer_is_ended_once() {
    let mut calc = GcodeFilamentCalc::new();
    let file = b"M620 S0A\nG1 E1\n; CHANGE_LAYER\nM620 S1A\n; CHANGE_LAYER\nG1 E2\nM620 S0A\n; CHANGE_LAYER";
    let mut ended = Vec::new();
    let mut switched = Vec::new();
    for line in calc.add_buffer(file).unwrap() {
        assert!(calc.can_read(&line));
        for action in calc.process_line(&line).unwrap() {
            match action {
                GcodeAction::CloseEntry { layer, .. } => ended.push(layer),
                GcodeAction::CloseEntryIfExtruded { layer, .. } => switched.push((ended.len() as i32, layer)),
                _ => {}
            }
        }
    }
    assert_eq!(switched, vec![(0, 0), (1, 1), (2, 2)]);
    if let GcodeAction::CloseEntry { layer, filament_id } = calc.done() {
        assert_eq!(filament_id, 0);
        ended.push(layer);
    }
    assert_eq!(ended, vec![0, 1, 2]);
}

#[test]
fn unfinished_line_is_not_read() {
    let mut calc = GcodeFilamentCalc::new();
    assert_eq!(calc.add_buffer(b"G1\n; CHANGE").unwrap(), vec!["G1"]);
    assert!(calc.add_buffer(b"_LAYER").unwrap().is_empty());
    assert_eq!(calc.gcode_buffer, b"; CHANGE_LAYER");
}

#[test]
fn nothing_waits_after_a_bad_list_of_filaments() {
    let mut calc = GcodeFilamentCalc::new();
    let lines = calc.add_buffer(b"; filament: 1,x\n; rest").unwrap();
    assert_eq!(calc.gcode_buffer, b"; rest");
    assert!(matches!(calc.process_line(&lines[0]), Err(GcodeError::FilamentIds)));
    assert!(calc.gcode_buffer.is_empty());
}

#[test]
fn extrusion_is_handed_on() {
    let mut calc = GcodeFilamentCalc::new();
    assert_eq!(
        shown(calc.process_line("G1 X1 E.5 F3 E-2").unwrap()),
        vec!["Extrude { length: \".5\" }", "Extrude { length: \"-2\" }"]
    );
    assert_eq!(shown(calc.process_line("M620.11 S1 I0 E-18 F523").unwrap()), vec!["PullBack { length: \"-18\" }"]);
    assert!(calc.process_line("; comment").unwrap().is_empty());
}

#[test]
fn head_of_the_file_is_read() {
    let mut calc = GcodeFilamentCalc::new();
    assert_eq!(
        shown(calc.process_line("; filament_density: 1.24,1.04").unwrap()),
        vec!["Density { value: \"1.24\" }", "Density { value: \"1.04\" }"]
    );
    assert_eq!(shown(calc.process_line("; filament_diameter: 1.75").unwrap()), vec!["Diameter { value: \"1.75\" }"]);
    assert_eq!(shown(calc.process_line("; total layer number: 12").unwrap()), vec!["Reserve { entries: 12 }"]);
    assert!(calc.process_line("; total layer number: x").unwrap().is_empty());
    assert!(calc.process_line("; filament: 2,1,5").unwrap().is_empty());
    let index = &calc.gcode_filament_id_to_slicer_filament_index;
    assert_eq!((index.get(1), index.get(0), index.get(4), index.get(2)), (Some(&0), Some(&1), Some(&2), None));
    assert!(matches!(calc.process_line("; filament: 7,x,9"), Err(GcodeError::FilamentIds)));
    let index = &calc.gcode_filament_id_to_slicer_filament_index;
    assert_eq!((index.get(6), index.get(8)), (Some(&0), None));
    assert!(!calc.can_read("; filament: 3,0"));
    assert!(calc.can_read("; filament: 3,x,0"));
}

#[test]
fn unused_slots_are_left_out() {
    let mut calc = GcodeFilamentCalc::new();
    calc.set_bbl_info(&vec![2, -1, 0]);
    calc.set_bbl_info(&vec![-1, 3]);
    assert_eq!(calc.ams_slots, vec![2, 0, 3]);
}

fn request(name: &str) -> GcodeAnalysisRequest {
    GcodeAnalysisRequest {
        ip: Ipv4Address { a: 10, b: 0, c: 0, d: 5 },
        serial: "S".to_string(),
        access_code: "c".to_string(),
        subtask_name: name.to_string(),
        plate_idx: 3,
        printer_index: 0,
        printer_number: 1,
    }
}

#[test]
fn gcode_file_is_named_after_print_and_plate() {
    assert_eq!(request("cube.v2.3mf").gcode_file_name(), "/cache/cube_plate_3.gcode");
    assert_eq!(request("cube").gcode_file_name(), "/cache/cube_plate_3.gcode");
    assert_eq!(request("").gcode_file_name(), "/cache/_plate_3.gcode");
    assert_eq!(FTP_PORT, 990);
}

#[test]
fn transfer_takes_its_course() {
    let mut stage = FetchStage::Connecting;
    assert_eq!(stage.next(FetchEvent::Done), FetchAction::LogIn);
    assert_eq!(stage.next(FetchEvent::Done), FetchAction::OpenFile);
    assert_eq!(stage.next(FetchEvent::Done), FetchAction::Read);
    assert_eq!(stage.next(FetchEvent::Read), FetchAction::Read);
    assert_eq!(stage.next(FetchEvent::Ended), FetchAction::Complete);
    assert_eq!(stage, FetchStage::Idle);
}

#[test]
fn only_a_whole_file_is_completed() {
    let mut stage = FetchStage::LoggingIn;
    assert_eq!(stage.next(FetchEvent::Refused), FetchAction::Abandon);
    assert_eq!(stage, FetchStage::Idle);
    for first in [FetchStage::Connecting, FetchStage::LoggingIn, FetchStage::Opening, FetchStage::Reading] {
        let mut stage = first;
        assert_eq!(stage.next(FetchEvent::Failed), FetchAction::Abandon);
        let mut stage = first;
        assert_eq!(stage.next(FetchEvent::Ended) == FetchAction::Complete, first == FetchStage::Reading);
    }
}

#[test]
fn dialogue_is_kept_alive_after_half_a_minute() {
    assert!(!noop_due(30_000, 0));
    assert!(noop_due(30_001, 0));
    assert!(!noop_due(90_000, 60_000));
}

struct Seen(Vec<(usize, usize)>);

impl GcodeAnalyzerObserver for Seen {
    fn on_gcode_analysis(&mut self, printer_index: usize, filament_usage: FilamentUsage) {
        self.0.push((printer_index, filament_usage.data.len()));
    }
}

#[test]
fn observers_are_told_of_an_analysis() {
    let mut seen = Seen(Vec::new());
    seen.on_gcode_analysis(2, FilamentUsage::new(Vec::new()));
    assert_eq!(seen.0, vec![(2, 0)]);
}
