use morphit_robot::cli::{
    build_config, device_line, export_color, export_format, export_name, merge_weights, parse_set,
    preset_line, progress_due, progress_line, settings_in_file, ConfigEdit, ModelFormat, PackArgs,
};
use morphit_robot::js;
use morphit_robot::js::{
    centers_of, log_level, model_color, request_params, JsSession, PackRequest, SessionState,
    Snapshot, StepEnd, StepRun,
};
use morphit_robot::capi::log::LogLevel;
use morphit_robot::inspect::{inspect_urdf_in, InspectionReport};
use morphit_robot::report;
use morphit_robot::report::{MeshFacts, PrepReport, RunStart};
use morphit_robot::server::object_mode::MeshFormat;
use morphit_robot::vfs::MemPackage;

fn args() -> PackArgs {
    PackArgs {
        spheres: None,
        iterations: None,
        seed: None,
        per_sphere_mass: false,
        device: None,
        sets: vec![],
    }
}

#[test]
fn settings() {
    assert_eq!(parse_set("training.center_lr=0.001").unwrap(), ("training.center_lr".into(), "0.001".into()));
    assert_eq!(parse_set(" a.b =x=y").unwrap(), ("a.b".into(), "\"x=y\"".into()));
    assert_eq!(parse_set("k=true").unwrap(), ("k".into(), "true".into()));
    assert_eq!(parse_set("k").unwrap_err(), "expected KEY=VALUE, got `k`");
}

#[test]
fn options_become_edits() {
    let a = PackArgs {
        spheres: Some(6),
        iterations: Some(20),
        seed: Some(1),
        per_sphere_mass: true,
        device: Some("cpu".into()),
        sets: vec!["training.center_lr=0.001".into()],
    };
    let (e, fault) = build_config(&a);
    assert_eq!(fault, None);
    assert_eq!(e.len(), 6);
    assert!(matches!(e[0], ConfigEdit::Spheres(6)));
    assert!(matches!(e[1], ConfigEdit::Iterations(20)));
    assert!(matches!(e[2], ConfigEdit::Seed(1)));
    assert!(matches!(e[3], ConfigEdit::PerSphereMass));
    assert!(matches!(&e[4], ConfigEdit::Device(d) if d == "cpu"));
    assert!(matches!(&e[5], ConfigEdit::Override(k, v) if k == "training.center_lr" && v == "0.001"));
    let (e, fault) = build_config(&args());
    assert!(e.is_empty() && fault.is_none());
    let bad = PackArgs { sets: vec!["x".into()], ..args() };
    assert_eq!(build_config(&bad).1.unwrap(), "expected KEY=VALUE, got `x`");
    // What stands before a malformed override still applies first.
    let sets = vec!["a=1".into(), "x".into(), "b=2".into(), "y".into()];
    let (e, fault) = build_config(&PackArgs { sets, device: Some("tpu".into()), ..args() });
    assert_eq!(fault.unwrap(), "expected KEY=VALUE, got `x`");
    assert_eq!(e.len(), 2);
    assert!(matches!(&e[0], ConfigEdit::Device(d) if d == "tpu"));
    assert!(matches!(&e[1], ConfigEdit::Override(k, v) if k == "a" && v == "1"));
}

#[test]
fn file_weights_win_only_where_they_are_set() {
    let keys = ["coverage_weight".to_string(), "overlap_weight".to_string()];
    let set = settings_in_file(r#"{"training": {"overlap_weight": 7}}"#, &keys);
    assert_eq!(set, [false, true]);
    assert_eq!(merge_weights(&[1.0, 2.0], &[5.0, 7.0], &set), [1.0, 7.0]);
    assert_eq!(settings_in_file("{}", &keys), [false, false]);
    assert_eq!(settings_in_file("not json", &keys), [false, false]);
}

#[test]
fn export_choices() {
    assert_eq!(export_format(None, Some("cube.XML")), ModelFormat::Mjcf);
    assert_eq!(export_format(None, Some("cube.urdf")), ModelFormat::Urdf);
    assert_eq!(export_format(None, None), ModelFormat::Urdf);
    assert_eq!(export_format(Some(ModelFormat::Urdf), Some("cube.xml")), ModelFormat::Urdf);
    assert_eq!(export_name(None, "meshes/cube.obj"), "cube");
    assert_eq!(export_name(None, ""), "object");
    assert_eq!(export_name(Some("box"), "cube.obj"), "box");
    assert_eq!(export_color("#ff0000").unwrap(), [255, 0, 0, 255]);
    assert_eq!(export_color("blue").unwrap_err(), "--color must be #rrggbb, got blue");
}

#[test]
fn progress_lines() {
    assert!(progress_due(false, 20, 10, false, false));
    assert!(!progress_due(false, 21, 10, false, false));
    assert!(progress_due(false, 21, 10, true, false));
    assert!(progress_due(false, 21, 10, false, true));
    assert!(!progress_due(true, 20, 10, true, true));
    assert_eq!(progress_line(3, 200, "0.500000", 20, None), "iter     3/200  loss     0.500000  spheres  20");
    assert!(progress_line(3, 200, "1", 20, Some(2)).ends_with("  density control: replaced 2"));
}

#[test]
fn presets_and_devices() {
    let w = [("coverage_weight".to_string(), "5000".to_string()), ("sqem_weight".to_string(), "1".to_string())];
    assert_eq!(preset_line("MorphIt-V", &w), "MorphIt-V         coverage=5000 sqem=1");
    assert_eq!(device_line(0, "X", "DiscreteGpu", "Vulkan", false), "gpu:0  X  (DiscreteGpu, Vulkan)");
    assert_eq!(
        device_line(1, "L", "Cpu", "Vulkan", true),
        "gpu:1  L  (Cpu, Vulkan, software rasterizer)"
    );
    assert_eq!(
        report::devices(vec![]),
        ["no GPU adapters (device `gpu` is unavailable; `auto` and `cpu` use the CPU)"]
    );
    assert_eq!(report::devices(vec!["gpu:0".into()]), ["gpu:0"]);
}

fn prep(action: &str, reason: &str) -> PrepReport {
    PrepReport {
        action: action.into(),
        reason: reason.into(),
        bodies: 2,
        closed: 2,
        open: 0,
        degenerate_dropped: 0,
        overlapping: true,
    }
}

#[test]
fn mesh_preparation_notes() {
    let p = prep("unioned", "2 overlapping closed bodies unioned");
    assert_eq!(report::prep_note(&p).unwrap(), "mesh prep: 2 overlapping closed bodies unioned");
    assert_eq!(
        report::scoring_note(&p, false).unwrap(),
        "scoring the prepared mesh: 2 overlapping closed bodies unioned"
    );
    assert_eq!(report::scoring_note(&p, true), None);
    assert!(report::prepare_note(&p).starts_with("mesh prep: unioned"));
    let p = prep("hulled", "2 bodies replaced by convex hulls");
    assert_eq!(report::prep_note(&p).unwrap(), "mesh prep: 2 bodies replaced by convex hulls");
    for action in ["unchanged", "skipped", "disabled"] {
        assert_eq!(report::prep_note(&prep(action, "x")), None);
        assert_eq!(report::scoring_note(&prep(action, "x"), false), None);
    }
}

#[test]
fn prepared_mesh_formats() {
    assert_eq!(report::prepare_format(None, Some("prepared.obj")), Ok(MeshFormat::Obj));
    assert_eq!(report::prepare_format(None, Some("raw.STL")), Ok(MeshFormat::Stl));
    assert_eq!(report::prepare_format(None, None), Ok(MeshFormat::Obj));
    assert_eq!(report::prepare_format(Some(MeshFormat::Stl), Some("x.obj")), Ok(MeshFormat::Stl));
    assert!(report::prepare_format(Some(MeshFormat::Stl), None).is_err());
}

#[test]
fn run_lines() {
    let r = RunStart {
        mesh: "cube.obj".into(),
        spheres: 6,
        preset: "MorphIt-B".into(),
        iterations: 20,
        seed: 1,
        device: "cpu".into(),
    };
    assert_eq!(
        report::start_line(&r),
        "packing cube.obj with 6 spheres (MorphIt-B), 20 iterations, seed 1, device cpu"
    );
    assert_eq!(report::end_line(true, "0.25", 6, 1), "converged in 0.25s: 6 spheres (1 pruned)");
    assert_eq!(report::end_line(false, "0.25", 6, 0), "completed in 0.25s: 6 spheres (0 pruned)");
    assert_eq!(
        report::wrote_line("o.urdf", 4, true, "0.000000", "1.000000", "2.000000"),
        "wrote o.urdf (4 spheres, anchored, origin 0.000000 1.000000 2.000000)"
    );
    assert!(report::uses_masses(4, 4) && !report::uses_masses(0, 4));
}

#[test]
fn quality_tables() {
    let head = format!(
        "{:>6} {:>5} {:>6} {:>6} {:>6} {:>6} {:>9} {:>9} {:>9} {:>9} {:>9}",
        "actual", "n_out", "n_tiny", "r_in", "r_out", "r_uni", "d_avg_mm", "d_max_mm", "mass_rel", "com_rel", "I_rel"
    );
    assert_eq!(report::metrics_heading(), head);
    let cells: Vec<String> = (0..11).map(|i| format!("{i}.000")).collect();
    assert_eq!(report::metrics_row(&cells).chars().count(), head.chars().count());
    assert!(report::metrics_row(&cells).starts_with(" 0.000 1.000  2.000"));
}

#[test]
fn mesh_reports() {
    let f = MeshFacts {
        file: "cube.obj".into(),
        vertices: 8,
        faces: 12,
        volume: "3.500000000e-1".into(),
        area: "a".into(),
        scale: "s".into(),
        bounds_min: "[0.0, 0.0, 0.0]".into(),
        bounds_max: "[1.0, 0.7, 0.5]".into(),
        center_mass: "c".into(),
        inertia: vec!["[1, 0, 0]".into(), "[0, 1, 0]".into(), "[0, 0, 1]".into()],
        winding_flipped: true,
        prepared: (20, "9.0e-1".into()),
    };
    let lines = report::info(&f, &prep("unioned", "2 overlapping convex hulls unioned"));
    let text = lines.join("\n");
    assert!(text.contains("faces         12"));
    assert!(text.contains("volume        3.5"));
    assert!(text.contains("mesh prep     unioned (2 overlapping convex hulls unioned)"));
    assert!(text.contains("bodies        2 (2 closed, 0 open, 0 degenerate dropped), overlapping: true"));
    assert!(text.contains("note          faces were wound inward and have been flipped"));
    assert!(text.contains("              [0, 1, 0]"));
    assert!(text.ends_with("union         20 faces, volume 9.0e-1"));
    assert_eq!(lines.len(), 17);
    let plain = MeshFacts { winding_flipped: false, ..f };
    assert_eq!(report::info(&plain, &prep("unchanged", "single body")).len(), 15);
}

#[test]
fn step_limits() {
    let go = StepEnd { failed: false, over_budget: false, done: false };
    let mut r = StepRun::step_many(Some(4));
    let mut n = 0;
    while r.may_step(false) {
        r.stepped(go);
        n += 1;
    }
    assert_eq!(n, 4);
    let mut r = StepRun::step_many(None);
    assert!(r.may_step(false) && !r.may_step(true));
    r.stepped(StepEnd { over_budget: true, ..go });
    assert!(!r.may_step(false));
    let mut r = StepRun::step_many(Some(9));
    r.stepped(StepEnd { failed: true, ..go });
    assert!(!r.may_step(false));
    let mut r = StepRun::step();
    r.stepped(go);
    assert!(!r.may_step(false));
    assert!(!StepRun::step_many(Some(0)).may_step(false));
}

#[test]
fn sessions_are_busy_while_a_step_is_in_flight() {
    let snap = Snapshot { iteration: 3, total_iterations: 10, state: SessionState::Running, done: false };
    let mut s = JsSession::from_session(snap);
    assert!(s.with().is_ok());
    assert!(s.take().is_ok());
    assert_eq!(s.with().unwrap_err(), "session busy: a step is in progress");
    assert_eq!(s.take().unwrap_err(), "session busy: a step is in progress");
    assert_eq!((s.iteration(), s.total_iterations(), s.state().as_str()), (3, 10, "running"));
    s.put(Snapshot { iteration: 10, state: SessionState::Finalized, done: true, ..snap });
    assert!(s.with().is_ok() && s.is_done());
    assert_eq!((s.iteration(), s.state().as_str()), (10, "finalized"));
}

fn request() -> PackRequest {
    PackRequest {
        variant: None,
        num_spheres: None,
        iterations: None,
        seed: None,
        advanced: None,
        union_overlapping_bodies: None,
        convex_hull: None,
    }
}

fn report_of() -> InspectionReport {
    let urdf = r#"<robot name="r">
  <link name="base"><collision><geometry><mesh filename="c.stl"/></geometry></collision></link>
  <link name="arm"><collision><geometry><box size="1 1 1"/></geometry></collision></link>
</robot>"#;
    let pkg = MemPackage::from_files(vec![
        ("r/r.urdf".into(), urdf.as_bytes().to_vec()),
        ("r/c.stl".into(), b"solid".to_vec()),
    ])
    .unwrap();
    inspect_urdf_in(&pkg, "r/r.urdf").unwrap()
}

#[test]
fn pack_requests_from_javascript() {
    let p = request_params(&request()).unwrap();
    assert_eq!((p.variant.as_str(), p.num_spheres, p.iterations, p.seed), ("MorphIt-B", 20, 200, None));
    assert!(p.union_overlapping_bodies && !p.convex_hull);
    let r = PackRequest {
        num_spheres: Some(4),
        iterations: Some(5),
        seed: Some(1),
        advanced: Some(r#"{"coverage_weight": 2.0}"#.into()),
        union_overlapping_bodies: Some(false),
        convex_hull: Some(true),
        ..request()
    };
    let p = request_params(&r).unwrap();
    assert_eq!(p.advanced, [("training.coverage_weight".to_string(), "2.0".to_string())]);
    assert!(!p.union_overlapping_bodies && p.convex_hull);
    let bad = PackRequest { num_spheres: Some(0), ..request() };
    assert_eq!(request_params(&bad).unwrap_err().message(), "num_spheres must be in [1, 200]");
    let bad = PackRequest { advanced: Some("[]".into()), ..request() };
    assert_eq!(request_params(&bad).unwrap_err().message(), "advanced must be a JSON object");

    let items = report_of().collisions;
    let plan = js::pack_link(&items[0], &p, Some("cpu")).unwrap();
    assert_eq!(plan.mesh_path, "r/c.stl");
    assert_eq!((plan.settings.device.as_str(), plan.settings.results_dir.as_str()), ("cpu", "spheres"));
    assert_eq!(plan.settings.output_filename, "base_0.json");
    assert_eq!(js::pack_link(&items[0], &p, None).unwrap().settings.device, "auto");
    assert!(js::pack_link(&items[1], &p, None).is_err(), "a box is not packed");
}

#[test]
fn flat_arrays_and_colors() {
    assert_eq!(centers_of(&[0.0, 0.5, 1.0, 2.0, 3.0, 4.0]).unwrap(), [[0.0, 0.5, 1.0], [2.0, 3.0, 4.0]]);
    assert_eq!(centers_of(&[0.0; 4]).unwrap_err(), "centers must hold x y z triples");
    assert!(centers_of::<u8>(&[]).unwrap().is_empty());
    assert_eq!(model_color(None).unwrap(), [51, 153, 255, 255]);
    assert_eq!(model_color(Some("#102030")).unwrap(), [16, 32, 48, 255]);
    assert_eq!(model_color(Some("blue")).unwrap_err(), "color must be #rrggbb, got blue");
    assert_eq!(log_level(None), LogLevel::Warn);
    assert_eq!(log_level(Some("trace")), LogLevel::Trace);
    assert_eq!(log_level(Some("loud")), LogLevel::Warn);
}
