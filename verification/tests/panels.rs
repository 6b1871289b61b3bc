use std::io::{Cursor, Write};

use morphit_robot::assemble::{Sphere, SphereSource};
use morphit_robot::capi::handles::{
    flatten, morphit_mesh_get_info, morphit_step_info, MeshFacts, Progress, Snapshot, StepInfo,
};
use morphit_robot::capi::run::RunControl;
use morphit_robot::capi::status::{
    morphit_config_set_f64, morphit_session_state, morphit_set_log_callback, morphit_status,
};
use morphit_robot::examples::example_robots as all_robots;
use morphit_robot::js::{centers_of, model_options, ModelOptions, SessionState};
use morphit_robot::js_robot::JsRobotPackage;
use morphit_robot::inspect::inspect_urdf_in;
use morphit_robot::numeral::Triple;
use morphit_robot::pack::{link_outcome, plan_link};
use morphit_robot::report::{PackRun, PrepReport, RunStart, StepNote};
use morphit_robot::studio::document::{
    example_robots, load_robot_example, loaded_meshes, options, robot_doc, robot_from_zip, Startup,
};
use morphit_robot::studio::form;
use morphit_robot::studio::form::{advanced_rows, Edit, Editor};
use morphit_robot::studio::frame::Delivered;
use morphit_robot::studio::job::Phase;
use morphit_robot::studio::panel;
use morphit_robot::studio::panel::{LinkScores, ObjectScores};
use morphit_robot::studio::state::{
    Export, Finished, JobSpec, JobStatus, Loaded, LoadedRobot, Mode, Params, QualityOut, Studio,
};
use morphit_robot::vfs::MemPackage;

const URDF: &str = r#"<robot name="r">
  <link name="a"><collision><geometry><mesh filename="c.stl"/></geometry></collision></link>
  <link name="b"><collision><geometry><box size="1 1 1"/></geometry></collision></link>
  <link name="c"><collision><geometry><mesh filename="c.stl"/></geometry></collision></link>
  <joint name="j" type="fixed"><parent link="a"/><child link="c"/></joint>
</robot>"#;

fn files() -> Vec<(String, Vec<u8>)> {
    vec![("r.urdf".into(), URDF.as_bytes().to_vec()), ("c.stl".into(), b"solid".to_vec())]
}

fn robot(loaded: Vec<bool>) -> Loaded {
    let pkg = MemPackage::from_files(files()).unwrap();
    Loaded::Robot(LoadedRobot {
        name: "r".into(),
        robot: robot_doc(&pkg, None).unwrap(),
        loaded,
        mesh_errors: vec![],
    })
}

fn studio() -> Studio<u32, u8> {
    Studio::new(Params::new(vec![]))
}

fn cube() -> Loaded {
    Loaded::Object { name: "cube".into(), faces: 12, volume: "1".into() }
}

fn nothing() -> Delivered<u32, u8> {
    Delivered { saved: vec![], quality: None, job: None }
}

fn message(s: &Studio<u32, u8>) -> (&str, bool) {
    s.message.as_ref().map(|(m, e)| (m.as_str(), *e)).unwrap()
}

#[test]
fn frames_take_over_what_was_delivered() {
    let mut s = studio();
    assert!(s.poll_load(None).is_none());
    s.poll(nothing());
    assert!(s.message.is_none());
    s.pack_after_load = true;
    s.load("mesh");
    let started = s.poll_load(Some(cube()));
    assert!(matches!(started, Some(JobSpec::Object { name, .. }) if name == "cube"));
    assert!(!s.pack_after_load && s.loading.is_none());
    s.begin_object_pack(Ok(()));
    assert_eq!(message(&s), ("Packing\u{2026}", false));
    let saved = vec![Ok(Some("a.json".into())), Ok(None), Err("disk full".into()), Ok(None)];
    s.poll(Delivered { saved, ..nothing() });
    assert_eq!(message(&s), ("disk full", true));
    // The job's report comes last.
    let st = JobStatus {
        phase: Phase::Done,
        item: 0,
        items: 1,
        device: "cpu".into(),
        iteration: 3,
        total_iterations: 3,
        error: None,
        finished: vec![Finished { key: None, value: 9 }],
    };
    s.poll(Delivered {
        saved: vec![Ok(Some("a.json".into()))],
        quality: Some(QualityOut::Object(5)),
        job: Some((1, st)),
    });
    let o = s.object.as_ref().unwrap();
    assert_eq!((o.result, o.quality), (Some(9), Some(5)));
    assert_eq!(message(&s), ("Packed cube in 3 iterations on cpu.", false));
    assert_eq!(s.save(Export::ResultJson).unwrap().0, "cube.spheres.json");
    assert!(s.save(Export::SphericalUrdf).is_none());
    assert_eq!(message(&s), ("no robot", true));
}

#[test]
fn files_are_opened_when_nothing_is_at_work() {
    let mut s = studio();
    assert!(!s.switch_urdf("x.urdf"));
    assert!(s.dropped_file("a.obj"));
    assert_eq!(message(&s), ("Loading a.obj\u{2026}", false));
    assert!(!s.dropped_file("b.obj"), "busy");
    assert_eq!(s.loading(), Some("a.obj"));
    s.load_done(robot(vec![true, false, true]));
    assert!(s.switch_urdf("x.urdf"));
    assert_eq!(s.loading(), Some("x.urdf"));

    let args = |v: &[&str]| options(&v.iter().map(|s| s.to_string()).collect::<Vec<_>>());
    let bundled = ["kinova_description".to_string()];
    let mut s = studio();
    let ex = s.startup_options(&args(&["--example", "kinova", "--pack"]), &bundled);
    assert!(matches!(ex, Some(Startup::Robot(_))));
    assert_eq!((s.mode, s.scene_dirty, s.pack_after_load), (Mode::Robot, true, true));
    assert!(s.loading().is_some());
    let mut s = studio();
    assert!(matches!(s.startup_options(&args(&["--example", "nope"]), &bundled), Some(Startup::Unknown)));
    assert!(s.loading().is_none() && s.message.is_none() && !s.pack_after_load);
    let mut s = studio();
    assert!(s.startup_options(&args(&["--open", "m.obj"]), &bundled).is_none());
    assert_eq!(message(&s), ("Loading m.obj\u{2026}", false));
}

#[test]
fn the_scene_shows_the_loaded_meshes() {
    let mut s = studio();
    assert!(s.rebuild().is_none());
    s.opened(cube());
    let parts = s.rebuild().unwrap();
    assert_eq!(parts.len(), 1);
    assert!(parts[0].collision.is_none() && parts[0].key.is_none() && parts[0].hue.is_none());
    assert!(!s.scene_dirty && s.update_spheres());
    assert!(!s.update_spheres());
    assert!(s.rebuild().is_none());
    s.view_controls(false);
    assert!(!s.scene_dirty);
    s.view_controls(true);
    assert!(s.scene_dirty);

    s.opened(robot(vec![true, false, true]));
    let parts = s.rebuild().unwrap();
    let shown: Vec<_> = parts.iter().map(|p| (p.collision, p.key.clone().unwrap().0, p.hue)).collect();
    assert_eq!(
        shown,
        [(Some(0), "a".to_string(), Some((0, 2))), (Some(2), "c".to_string(), Some((1, 2)))]
    );
    s.opened(robot(vec![false, true]));
    let parts = s.rebuild().unwrap();
    assert_eq!((parts.len(), parts[0].hue), (1, None), "a primitive is not packed");
    s.set_mode(Mode::Object);
    assert_eq!(s.rebuild().unwrap().len(), 1);
}

#[test]
fn controls_describe_the_document() {
    let mut s = studio();
    let c = panel::controls(&s);
    assert!(c.open && c.form && !c.table && c.document.is_none() && c.message.is_none());
    s.load("mesh");
    let c = panel::controls(&s);
    assert_eq!((c.open, c.loading.as_deref()), (false, Some("Loading mesh\u{2026}")));
    s.load_done(cube());
    assert_eq!(panel::controls(&s).document.as_deref(), Some("cube: 12 faces"));
    s.start_pack();
    s.begin_object_pack(Ok(()));
    let c = panel::controls(&s);
    assert!(!c.open && !c.form);
    assert_eq!(c.message, Some(("Packing\u{2026}".into(), false)));
    let mut s = studio();
    s.opened(robot(vec![true, false, true]));
    let c = panel::controls(&s);
    assert_eq!((c.document.as_deref(), c.urdf.as_deref(), c.table), (Some("r"), None, true));
    s.robot.as_mut().unwrap().urdfs.push("s.urdf".into());
    assert_eq!(panel::controls(&s).urdf.as_deref(), Some("r.urdf"));
}

#[test]
fn quality_is_shown_in_rows() {
    let mut s = studio();
    assert_eq!(panel::quality_hint(&s).as_deref(), Some("Pack, then Analyze for quality metrics."));
    s.set_mode(Mode::Robot);
    assert_eq!(panel::quality_hint(&s).as_deref(), Some("Pack, then Analyze for per-link metrics."));
    s.opened(cube());
    s.analyzed(QualityOut::Object(1));
    assert!(panel::quality_hint(&s).is_none());
    let q = ObjectScores {
        spheres: 20,
        outside: 1,
        tiny: 2,
        covered: "93.5".into(),
        uncovered: "4.0".into(),
        union: "1.024".into(),
        mean: "1.20".into(),
        max: "9.75".into(),
        mass: "0.3".into(),
        center: "0.04".into(),
        inertia: "2.1".into(),
    };
    let rows = panel::object_quality(&q);
    assert_eq!(rows.len(), 8);
    assert_eq!(rows[0], ("spheres".into(), "20 (1 outside, 2 tiny)".into()));
    assert_eq!(rows[4], ("surface distance".into(), "mean 1.20, max 9.75 (\u{d7}1000)".into()));
    assert_eq!(rows[7], ("inertia error".into(), "2.1 %".into()));
    let l = LinkScores {
        link: "a".into(),
        index: 1,
        spheres: 7,
        coverage: "88.0".into(),
        mean: "0.0012".into(),
        max: "0.0100".into(),
    };
    assert_eq!(panel::link_quality(&l), ["a[1]", "7", "88.0 %", "0.0012", "0.0100"]);
    assert_eq!(panel::quality_headings(), ["link", "spheres", "coverage", "d mean", "d max"]);
    assert_eq!(
        panel::overall_quality(27, "90.1", "0.0011", "0.0200"),
        "27 spheres \u{b7} coverage 90.1 % \u{b7} distance mean 0.0011, max 0.0200"
    );
    assert_eq!(panel::plots(true, &[false, true, false]), [0, 2]);
    assert!(panel::plots(false, &[false, false]).is_empty());
}

#[test]
fn the_form_is_edited() {
    assert_eq!(form::variants(), ["MorphIt-V", "MorphIt-S", "MorphIt-B"]);
    let values = [Some("1000".to_string()), None, Some("true".into()), Some("25".into()), Some("0.5".into())];
    let advanced = Params::advanced_for(&values);
    assert_eq!(advanced.len(), 13);
    assert_eq!(advanced[0], ("model.num_inside_samples".into(), "1000".into()));
    assert_eq!(advanced[1], ("model.num_surface_samples".into(), "null".into()));
    assert_eq!(advanced[12].0, "training.mesh_containment_weight");
    let mut p = Params::new(advanced);
    let rows = advanced_rows(&p);
    assert_eq!(rows[0].label, "num inside samples");
    assert!(matches!(rows[0].editor, Editor::Count(1000)));
    assert!(matches!(rows[1].editor, Editor::Fixed));
    assert!(matches!(rows[2].editor, Editor::Switch(true)));
    assert!(matches!(&rows[4].editor, Editor::Number(s) if s == "0.5"));
    form::params(&mut p, Edit::Spheres(0));
    form::params(&mut p, Edit::Iterations(5000));
    assert_eq!((p.num_spheres, p.iterations), (1, 1000));
    form::params(&mut p, Edit::RandomSeed(true));
    form::params(&mut p, Edit::Seed(7));
    assert_eq!((p.seed, p.pack_params().seed), (42, None));
    form::params(&mut p, Edit::RandomSeed(false));
    form::params(&mut p, Edit::Seed(7));
    assert_eq!(p.pack_params().seed, Some(7));
    form::params(&mut p, Edit::Switch(2, false));
    form::params(&mut p, Edit::Switch(0, false));
    form::params(&mut p, Edit::Count(0, 12));
    form::params(&mut p, Edit::Number(4, Some("0.25".into())));
    form::params(&mut p, Edit::Number(99, None));
    let now: Vec<&str> = p.advanced[..5].iter().map(|(_, v)| v.as_str()).collect();
    assert_eq!(now, ["12", "null", "false", "25", "0.25"]);
    form::params(&mut p, Edit::Number(4, None));
    assert_eq!(p.advanced[4].1, "null");
    form::params(&mut p, Edit::Variant("MorphIt-B".into(), vec![]));
    assert_eq!(p.advanced.len(), 13, "the preset did not change");
    form::params(&mut p, Edit::Variant("MorphIt-S".into(), vec![("k".into(), "1".into())]));
    assert_eq!((p.variant.as_str(), p.advanced.len()), ("MorphIt-S", 1));
    form::params(&mut p, Edit::PresetValues(vec![]));
    form::params(&mut p, Edit::Device("cpu".into()));
    form::params(&mut p, Edit::UnionOverlappingBodies(false));
    form::params(&mut p, Edit::ConvexHull(true));
    assert!(p.advanced.is_empty() && !p.union_overlapping_bodies && p.convex_hull);
    assert_eq!(p.device, "cpu");
    assert!(p.pack_params().validate().is_ok());
}

fn zipped(files: &[(String, Vec<u8>)]) -> Vec<u8> {
    let mut buf = Cursor::new(Vec::new());
    let mut w = zip::ZipWriter::new(&mut buf);
    for (name, bytes) in files {
        w.start_file(name.as_str(), zip::write::SimpleFileOptions::default()).unwrap();
        w.write_all(bytes).unwrap();
    }
    w.finish().unwrap();
    buf.into_inner()
}

#[test]
fn a_package_opens_alike_whichever_way_its_files_came() {
    let direct = robot_doc(&MemPackage::from_files(files()).unwrap(), None).unwrap();
    let archived = robot_from_zip("arm.zip", &zipped(&files())).ok().unwrap();
    assert_eq!((archived.name.as_str(), archived.robot.urdf.as_str()), ("arm", "r.urdf"));
    assert_eq!(archived.robot.urdf, direct.urdf);
    assert_eq!(archived.robot.meshes, direct.meshes);
    assert_eq!(archived.robot.report.collisions.len(), direct.report.collisions.len());
    // The first of several URDFs is opened, in whatever order the files are packed.
    let mut two = files();
    two.insert(0, ("s.urdf".into(), URDF.as_bytes().to_vec()));
    let archived = robot_from_zip("arm.zip", &zipped(&two)).ok().unwrap();
    assert_eq!(archived.robot.urdf, "r.urdf");
    assert_eq!(archived.robot.urdfs, ["r.urdf", "s.urdf"]);
    // A package without a URDF is refused with the same words.
    let none = files().split_off(1);
    let refused = robot_doc(&MemPackage::from_files(none.clone()).unwrap(), None).err().unwrap();
    assert_eq!(refused, "No .urdf files found in folder.");
    assert_eq!(robot_from_zip("arm.zip", &zipped(&none)).err().unwrap(), refused);
}

#[test]
fn packages_are_opened_by_name() {
    let e = robot_from_zip("arm.zip", b"no zip").err().unwrap();
    assert!(e.starts_with("arm.zip: not a valid zip archive: "), "{e}");
    let bundled = ["kinova_description".to_string()];
    let robots = example_robots(&bundled);
    assert_eq!((robots.len(), robots[0].name), (1, "kinova"));
    assert!(all_robots().len() > 1);
    let mut ex = robots[0];
    assert_eq!(load_robot_example(&ex, None).err().unwrap(), "kinova_description: not bundled");
    ex.urdf = "r.urdf";
    let read = |v: Vec<(String, Vec<u8>)>| v.into_iter().map(|(n, b)| (n, Ok(b))).collect::<Vec<_>>();
    let p = load_robot_example(&ex, Some(read(files()))).ok().unwrap();
    assert_eq!((p.name.as_str(), p.robot.urdf.as_str()), (ex.label, "r.urdf"));
    assert_eq!(p.robot.meshes, [Some("c.stl".to_string()), None, Some("c.stl".to_string())]);
    // One URDF asked for by name, and one that is not there.
    ex.urdf = "s.urdf";
    let e = load_robot_example(&ex, Some(read(files()))).err().unwrap();
    assert_eq!(e, "--urdf 's.urdf' not found. Available: ['r.urdf']");
    ex.urdf = "r.urdf";
    let mut some = read(files());
    some.push(("x".into(), Err("x: gone".into())));
    some.push(("../y".into(), Ok(vec![])));
    assert_eq!(load_robot_example(&ex, Some(some)).err().unwrap(), "x: gone");
    let bad = vec![("../y".to_string(), Ok(vec![])), ("x".to_string(), Err("x: gone".to_string()))];
    assert!(load_robot_example(&ex, Some(bad)).err().unwrap().starts_with("Bad upload path"));
    let items = p.robot.report.collisions;
    let (loaded, problems) = loaded_meshes(&items, &[None, Some("ignored".into()), Some("bad mesh".into())]);
    assert_eq!((loaded, problems), (vec![true, false, false], vec!["c[0]: bad mesh".to_string()]));
}

#[test]
fn packages_of_javascript() {
    let mut p = JsRobotPackage::new();
    assert_eq!(p.add_file("/r/../r.urdf", b"").is_err(), true);
    for (name, bytes) in files() {
        assert_eq!(p.add_file(&name, &bytes).unwrap(), name);
    }
    assert_eq!((p.files(), p.urdfs()), (vec!["c.stl".to_string(), "r.urdf".into()], vec!["r.urdf".to_string()]));
    assert_eq!(p.select_urdf(None).unwrap(), "r.urdf");
    assert!(p.select_urdf(Some("x.urdf")).is_err());
    assert_eq!(p.inspect(None).unwrap().collisions.len(), 3);
    assert!(p.inspect(Some("x.urdf")).is_err());
    assert_eq!(p.link_poses(None).unwrap().len(), 3);
    let json = r#"{"centers":[[0,0,1]],"radii":[0.5]}"#;
    p.set_link_result("a", 0, json).unwrap();
    assert_eq!(p.set_link_result("c", 0, "{}").unwrap_err().message(), "c_0.json: missing or malformed centers/radii");
    let set = p.link_result("a", 0).unwrap();
    assert_eq!((set.radii.len(), p.link_result("c", 0).is_none()), (1, true));
    let at = Triple { x: "0".into(), y: "0".into(), z: "1".into() };
    let sphere = |radius: &str| vec![Sphere { radius: radius.into(), at: at.clone() }];
    // The result that was recorded last counts.
    p.set_link_result("a", 0, json).unwrap();
    let placed = [sphere("0.7"), sphere("0.5")];
    let source = p.link_spheres(&placed);
    assert_eq!(source.spheres("a", 0).unwrap().unwrap()[0].radius, "0.5");
    assert!(source.spheres("c", 0).unwrap().is_none());
    let (text, stats) = p.assemble(None, &placed, "0 0 1 1", &[]).unwrap().unwrap();
    assert!(text.contains("<sphere radius=\"0.5\" />") && !text.contains("0.7"), "{text}");
    assert_eq!((stats.mesh_collisions_replaced, stats.skipped_summary().as_str()), (1, "c[0]: missing JSON: c_0.json"));
    assert!(p.assemble(Some("x.urdf"), &placed, "0 0 1 1", &[]).unwrap().is_err());
    p.clear_link_results();
    assert!(p.assemble(None, &[], "0 0 1 1", &[]).unwrap().unwrap().1.mesh_collisions_replaced == 0);
    assert!(p.link_result("a", 0).is_none());
    assert!(JsRobotPackage::from_zip(b"no").is_err());
    assert_eq!(JsRobotPackage::from_files(files()).ok().unwrap().files().len(), 2);
}

fn step(done: bool, replaced: Option<usize>) -> StepInfo<f64> {
    StepInfo {
        iteration: 4,
        total_loss: 0.5,
        weighted_losses: [1.0; 12],
        raw_losses: [2.0; 12],
        position_grad_mag: 0.1,
        radius_grad_mag: 0.2,
        num_spheres: 2,
        projected: 1,
        density_control: replaced,
        done,
        converged: false,
        seconds: 0.01,
    }
}

#[test]
fn snapshots_are_what_readers_see() {
    let i = morphit_step_info::from_step(&step(true, Some(3)));
    assert_eq!((i.iteration, i.done, i.converged), (4, 1, 0));
    assert_eq!((i.density_control_fired, i.density_control_replaced), (1, 3));
    let i = morphit_step_info::from_step(&step(false, None));
    assert_eq!((i.done, i.density_control_fired, i.density_control_replaced), (0, 0, 0));
    let centers = [[1.0, 2.0, 3.0], [4.0, 5.0, 6.0]];
    let mut p = Progress {
        state: SessionState::Running,
        iteration: 0,
        total_iterations: 9,
        last_step: None,
        density_control_passes: 0,
        pruned: 0,
        seed: 11,
    };
    let s = Snapshot::of(&centers, vec![0.5, 0.25], vec![1.0, 2.0], &p, f64::NAN);
    assert!(s.total_loss.is_nan() && s.last_step.is_none());
    assert_eq!(s.centers, [1.0, 2.0, 3.0, 4.0, 5.0, 6.0]);
    assert_eq!(centers_of(&flatten(&centers)).unwrap(), centers);
    p.state = SessionState::Converged;
    p.iteration = 5;
    p.last_step = Some(step(true, None));
    let s = Snapshot::of(&centers, vec![0.5, 0.25], vec![1.0, 2.0], &p, f64::NAN);
    let info = s.morphit_state(true);
    assert_eq!(info.state, morphit_session_state::MORPHIT_STATE_CONVERGED);
    assert_eq!((info.iteration, info.total_iterations, info.num_spheres), (5, 9, 2));
    assert_eq!((info.total_loss, info.running, info.seed), (0.5, 1, 11));
    assert_eq!(s.morphit_sphere_count(), 2);
    let c = RunControl::new();
    assert!(c.morphit_finalize(true).is_ok());
    assert_eq!(c.morphit_finalize(false).unwrap_err().status, morphit_status::MORPHIT_ERR_STATE);
    assert_eq!(c.morphit_step(false, true).unwrap_err().status, morphit_status::MORPHIT_ERR_STATE);
    let mut c = RunControl::new();
    c.morphit_run();
    assert_eq!(c.morphit_finalize(true).unwrap_err().status, morphit_status::MORPHIT_ERR_BUSY);
}

#[test]
fn packing_runs_report_their_progress() {
    let start = RunStart {
        mesh: "a.obj".into(),
        spheres: 4,
        preset: "MorphIt-B".into(),
        iterations: 30,
        seed: 1,
        device: "cpu".into(),
    };
    let prep = PrepReport {
        action: "unioned".into(),
        reason: "2 overlapping closed bodies unioned".into(),
        bodies: 2,
        closed: 2,
        open: 0,
        degenerate_dropped: 0,
        overlapping: true,
    };
    let note = |iteration, replaced, done| StepNote {
        iteration,
        loss: "0.500000".into(),
        spheres: 4,
        replaced,
        done,
        converged: done,
    };
    let (mut run, lines) = PackRun::pack(false, 10, &start, &prep);
    assert_eq!(lines[0], "packing a.obj with 4 spheres (MorphIt-B), 30 iterations, seed 1, device cpu");
    assert_eq!(lines[1], "mesh prep: 2 overlapping closed bodies unioned");
    assert_eq!(run.stepped(&note(10, None, false)).unwrap(), "iter    10/30  loss     0.500000  spheres   4");
    assert!(run.stepped(&note(11, None, false)).is_none());
    assert!(run.stepped(&note(12, Some(1), false)).unwrap().ends_with("density control: replaced 1"));
    assert!(run.stepped(&note(13, None, true)).is_some());
    assert_eq!(run.ended("1.50", 3, 1).unwrap(), "converged in 1.50s: 3 spheres (1 pruned)");
    let (mut run, lines) = PackRun::pack(true, 0, &start, &prep);
    assert!(lines.is_empty() && run.stepped(&note(0, None, true)).is_none());
    assert!(run.ended("1.50", 3, 1).is_none());
    let (mut run, _) = PackRun::pack(false, 0, &start, &prep);
    assert!(run.stepped(&note(7, None, false)).is_some(), "every iteration");
}

#[test]
fn mesh_properties_for_c() {
    let m = MeshFacts {
        vertices: 8,
        faces: 12,
        volume: 1,
        area: 6,
        scale: 2,
        bounds_min: [0, 0, 0],
        bounds_max: [1, 1, 1],
        center_mass: [5, 5, 5],
        inertia: [[1, 2, 3], [4, 5, 6], [7, 8, 9]],
        winding_flipped: true,
    };
    let i = morphit_mesh_get_info(&m);
    assert_eq!((i.num_vertices, i.num_faces, i.winding_flipped), (8, 12, 1));
    assert_eq!(i.inertia, [1, 4, 7, 2, 5, 8, 3, 6, 9], "row by row");
    assert_eq!(morphit_set_log_callback(true).unwrap(), morphit_status::MORPHIT_OK);
    assert_eq!(morphit_set_log_callback(false).unwrap_err().status, morphit_status::MORPHIT_ERR_STATE);
    assert!(morphit_config_set_f64(true).is_ok());
    let e = morphit_config_set_f64(false).unwrap_err();
    assert_eq!((e.status, e.message.as_str()), (morphit_status::MORPHIT_ERR_CONFIG, "value must be finite"));
}

#[test]
fn model_options_have_defaults() {
    let mut o =
        ModelOptions { name: None, color: None, total_mass: None, anchored: None, decimals: None };
    let m = model_options(&o).unwrap();
    assert_eq!((m.robot_name.as_str(), m.decimals, m.total_mass.as_str(), m.anchored), ("object", 6, "1", false));
    assert_eq!(m.color, [51, 153, 255, 255]);
    o.color = Some("#ff0000".into());
    o.anchored = Some(true);
    o.decimals = Some(3);
    let m = model_options(&o).unwrap();
    assert_eq!((m.color, m.anchored, m.decimals), ([255, 0, 0, 255], true, 3));
    o.color = Some("red".into());
    assert_eq!(model_options(&o).unwrap_err(), "color must be #rrggbb, got red");
}

#[test]
fn a_packed_link_is_reported() {
    let pkg = MemPackage::from_files(files()).unwrap();
    let items = inspect_urdf_in(&pkg, "r.urdf").unwrap().to_pack();
    let params = Params::new(vec![]).pack_params();
    let plan = plan_link(&items[1], &params, "cpu", "out").unwrap();
    let o = link_outcome(&items[1], &params, &plan, 1_500_000_000);
    assert_eq!((o.link_name.as_str(), o.collision_index, o.num_spheres), ("c", 0, 20));
    assert_eq!((o.json_path.as_str(), o.elapsed), ("out/spheres/c_0.json", 1_500_000_000));
    let mut s = studio();
    s.say("hello".into(), true);
    assert_eq!(message(&s), ("hello", true));
}
