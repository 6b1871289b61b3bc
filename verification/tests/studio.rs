use morphit_robot::assemble::{RewriteStats, Sphere};
use morphit_robot::config::PackParams;
use morphit_robot::inspect::{inspect_urdf_in, Action};
use morphit_robot::numeral::Triple;
use morphit_robot::studio::document::{
    ext_of, open_dropped, options, query_options, robot_doc, startup_example, stem_of, Dropped,
    Startup,
};
use morphit_robot::studio::job::{plan_item, JobAction, JobControl, Phase};
use morphit_robot::studio::panel;
use morphit_robot::studio::panel::{Cell, RunControls, Viewport};
use morphit_robot::studio::slot::Slots;
use morphit_robot::studio::state;
use morphit_robot::studio::state::{
    AnalysisPlan, Export, ExportSource, Finished, JobSpec, JobStatus, Loaded, LoadedRobot, Mode,
    Params, QualityOut, SphereSource, Studio,
};
use morphit_robot::vfs::MemPackage;
use morphit_robot::{EngineError, Error, Fault};

const URDF: &str = r#"<robot name="r">
  <link name="a"><collision><geometry><mesh filename="package://r/c.stl"/></geometry></collision></link>
  <link name="b"><collision><geometry><mesh filename="c.stl"/></geometry></collision></link>
</robot>"#;

fn package() -> MemPackage {
    MemPackage::from_files(vec![
        ("r/r.urdf".into(), URDF.as_bytes().to_vec()),
        ("r/c.stl".into(), b"solid".to_vec()),
    ])
    .unwrap()
}

fn params(iterations: usize) -> PackParams {
    PackParams {
        variant: "MorphIt-B".into(),
        num_spheres: 6,
        iterations,
        seed: Some(3),
        advanced: vec![],
        union_overlapping_bodies: true,
        convex_hull: false,
    }
}

/// Runs a job whose items have `iterations` each; returns the finished items.
fn run_job(c: &mut JobControl, iterations: usize) -> Vec<usize> {
    let mut finished = vec![];
    let mut i = 0;
    while c.begin(i) {
        c.ready();
        let mut done = 0;
        loop {
            match c.pack_one(done == iterations) {
                JobAction::Step => done += 1,
                JobAction::Finalize => {
                    finished.push(i);
                    break;
                }
                JobAction::Stop => break,
                JobAction::Idle => panic!("not paused"),
            }
        }
        i += 1;
    }
    c.finish(Ok(()));
    finished
}

#[test]
fn robot_job_packs_every_item_and_can_be_cancelled() {
    let items = inspect_urdf_in(&package(), "r/r.urdf").unwrap().to_pack();
    assert_eq!(items.len(), 2);
    for item in &items {
        let plan = plan_item(item, &params(5), "cpu").unwrap();
        assert_eq!(plan.mesh_path, "r/c.stl");
        assert_eq!(plan.settings.iterations, 5);
    }
    let mut job = JobControl::new(items.len());
    let keys: Vec<_> = run_job(&mut job, 5)
        .into_iter()
        .map(|i| (items[i].link_name.clone(), items[i].collision_index))
        .collect();
    assert_eq!(job.phase, Phase::Done);
    assert_eq!(keys, [("a".to_string(), 0), ("b".to_string(), 0)]);

    let mut job = JobControl::new(items.len());
    job.cancel_job();
    assert!(run_job(&mut job, 1000).is_empty());
    assert_eq!(job.phase, Phase::Cancelled);
    assert!(!job.is_running());
}

#[test]
fn jobs_pause_and_finish_early() {
    let mut c = JobControl::new(2);
    assert!(c.begin(0));
    c.ready();
    c.toggle_pause();
    assert_eq!(c.pack_one(false), JobAction::Idle);
    assert_eq!(c.phase, Phase::Paused);
    c.toggle_pause();
    assert_eq!(c.pack_one(false), JobAction::Step);
    c.finish_item();
    assert_eq!(c.pack_one(false), JobAction::Finalize);
    assert_eq!(c.pack_one(false), JobAction::Step, "the wish concerned one item");
    c.toggle_pause();
    c.cancel_job();
    assert_eq!(c.pack_one(false), JobAction::Stop);
    assert!(!c.begin(1));
    assert_eq!(c.finish(Err("broken".into())).unwrap(), "broken");
    assert_eq!(c.phase, Phase::Failed);
}

#[test]
fn slots_give_their_value_once() {
    let mut all: Slots<u8> = Slots::new();
    let s = all.slot();
    assert_eq!(s.take(&mut all), None);
    s.put(&mut all, 3);
    assert_eq!(s.take(&mut all), Some(3));
    assert_eq!(s.take(&mut all), None);
}

#[test]
fn clones_of_a_slot_share_it() {
    let mut all: Slots<u8> = Slots::new();
    let (other, s) = (all.slot(), all.slot());
    let c = s.clone();
    other.put(&mut all, 7);
    c.put(&mut all, 1);
    c.put(&mut all, 2);
    assert_eq!(s.take(&mut all), Some(2));
    assert_eq!(s.take(&mut all), None);
    assert_eq!(c.take(&mut all), None);
    assert_eq!(other.take(&mut all), Some(7));
}

#[test]
fn opening_files() {
    assert_eq!((ext_of("A.OBJ").as_str(), stem_of("dir.x").as_str()), ("obj", "dir"));
    assert_eq!(open_dropped("robot", true), Dropped::Folder);
    assert_eq!(open_dropped("r.ZIP", false), Dropped::Archive);
    assert_eq!(open_dropped("r.urdf", false), Dropped::Urdf);
    assert_eq!(open_dropped("m.stl", false), Dropped::Mesh);
    let d = robot_doc(&package(), None).unwrap();
    assert_eq!((d.urdf.as_str(), d.urdfs.len()), ("r/r.urdf", 1));
    assert_eq!(d.meshes, [Some("r/c.stl".to_string()), Some("r/c.stl".to_string())]);
    assert!(robot_doc(&package(), Some("nope.urdf")).is_err());
    assert!(robot_doc(&MemPackage::new(), None).is_err());
}

#[test]
fn startup_options() {
    let args: Vec<String> =
        ["--example", "bunny", "--pack", "--what", "--open"].iter().map(|s| s.to_string()).collect();
    let o = options(&args);
    assert_eq!((o.example.as_deref(), o.open, o.pack), (Some("bunny"), None, true));
    assert_eq!(o.unknown, ["--what"]);
    let o = query_options("?example=kinova&pack&x=1");
    assert_eq!((o.example.as_deref(), o.pack), (Some("kinova"), true));
    let o = query_options("");
    assert_eq!((o.example, o.pack), (None, false));
    let bundled = ["kinova_description".to_string()];
    assert!(matches!(startup_example("bunny", &bundled), Startup::Object(o) if o.filename == "bunny.obj"));
    assert!(matches!(startup_example("kinova", &bundled), Startup::Robot(r) if r.folder == "kinova_description"));
    assert!(matches!(startup_example("kinova", &[]), Startup::Unknown));
    assert!(matches!(startup_example("nope", &bundled), Startup::Unknown));
}

fn studio() -> Studio<u32, u8> {
    Studio::new(Params::new(vec![]))
}

fn with_object() -> Studio<u32, u8> {
    let mut s = studio();
    s.load("mesh");
    s.load_done(Loaded::Object { name: "cube".into(), faces: 12, volume: "2.4000e-4".into() });
    s
}

fn with_robot() -> Studio<u32, u8> {
    let mut s = studio();
    s.opened(Loaded::Robot(LoadedRobot {
        name: "r".into(),
        robot: robot_doc(&package(), None).unwrap(),
        loaded: vec![true, true],
        mesh_errors: vec![],
    }));
    s
}

fn message(s: &Studio<u32, u8>) -> (&str, bool) {
    s.message.as_ref().map(|(m, e)| (m.as_str(), *e)).unwrap()
}

fn finished(key: Option<(&str, usize)>, value: u32) -> Finished<u32> {
    Finished { key: key.map(|(l, i)| (l.to_string(), i)), value }
}

fn status(phase: Phase, finished: Vec<Finished<u32>>) -> JobStatus<u32> {
    JobStatus {
        phase,
        item: 0,
        items: 2,
        device: "cpu".into(),
        iteration: 5,
        total_iterations: 5,
        error: None,
        finished,
    }
}

#[test]
fn loading_documents() {
    let mut s = studio();
    s.pack_after_load = true;
    s.load("mesh");
    assert!(s.busy());
    assert_eq!((s.loading(), message(&s)), (Some("mesh"), ("Loading mesh\u{2026}", false)));
    let loaded = Loaded::Object { name: "cube".into(), faces: 12, volume: "2.4000e-4".into() };
    assert!(s.load_done(loaded), "pack it now");
    assert!(!s.pack_after_load && !s.busy());
    assert_eq!(message(&s), ("cube: 12 faces, volume 2.4000e-4", false));
    assert!(s.scene_dirty);
    s.opened(Loaded::Failed("no mesh".into()));
    assert_eq!(message(&s), ("no mesh", true));
    assert!(s.object.is_some());
    s.opened(Loaded::Nothing);
    assert!(s.message.is_none());
    let s = with_robot();
    assert_eq!((s.mode, message(&s)), (Mode::Robot, ("r: r/r.urdf (2 collisions, 2 to pack)", false)));
    let mut s = studio();
    s.opened(Loaded::Robot(LoadedRobot {
        name: "r".into(),
        robot: robot_doc(&package(), None).unwrap(),
        loaded: vec![true, false],
        mesh_errors: vec!["a".into(), "b".into()],
    }));
    assert_eq!(message(&s), ("r: r/r.urdf (2 collisions, 2 to pack); 2 meshes failed: a; b", true));
}

#[test]
fn packing_an_object() {
    let mut s = with_object();
    match s.start_pack() {
        Some(JobSpec::Object { name, settings }) => {
            assert_eq!((name.as_str(), settings.output_filename.as_str()), ("cube", "cube.json"));
            assert_eq!((settings.num_spheres, settings.iterations), (20, 200));
            assert_eq!(settings.random_seed, Some(42));
        }
        other => panic!("{other:?}"),
    }
    assert!(!s.job_running(), "the optimizer has not seen the settings yet");
    s.begin_object_pack(Ok(()));
    assert!(s.job_running() && s.busy());
    assert_eq!(message(&s), ("Packing\u{2026}", false));
    s.poll_job(1, status(Phase::Running, vec![]));
    assert_eq!(s.spheres_for(None), Some((3, SphereSource::Live)));
    s.poll_job(2, status(Phase::Done, vec![finished(None, 7)]));
    assert_eq!(message(&s), ("Packed cube in 5 iterations on cpu.", false));
    assert_eq!(s.object.as_ref().unwrap().result, Some(7));
    assert!(!s.job_running());
    assert_eq!(s.spheres_for(None), Some((4, SphereSource::Object)));
    // Settings that are refused keep the result and start nothing.
    assert!(s.start_pack().is_some());
    s.begin_object_pack(Err(EngineError {
        fault: Fault::Config,
        detail: "no such key".into(),
        message: "config: no such key".into(),
    }));
    assert_eq!(message(&s), ("config: no such key", true));
    assert_eq!(s.object.as_ref().unwrap().result, Some(7));
    assert!(!s.job_running());
    s.params.num_spheres = 0;
    assert!(s.start_pack().is_none());
    assert_eq!(message(&s), ("num_spheres must be in [1, 200]", true));
    s.params.random_seed = true;
    assert_eq!(s.params.pack_params().seed, None);
}

#[test]
fn a_failed_job_is_over_under_any_version() {
    let mut s = with_robot();
    for _ in 0..2 {
        assert!(s.start_pack().is_some());
        assert!(s.job_running());
        s.poll_job(3, status(Phase::Failed, vec![]));
        assert!(!s.job_running());
    }
}

#[test]
fn robots_are_assembled_from_their_results() {
    let mut s = with_robot();
    let at = Triple { x: "0".into(), y: "0".into(), z: "1".into() };
    let sphere = |radius: &str| vec![Sphere { radius: radius.into(), at: at.clone() }];
    let r = s.robot.as_mut().unwrap();
    state::set_result(&mut r.results, "b", 0, 1);
    assert!(s.assemble(&package(), &[sphere("0.25")], "0 0 1 1", &[]));
    let (text, summary) = s.robot.as_ref().unwrap().assembled.as_ref().unwrap();
    assert!(text.contains("<sphere radius=\"0.25\" />"), "{text}");
    assert_eq!(
        summary,
        "1 sphere links on 1 links; 0 primitive and 0 sphere collisions removed; \
         not packed: a[0]: missing JSON: a_0.json"
    );
    assert_eq!(message(&s), (summary.as_str(), false));
    let frame = panel::table_frame(&s).unwrap();
    assert_eq!((frame.collisions.as_str(), frame.packed.as_str()), ("2 collisions", "\u{b7} 1 packed"));
    assert_eq!(frame.assembled, Some((summary.clone(), format!("{} bytes", text.len()))));
    assert!(!frame.select_none);
    panel::click_row(&mut s, 1);
    assert!(panel::table_frame(&s).unwrap().select_none);
    panel::select_none(&mut s);
    assert_eq!(s.robot.as_ref().unwrap().selected, None);
    // The URDF is not in this package.
    assert!(s.assemble(&MemPackage::new(), &[sphere("1")], "0 0 1 1", &[]));
    assert!(s.message.as_ref().unwrap().1);
    s.robot.as_mut().unwrap().assembled = Some(("\u{e9}".into(), "short".into()));
    assert_eq!(panel::table_frame(&s).unwrap().assembled.unwrap().1, "2 bytes");
    assert!(panel::table_frame(&studio()).is_none());
    assert!(studio().assemble(&MemPackage::new(), &[], "", &[]));
}

#[test]
fn packing_a_robot() {
    let mut s = with_robot();
    match s.start_pack() {
        Some(JobSpec::Robot { items, device, .. }) => assert_eq!((items.len(), device.as_str()), (2, "auto")),
        other => panic!("{other:?}"),
    }
    s.poll_job(1, status(Phase::Running, vec![]));
    assert_eq!(s.live_key(), Some(("a".to_string(), 0)));
    let rows = panel::robot_table(&s);
    assert_eq!((rows[0].cell, rows[1].cell), (Cell::Busy, Cell::Waiting));
    s.poll_job(2, status(Phase::Running, vec![finished(Some(("a", 0)), 1)]));
    // The first pack was picked up already.
    let both = vec![finished(Some(("a", 0)), 9), finished(Some(("b", 0)), 2)];
    s.poll_job(3, status(Phase::Done, both));
    let r = s.robot.as_ref().unwrap();
    assert_eq!(r.results.iter().map(|x| x.value).collect::<Vec<_>>(), [1, 2]);
    assert_eq!(message(&s), ("Packed 2 collision meshes in 5 iterations on cpu.", false));
    assert!(s.start_pack().is_none());
    assert_eq!(message(&s), ("Every link is packed. Select a row to re-pack it.", false));
    panel::click_row(&mut s, 1);
    match s.start_pack() {
        Some(JobSpec::Robot { items, .. }) => assert_eq!(items[0].link_name, "b"),
        other => panic!("{other:?}"),
    }
    s.poll_job(4, status(Phase::Cancelled, vec![]));
    assert_eq!(message(&s), ("Cancelled.", false));
    s.poll_job(5, status(Phase::Failed, vec![]));
    assert_eq!(message(&s), ("failed", true));
    let v = s.results_version;
    s.clear_results();
    assert_eq!(s.results_version, v + 1);
    let left = &s.robot.as_ref().unwrap().results;
    assert_eq!((left.len(), left[0].link.as_str()), (1, "a"));
    panel::click_row(&mut s, 1);
    s.clear_results();
    assert!(s.robot.as_ref().unwrap().results.is_empty());
}

#[test]
fn results_are_kept_by_collision() {
    let mut v = vec![];
    state::set_result(&mut v, "a", 0, 1);
    state::set_result(&mut v, "a", 1, 2);
    state::set_result(&mut v, "a", 0, 3);
    assert_eq!(v.len(), 2);
    assert_eq!(v[state::find_result(&v, "a", 0).unwrap()].value, 3);
    state::drop_result(&mut v, "a", 0);
    assert_eq!(state::find_result(&v, "a", 0), None);
    assert_eq!(v[state::find_result(&v, "a", 1).unwrap()].value, 2);
}

#[test]
fn exports_of_the_studio() {
    let s = studio();
    assert_eq!(s.export(Export::Urdf).unwrap_err(), "no object");
    assert_eq!(s.export(Export::SphericalUrdf).unwrap_err(), "no robot");
    let mut s = with_object();
    assert_eq!(s.export(Export::ResultJson).unwrap_err(), "not packed");
    s.object.as_mut().unwrap().result = Some(1);
    assert_eq!(s.export(Export::ResultJson).unwrap().0, "cube.spheres.json");
    assert_eq!(s.export(Export::Urdf).unwrap().0, "cube.urdf");
    let (name, source) = s.export(Export::Mjcf).unwrap();
    assert_eq!(name, "cube.xml");
    assert!(matches!(source, ExportSource::ObjectMjcf(m) if !m.anchored && m.total_mass == "1"));
    let o = s.object.as_mut().unwrap();
    (o.anchored, o.total_mass) = (true, "2.5".into());
    let (_, source) = s.export(Export::Urdf).unwrap();
    assert!(matches!(
        source,
        ExportSource::ObjectUrdf(m) if m.anchored && m.total_mass == "2.5" && m.name == "cube"
    ));
    let mut s = with_robot();
    assert_eq!(s.export(Export::SphericalUrdf).unwrap_err(), "assemble first");
    assert_eq!(s.export(Export::LinkJson(5)).unwrap_err(), "no such item");
    assert_eq!(s.export(Export::LinkJson(1)).unwrap_err(), "not packed");
    let results = &mut s.robot.as_mut().unwrap().results;
    state::set_result(results, "b", 0, 4);
    let (name, source) = s.export(Export::LinkJson(1)).unwrap();
    assert_eq!(name, "b_0.json");
    assert!(matches!(source, ExportSource::LinkResult(0)));
    let stats = RewriteStats {
        links_with_collisions_replaced: 1,
        mesh_collisions_replaced: 1,
        primitive_collisions_removed: 2,
        sphere_collisions_removed: 3,
        sphere_children_added: 20,
        skipped_pack_items: vec![("a".into(), 0, "missing JSON: a_0.json".into())],
    };
    s.assembled(Ok(("<robot/>".into(), stats)));
    assert_eq!(
        message(&s).0,
        "20 sphere links on 1 links; 2 primitive and 3 sphere collisions removed; \
         not packed: a[0]: missing JSON: a_0.json"
    );
    let (name, source) = s.export(Export::SphericalUrdf).unwrap();
    assert_eq!(name, "r_spherical.urdf");
    assert!(matches!(source, ExportSource::Text(t) if t == "<robot/>"));
    s.assembled(Err(Error::Invalid("bad".into())));
    assert_eq!(message(&s), ("bad", true));
}

#[test]
fn analyses() {
    let mut s = with_object();
    assert!(s.analyze().is_none());
    s.object.as_mut().unwrap().result = Some(1);
    assert!(matches!(s.analyze(), Some(AnalysisPlan::Object)));
    assert!(s.quality_running());
    s.analyzed(QualityOut::Object(9));
    assert_eq!((message(&s).0, s.object.as_ref().unwrap().quality), ("Analysis done.", Some(9)));
    let mut s = with_robot();
    assert!(s.analyze().is_none());
    assert_eq!(message(&s).0, "Nothing packed yet.");
    state::set_result(&mut s.robot.as_mut().unwrap().results, "b", 0, 4);
    assert!(matches!(s.analyze(), Some(AnalysisPlan::Robot(w)) if w == [(1, 0)]));
    s.analyzed(QualityOut::Failed("x".into()));
    assert_eq!((message(&s), s.quality_running()), (("x", true), false));
    s.saved(Ok(Some("/tmp/a".into())));
    assert_eq!(message(&s).0, "Saved /tmp/a");
    s.saved(Ok(None));
    assert_eq!(message(&s).0, "Saved /tmp/a");
    s.saved(Err("full".into()));
    assert_eq!(message(&s), ("full", true));
}

#[test]
fn run_controls_follow_the_job() {
    let mut s = with_object();
    let ready = |s: &Studio<u32, u8>| match panel::run_controls(s) {
        RunControls::Ready { pack, can_pack, can_clear } => (pack, can_pack, can_clear),
        RunControls::Running { pause } => panic!("running: {pause}"),
    };
    assert_eq!(ready(&s), ("Pack".to_string(), true, true));
    s.load("mesh");
    assert_eq!(ready(&s), ("Pack".to_string(), false, true));
    let mut s = with_robot();
    assert_eq!(ready(&s).0, "Pack all");
    panel::click_row(&mut s, 0);
    assert_eq!(ready(&s).0, "Pack selected");
    s.set_mode(Mode::Object);
    assert_eq!(ready(&s), ("Pack".to_string(), false, false));
    s.set_mode(Mode::Robot);
    s.start_pack();
    assert!(matches!(panel::run_controls(&s), RunControls::Running { pause } if pause == "Pause"));
    s.toggle_pause();
    assert!(s.paused());
    assert!(matches!(panel::run_controls(&s), RunControls::Running { pause } if pause == "Resume"));
    s.finish_now();
    s.cancel();
    let c = s.job.as_ref().unwrap().control;
    assert!(c.cancel && c.finish_now && !c.pause);
    assert!(!panel::exports(&s).results);
}

#[test]
fn panels_show_the_job() {
    let mut s = with_robot();
    s.start_pack();
    let mut st = status(Phase::Running, vec![]);
    st.iteration = 2;
    st.item = 1;
    s.poll_job(1, st);
    assert_eq!(panel::progress_text(s.live.as_ref().unwrap()), "mesh 2/2 \u{b7} 2 / 5");
    s.poll_job(2, status(Phase::Paused, vec![]));
    assert_eq!(panel::progress_text(s.live.as_ref().unwrap()), "mesh 1/2 \u{b7} paused");
    let rows = panel::robot_table(&s);
    assert_eq!((rows[0].label.as_str(), rows[0].geometry.as_str()), ("a[0]", "mesh"));
    assert_eq!((rows[0].action.as_str(), rows[0].selected), ("pack", false));
    assert_eq!(panel::advanced_label("coverage_weight"), "coverage weight");
    let choices = panel::list_choices(&[(0, "X".to_string())]);
    assert_eq!(choices.len(), 3);
    assert_eq!(choices[2], ("gpu:0".to_string(), "gpu:0 X".to_string()));
    let items = inspect_urdf_in(&package(), "r/r.urdf").unwrap().to_pack();
    let steps = state::group_steps(&items);
    assert_eq!(steps.iter().map(|g| (g.step, g.steps)).collect::<Vec<_>>(), [(0, 2), (1, 2)]);
    assert_eq!(items[0].action, Action::Pack);
}

#[test]
fn the_view_and_its_spheres() {
    let free = Viewport { x: 300, y: 0, width: 700, height: 500 };
    assert_eq!(panel::viewport(free, 1000, 720), free);
    let v = panel::viewport(Viewport { x: 5000, y: 3, width: 0, height: 9000 }, 1000, 720);
    assert_eq!(v, Viewport { x: 999, y: 3, width: 1, height: 717 });
    let v = panel::viewport(free, 0, 0);
    assert_eq!(v, Viewport { x: 0, y: 0, width: 1, height: 1 });
    let p = panel::plan_pool(2, 0, Some((4, 5))).unwrap();
    assert_eq!((p.spawn, p.show, p.shown), (3, 5, 4));
    assert_eq!(panel::plan_pool(9, 4, Some((4, 5))), None);
    let p = panel::plan_pool(9, 4, None).unwrap();
    assert_eq!((p.spawn, p.show, p.shown), (0, 0, 0));
}
