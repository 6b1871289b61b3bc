use morphit_robot::inspect::{inspect_urdf_in, Action, InspectionReport};
use morphit_robot::json::ascii_json;
use morphit_robot::server::error::{ApiError, MB};
use morphit_robot::server::files::{
    attr_escape, content_type, disposition, example_media_type, extension_error, file_stem,
    file_suffix, healthy, safe_filename, says_200, ServerConfig, MAX_OBJECT_MESH_BYTES,
    MAX_ROBOT_FOLDER_BYTES, MAX_ROBOT_PER_FILE_BYTES,
};
use morphit_robot::server::forms::{count, parse_bool, seed, Form, Upload};
use morphit_robot::server::library::{
    find_object, find_robot, list_objects, list_robots, malformed_robot, missing_error,
    object_files, Missing, ObjectFound, RobotFound,
};
use morphit_robot::server::live::{follow_live, frame_due, LiveAction, LiveEvent, LIVE_INTERVAL};
use morphit_robot::server::object_mode::{analyze, morph, prepare, MeshFormat};
use morphit_robot::server::robot_mode;
use morphit_robot::server::robot_mode::{
    action_text, all_packed, links_to_score, non_finite_error, pack_link, plan_upload,
    robot_prepared_mesh, serve_file, FileTarget, QueryParams, StatsAnswer,
};
use morphit_robot::server::sessions::SessionStore;
use morphit_robot::vfs::MemPackage;
use morphit_robot::{EngineError, Error, Fault};

#[test]
fn helpers() {
    let bs = '\\';
    let value = serde_json::to_string("\u{e9} \u{1f600} a").unwrap();
    assert_eq!(ascii_json(&value), format!("\"{bs}u00e9 {bs}ud83d{bs}ude00 a\""));
    assert_eq!(file_stem(Some("dir/bunny.obj"), "object"), "bunny");
    assert_eq!(file_stem(Some(""), "object"), "object");
    assert_eq!(file_stem(None, "object"), "object");
    assert_eq!(file_suffix(Some("A.OBJ")), ".obj");
    assert_eq!(file_suffix(Some(".obj")), "");
    assert_eq!(file_suffix(Some("x.tar.gz")), ".gz");
}

fn body(e: &ApiError) -> serde_json::Value {
    serde_json::from_str(&e.body()).unwrap()
}

fn field(e: &ApiError, key: &str) -> serde_json::Value {
    body(e)["detail"][0][key].clone()
}

fn loc(e: &ApiError) -> Vec<String> {
    field(e, "loc").as_array().unwrap().iter().map(|v| v.as_str().unwrap().to_string()).collect()
}

fn text_of(e: &ApiError) -> String {
    body(e)["detail"].as_str().unwrap().to_string()
}

fn mesh_form(name: &str) -> Form {
    let mut f = Form::new();
    f.add_file("mesh", Upload { filename: Some(name.into()), data: b"v 0 0 0\n".to_vec() });
    f
}

fn with(mut f: Form, name: &str, value: &str) -> Form {
    f.add_text(name, value);
    f
}

#[test]
fn error_bodies() {
    let e = ApiError::not_found("no \"such\" thing");
    assert_eq!((e.status, e.body().as_str()), (404, "{\"detail\":\"no \\\"such\\\" thing\"}"));
    assert_eq!(ApiError::bad_request("x").status, 400);
    assert_eq!(ApiError::forbidden("x").status, 403);
    assert_eq!(ApiError::internal("x").status, 500);
    let e = ApiError::missing("body", "mesh");
    assert_eq!(e.status, 422);
    assert_eq!(field(&e, "type"), "missing");
    assert_eq!(loc(&e), ["body", "mesh"]);
    let e = ApiError::too_large(100 * MB + 1, MAX_OBJECT_MESH_BYTES, "Mesh file");
    assert_eq!(e.status, 413);
    assert!(
        text_of(&e).starts_with("Mesh file too large: 100.0 MB exceeds the 100 MB limit."),
        "{}",
        text_of(&e)
    );
    assert!(text_of(&ApiError::too_large(1_600_000, MB, "Folder"))
        .starts_with("Folder too large: 1.5 MB exceeds the 1 MB limit."));
    assert_eq!((MAX_ROBOT_FOLDER_BYTES, MAX_ROBOT_PER_FILE_BYTES), (200 * MB, 50 * MB));
}

#[test]
fn errors_of_the_library_become_replies() {
    let e = ApiError::from_error(&Error::Invalid("bad".into()));
    assert_eq!((e.status, text_of(&e).as_str()), (400, "bad"));
    let e = ApiError::from_error(&Error::Io("disk".into()));
    assert_eq!((e.status, text_of(&e).as_str()), (500, "disk"));
    let engine = EngineError { fault: Fault::Mesh, detail: "d".into(), message: "m".into() };
    let e = ApiError::from_error(&Error::Morphit(engine));
    assert_eq!((e.status, text_of(&e).as_str()), (400, "d"));
    let engine = EngineError { fault: Fault::Config, detail: "d".into(), message: "m".into() };
    let e = ApiError::from_error(&Error::Morphit(engine));
    assert_eq!((e.status, text_of(&e).as_str()), (500, "m"));
}

#[test]
fn form_values() {
    let mut f = Form::new();
    f.add_text("n", "");
    f.add_text("n", "13");
    f.add_text("n", "14");
    assert_eq!(f.text("n"), Some("13"));
    assert_eq!(f.int_or("n", 5), Ok(13));
    assert_eq!(f.int_or("absent", 5), Ok(5));
    assert_eq!(f.opt_int("absent"), Ok(None));
    assert_eq!(f.text_or("absent", "x"), "x");
    assert_eq!(f.required_text("absent").unwrap_err().status, 422);
    assert_eq!(f.required_int("n"), Ok(13));
    let f = with(Form::new(), "v", "0.25");
    assert_eq!(f.float_or("v", "0").unwrap(), "0.25");
    assert_eq!(f.float_or("absent", "0").unwrap(), "0");
    let f = with(Form::new(), "v", "x");
    let e = f.float_or("v", "0").unwrap_err();
    assert_eq!((e.status, field(&e, "type")), (422, "float_parsing".into()));
    let e = f.int_or("v", 1).unwrap_err();
    assert_eq!((e.status, field(&e, "type")), (422, "int_parsing".into()));
    assert_eq!(f.file("mesh").unwrap_err().status, 422);
    assert_eq!(f.files("files").unwrap_err().status, 422);
    let f = mesh_form("a.obj");
    assert_eq!(f.file("mesh").unwrap().filename.as_deref(), Some("a.obj"));
    assert_eq!(f.files("mesh").unwrap().len(), 1);
    for (text, value) in [("true", true), ("1", true), ("on", true), ("YES", true), ("f", false), ("0", false)] {
        assert_eq!(parse_bool("body", "b", text), Ok(value), "{text}");
    }
    let e = parse_bool("query", "b", "maybe").unwrap_err();
    assert_eq!(field(&e, "type"), "bool_parsing");
    assert_eq!(loc(&e), ["query", "b"]);
    assert_eq!((count(-3), count(7)), (0, 7));
    assert_eq!(seed(None), Ok(None));
    assert_eq!(seed(Some(4)), Ok(Some(4)));
    assert_eq!(text_of(&seed(Some(-1)).unwrap_err()), "seed must be a non-negative integer, got -1");
}

#[test]
fn object_requests() {
    let f = with(with(mesh_form("link0.obj"), "num_spheres", "8"), "iterations", "5");
    let f = with(with(f, "seed", "1"), "base_color", "#ff0000");
    let f = with(f, "advanced", r#"{"coverage_weight": 1200, "unknown_key": 1}"#);
    let r = morph(&f).unwrap();
    assert_eq!((r.suffix.as_str(), r.robot_name.as_str()), (".obj", "link0"));
    assert_eq!((r.params.num_spheres, r.params.iterations, r.params.seed), (8, 5, Some(1)));
    assert_eq!(r.params.advanced, [("training.coverage_weight".to_string(), "1200".to_string())]);
    assert_eq!(r.color, [255, 0, 0, 255]);
    assert!(r.params.union_overlapping_bodies && !r.params.convex_hull);
    let form = with(mesh_form("a.stl"), "union_overlapping_bodies", "false");
    let r = morph(&form).unwrap();
    assert!(!r.params.union_overlapping_bodies);
    assert_eq!(r.params.variant, "MorphIt-B");
    let form = with(mesh_form("a.stl"), "convex_hull", "on");
    assert!(morph(&form).unwrap().params.convex_hull);
}

#[test]
fn object_requests_that_are_refused() {
    let refused = |f: Form| morph(&f).err().unwrap();
    let mesh = || mesh_form("link0.obj");
    let e = refused(with(mesh(), "variant", "MorphIt-Obj"));
    assert_eq!(e.status, 400);
    assert_eq!(text_of(&e), "variant must be one of ('MorphIt-V', 'MorphIt-S', 'MorphIt-B')");
    let e = refused(with(mesh(), "num_spheres", "0"));
    assert_eq!((e.status, text_of(&e).as_str()), (400, "num_spheres must be in [1, 200]"));
    let e = refused(with(mesh(), "iterations", "1001"));
    assert_eq!(text_of(&e), "iterations must be in [1, 1000]");
    let e = refused(mesh_form("link0.dae"));
    assert_eq!(text_of(&e), "mesh extension must be one of ('.obj', '.stl', '.ply')");
    assert_eq!(extension_error(), e);
    let e = refused(with(mesh(), "advanced", "[1]"));
    assert_eq!(text_of(&e), "advanced must be a JSON object");
    let e = refused(with(mesh(), "advanced", "{"));
    assert!(text_of(&e).starts_with("advanced must be valid JSON: "));
    let e = refused(with(mesh(), "seed", "-1"));
    assert_eq!(text_of(&e), "seed must be a non-negative integer, got -1");
    let e = refused(with(mesh(), "num_spheres", "abc"));
    assert_eq!((e.status, field(&e, "type")), (422, "int_parsing".into()));
    assert_eq!(loc(&e), ["body", "num_spheres"]);
    let e = refused(with(Form::new(), "num_spheres", "3"));
    assert_eq!((e.status, field(&e, "type")), (422, "missing".into()));
    assert_eq!(loc(&e), ["body", "mesh"]);
    let e = refused(with(mesh(), "union_overlapping_bodies", "maybe"));
    assert_eq!(loc(&e), ["body", "union_overlapping_bodies"]);
    assert_eq!(field(&e, "type"), "bool_parsing");
    let e = refused(with(mesh(), "convex_hull", "sometimes"));
    assert_eq!(loc(&e), ["body", "convex_hull"]);
    let mut f = Form::new();
    f.add_file("mesh", Upload { filename: Some("big.obj".into()), data: vec![b' '; 100 * MB + 1] });
    let e = refused(f);
    assert_eq!(e.status, 413);
    assert!(text_of(&e).starts_with("Mesh file too large: 100.0 MB exceeds the 100 MB limit."));
}

#[test]
fn object_scoring_requests() {
    let f = with(mesh_form("link0.obj"), "urdf", "<robot/>");
    let e = analyze(&f).err().unwrap();
    assert_eq!(e.status, 400);
    assert_eq!(text_of(&e), "URDF has no morphit:centroid comment; not a MorphIt object URDF");
    let urdf = "<robot name=\"o\">\n<!-- morphit:centroid 1 2 3 -->\
        <link name=\"s\"><collision><geometry><sphere radius=\"0.5\"/></geometry></collision></link>\
        <joint><child link=\"s\"/><origin xyz=\"0 0.25 0\"/></joint></robot>";
    let f = with(with(mesh_form("link0.obj"), "urdf", urdf), "union_overlapping_bodies", "0");
    let r = analyze(&f).unwrap();
    assert_eq!(r.name, "link0");
    assert!(!r.prep.union_overlapping_bodies);
    assert_eq!(r.spheres.centroid.z, "3");
    assert_eq!(r.spheres.spheres.len(), 1);
    assert_eq!(r.spheres.spheres[0].0.y, "0.25");
    assert_eq!(r.spheres.spheres[0].1, "0.5");
}

#[test]
fn prepared_mesh_requests() {
    let form = with(mesh_form("link0.obj"), "convex_hull", "true");
    let r = prepare(&form).unwrap();
    assert!(r.prep.convex_hull);
    assert_eq!((r.format, r.stem.as_str()), (MeshFormat::Obj, "link0"));
    assert_eq!(r.format.mime(), "model/obj");
    assert!(morphit_robot::server::object_mode::prepared_disposition(&r.stem, r.format)
        .contains("filename=\"link0_prepared.obj\""));
    let form = with(mesh_form("link0.obj"), "format", "STL");
    let r = prepare(&form).unwrap();
    assert_eq!((r.format, r.format.mime().as_str()), (MeshFormat::Stl, "model/stl"));
    let form = with(mesh_form("link0.obj"), "format", "ply");
    let e = prepare(&form).err().unwrap();
    assert_eq!(e.status, 422);
    assert_eq!(loc(&e), ["body", "format"]);
    assert_eq!(prepare(&with(Form::new(), "format", "obj")).err().unwrap().status, 422);
}

#[test]
fn file_names_and_media_types() {
    assert_eq!(content_type("x/base.stl", None), "model/stl");
    assert_eq!(content_type("a.png", None), "image/png");
    assert_eq!(content_type("a.html", None), "text/html; charset=utf-8");
    assert_eq!(content_type("a.bin", Some("application/xml")), "application/xml");
    assert_eq!(example_media_type("bunny.obj"), "model/obj");
    assert_eq!(disposition("a.urdf"), "attachment; filename=\"a.urdf\"");
    assert_eq!(safe_filename("a/b \"c\"", "obj"), "a_b__c__prepared.obj");
    assert_eq!(attr_escape("a<b>\"&'"), "a&lt;b>&quot;&amp;'");
    let c = ServerConfig::new("web", "/tmp");
    assert_eq!(c.examples_dir(), "web/examples");
    assert_eq!(c.session_root, "/tmp/morphit-robot-sessions");
    assert_eq!((c.device.as_str(), c.session_ttl), ("auto", 3600));
}

#[test]
fn health_checks() {
    assert!(says_200("HTTP/1.1 200 OK\r\n"));
    assert!(!says_200("HTTP/1.1 503 Busy\r\n"));
    assert!(!says_200("HTTP/2 200"));
    assert!(!says_200("HTTP/1.1 2000"));
    assert!(healthy(b"HTTP/1.0 200 OK"));
    assert!(!healthy(b"\xff\xfe"));
}

const URDF: &str = r#"<?xml version="1.0"?>
<robot name="r">
  <link name="base"><collision><geometry><mesh filename="package://r/meshes/cube.stl"/></geometry></collision></link>
  <link name="arm">
    <collision><origin xyz="0 0 0.2"/><geometry><mesh filename="../meshes/cube.stl"/></geometry></collision>
    <collision><geometry><box size="1 1 1"/></geometry></collision>
  </link>
</robot>"#;

fn report() -> InspectionReport {
    let pkg = MemPackage::from_files(vec![
        ("r/urdf/r.urdf".into(), URDF.as_bytes().to_vec()),
        ("r/meshes/cube.stl".into(), b"solid".to_vec()),
    ])
    .unwrap();
    inspect_urdf_in(&pkg, "r/urdf/r.urdf").unwrap()
}

fn store() -> (SessionStore, String) {
    let mut s = SessionStore::new("/tmp/s", 100);
    let dirs = s.next_session();
    s.create(&dirs.id, 0);
    s.set_report(&dirs.id, report());
    (s, dirs.id)
}

fn query(pairs: &[(&str, &str)]) -> QueryParams {
    QueryParams { pairs: pairs.iter().map(|(a, b)| (a.to_string(), b.to_string())).collect() }
}

#[test]
fn sessions_live_and_expire() {
    let (mut s, id) = store();
    assert_eq!(id.len(), 32);
    assert!(id.chars().all(|c| c.is_ascii_hexdigit() && !c.is_ascii_uppercase()));
    assert_ne!(s.next_session().id, s.next_session().id);
    assert_eq!((s.len(), s.is_empty(), s.root_dir()), (1, false, "/tmp/s"));
    assert!(s.peek(&id).unwrap().work_dir.starts_with("/tmp/s/"));
    assert_eq!(s.get(&id, 60), Ok(()));
    assert!(s.gc(160).is_empty(), "using it restarted its time");
    assert_eq!(s.get(&id, 161).unwrap_err().status, 404, "expired, though not swept yet");
    assert_eq!((s.len(), s.peek(&id).unwrap().last_access), (1, 60));
    let gone = s.gc(161);
    assert_eq!(gone.len(), 1);
    assert!(s.is_empty());
    let e = s.get(&id, 161).unwrap_err();
    assert_eq!((e.status, text_of(&e)), (404, format!("session '{id}' not found or expired")));
}

#[test]
fn a_removed_session_is_not_found() {
    let (mut s, id) = store();
    let other = s.next_session().id;
    s.create(&other, 0);
    assert!(s.remove(&id).is_some());
    assert!(s.remove(&id).is_none());
    assert!(s.peek(&id).is_none());
    assert!(s.peek(&other).is_some());
    let e = s.peek(&other).unwrap().require_report("inspect first").unwrap_err();
    assert_eq!((e.status, text_of(&e).as_str()), (400, "inspect first"));
}

#[test]
fn clearing_forgets_every_session() {
    let (mut s, id) = store();
    let other = s.next_session().id;
    s.create(&other, 0);
    assert_eq!(s.clear(), [format!("/tmp/s/{id}"), format!("/tmp/s/{other}")]);
    assert!(s.is_empty());
    assert!(s.clear().is_empty());
}

fn pack_form(id: &str, link: &str, index: &str, spheres: &str) -> Form {
    let f = with(with(Form::new(), "session_id", id), "link_name", link);
    with(with(with(f, "collision_index", index), "num_spheres", spheres), "iterations", "4")
}

#[test]
fn link_pack_requests() {
    let (mut s, id) = store();
    let (swept, r) = pack_link(&mut s, &with(pack_form(&id, "base", "0", "3"), "convex_hull", "on"), 1);
    assert!(swept.is_empty());
    let r = r.unwrap();
    assert_eq!((r.item.link_name.as_str(), r.item.action), ("base", Action::Pack));
    assert_eq!((r.params.num_spheres, r.params.iterations), (3, 4));
    assert!(r.params.convex_hull);
    let e = pack_link(&mut s, &pack_form(&id, "nope", "0", "3"), 1).1.err().unwrap();
    assert_eq!((e.status, text_of(&e).as_str()), (404, "no collision item: nope[0]"));
    let e = pack_link(&mut s, &pack_form(&id, "base", "0", "300"), 1).1.err().unwrap();
    assert_eq!(text_of(&e), "num_spheres must be in [1, 200]");
    let e = pack_link(&mut s, &pack_form("nope", "base", "0", "3"), 1).1.err().unwrap();
    assert_eq!(text_of(&e), "session 'nope' not found or expired");
    let e = pack_link(&mut s, &pack_form(&id, "arm", "1", "3"), 1).1.err().unwrap();
    assert_eq!(e.status, 400, "a box is not packed");
}

#[test]
fn robot_queries() {
    let (mut s, id) = store();
    let q = query(&[("session_id", &id), ("link_name", "base"), ("collision_index", "0")]);
    let r = robot_prepared_mesh(&mut s, &q, 1).1.unwrap();
    assert_eq!((r.mesh_path.as_str(), r.stem.as_str()), ("r/meshes/cube.stl", "base_0"));
    assert_eq!(r.format, MeshFormat::Obj);
    let q = query(&[
        ("session_id", &id),
        ("link_name", "base"),
        ("collision_index", "0"),
        ("convex_hull", "1"),
        ("format", "stl"),
    ]);
    let r = robot_prepared_mesh(&mut s, &q, 1).1.unwrap();
    assert!(r.prep.convex_hull);
    assert_eq!(r.format, MeshFormat::Stl);
    let q = query(&[
        ("session_id", &id),
        ("link_name", "base"),
        ("collision_index", "0"),
        ("convex_hull", "maybe"),
    ]);
    let e = robot_prepared_mesh(&mut s, &q, 1).1.err().unwrap();
    assert_eq!((e.status, loc(&e)), (422, vec!["query".to_string(), "convex_hull".to_string()]));
    let q = query(&[("session_id", &id), ("link_name", "nope"), ("collision_index", "0")]);
    assert_eq!(robot_prepared_mesh(&mut s, &q, 1).1.err().unwrap().status, 404);
    let q = query(&[("session_id", &id), ("link_name", "x"), ("collision_index", "a")]);
    assert_eq!(robot_prepared_mesh(&mut s, &q, 1).1.err().unwrap().status, 422);
}

#[test]
fn mesh_statistics_are_cached() {
    let (mut s, id) = store();
    let q = query(&[("session_id", &id)]);
    match robot_mode::mesh_stats(&mut s, &q, 1).1.unwrap() {
        StatsAnswer::Compute(items) => assert_eq!(items.len(), 2),
        StatsAnswer::Cached(_) => panic!("nothing is cached yet"),
    }
    s.cache_mesh_stats(&id, "{}");
    match robot_mode::mesh_stats(&mut s, &q, 2).1.unwrap() {
        StatsAnswer::Cached(body) => assert_eq!(body, "{}"),
        StatsAnswer::Compute(_) => panic!("cached"),
    }
}

#[test]
fn session_files_stay_in_the_sandbox() {
    let (mut s, id) = store();
    let ask = |s: &mut SessionStore, path: &str| {
        robot_mode::file(s, &query(&[("session_id", &id), ("path", path)]), 1).1
    };
    match ask(&mut s, "r/urdf/r.urdf").unwrap() {
        FileTarget::At(p) => assert!(p.ends_with("r/urdf/r.urdf")),
        FileTarget::Search(_) => panic!("a plain path"),
    }
    match ask(&mut s, "package://r/meshes/cube.stl").unwrap() {
        FileTarget::Search(m) => assert!(!m.candidates.is_empty()),
        FileTarget::At(_) => panic!("a package path"),
    }
    assert_eq!(text_of(&ask(&mut s, "../x").err().unwrap()), "Bad upload path: '../x'");
    let e = robot_mode::file(&mut s, &query(&[("path", "x")]), 1).1.err().unwrap();
    assert_eq!(e.status, 422);
    assert_eq!(serve_file("x", true, true, true), Ok(()));
    assert_eq!(serve_file("x", false, false, true).unwrap_err().status, 404);
    assert_eq!(serve_file("x", true, false, true).unwrap_err().status, 404);
    let e = serve_file("x", true, true, false).unwrap_err();
    assert_eq!((e.status, text_of(&e).as_str()), (403, "path escapes session sandbox"));
}

#[test]
fn assembly_requests() {
    let (mut s, id) = store();
    let f = with(with(Form::new(), "session_id", &id), "base_color", "#00ff00");
    let r = robot_mode::assemble(&mut s, &with(f, "color_variation", "0.5"), 1).1.unwrap();
    assert_eq!((r.base_color, r.variation.as_str()), ([0, 255, 0, 255], "0.5"));
    assert!(r.output.ends_with("/r_spherical.urdf"));
    let f = with(with(Form::new(), "session_id", &id), "color_variation", "2");
    let variation: f64 = robot_mode::assemble(&mut s, &f, 1).1.unwrap().variation.parse().unwrap();
    assert_eq!(robot_mode::variation_in_range(true), Ok(()));
    let e = robot_mode::variation_in_range((0.0..=1.0).contains(&variation)).unwrap_err();
    assert_eq!((e.status, text_of(&e).as_str()), (400, "color_variation must be in [0, 1]"));
    let stats = morphit_robot::assemble::RewriteStats {
        links_with_collisions_replaced: 1,
        mesh_collisions_replaced: 1,
        primitive_collisions_removed: 0,
        sphere_collisions_removed: 0,
        sphere_children_added: 3,
        skipped_pack_items: vec![("arm".into(), 0, "missing JSON: arm_0.json".into())],
    };
    let e = all_packed(&stats).unwrap_err();
    assert_eq!(e.status, 400);
    assert_eq!(text_of(&e), "Some collisions weren't packed: arm[0]: missing JSON: arm_0.json");
}

#[test]
fn robot_scoring_takes_what_is_packed() {
    let (mut s, id) = store();
    let f = with(Form::new(), "session_id", &id);
    let links = robot_mode::analyze(&mut s, &f, 1).1.unwrap();
    assert_eq!(links.len(), 2);
    assert!(links[1].json_path.ends_with("arm_0.json"));
    let kept = links_to_score(links, &[false, true]).unwrap();
    assert_eq!(kept.len(), 1);
    assert_eq!(kept[0].item.link_name, "arm");
    let links = robot_mode::analyze(&mut s, &f, 1).1.unwrap();
    assert_eq!(links_to_score(links, &[false, false]).err().unwrap().status, 400);
    assert!(text_of(&non_finite_error("arm", 0)).contains("arm[0]"));
    assert_eq!(action_text(Action::RemovePrimitive), "remove-primitive");
}

#[test]
fn uploads_are_placed_or_refused() {
    let file = |name: &str, n: usize| Upload { filename: Some(name.into()), data: vec![b'x'; n] };
    let (a, b) = (file("r/r.urdf", 3), file("r/meshes/c.stl", 4));
    let placed = plan_upload("/w", &[&a, &b]).unwrap();
    assert_eq!(placed, ["/w/r/r.urdf", "/w/r/meshes/c.stl"]);
    let bad = file("../evil.urdf", 1);
    let r = plan_upload("/w", &[&bad]).unwrap_err();
    assert_eq!(text_of(&r.error), "Bad upload path: '../evil.urdf'");
    let big = file("big.stl", 50 * MB + 1);
    assert_eq!(plan_upload("/w", &[&big]).unwrap_err().error.status, 413);
    let part = file("part.stl", 45 * MB);
    let all = [&part, &part, &part, &part, &part];
    assert_eq!(plan_upload("/w", &all).unwrap_err().error.status, 413, "the folder is too large");
}

#[test]
fn example_library() {
    assert_eq!(find_object("bunny").unwrap().filename, "bunny.obj");
    assert_eq!(find_robot("kinova").unwrap().folder, "kinova_description");
    let e = find_object("nope").unwrap_err();
    assert_eq!((e.status, text_of(&e).as_str()), (404, "example 'nope' not found"));
    let e = find_robot("nope").unwrap_err();
    assert_eq!((e.status, text_of(&e).as_str()), (404, "robot 'nope' not in library"));
    let e = missing_error(Missing::Packing, "link0", "link0.urdf");
    assert_eq!(text_of(&e), "example 'link0' has no pre-baked packing");
    let files = object_files("web/examples", &find_object("bunny").unwrap());
    assert_eq!(files.mesh, "web/examples/bunny.obj");
    let objects = morphit_robot::examples::example_objects();
    let there = ObjectFound { mesh: true, packed: true, thumbnail: false };
    let found: Vec<ObjectFound> = objects.iter().map(|_| there).collect();
    let listed = list_objects(&found);
    assert_eq!(listed.len(), objects.len());
    assert!(listed[0].object.default && listed[0].has_packed && !listed[0].has_thumbnail);
    let mut some = found.clone();
    some[0].mesh = false;
    assert_eq!(list_objects(&some).len(), objects.len() - 1);
    let robots: Vec<RobotFound> = morphit_robot::examples::example_robots()
        .iter()
        .map(|_| RobotFound { folder: true, spherical: true })
        .collect();
    let listed = list_robots(&robots);
    assert_eq!(listed.len(), 10);
    assert_eq!((listed[0].robot.name, listed[0].robot.default), ("kinova", true));
    assert!(listed.iter().all(|r| r.has_spherical));
    assert_eq!(malformed_robot("kinova", "broken").status, 500);
}

#[test]
fn live_frames_keep_an_interval() {
    assert!(frame_due(None, 0));
    assert!(!frame_due(Some(100), 100 + LIVE_INTERVAL - 1));
    assert!(frame_due(Some(100), 100 + LIVE_INTERVAL));
    assert!(matches!(follow_live(LiveEvent::Frame(Some("f".into()))), LiveAction::Send(t) if t == "f"));
    assert!(matches!(follow_live(LiveEvent::Frame(None)), LiveAction::Wait));
    assert!(matches!(follow_live(LiveEvent::Check { there: true }), LiveAction::Wait));
    assert!(matches!(follow_live(LiveEvent::Check { there: false }), LiveAction::Close));
    assert!(matches!(follow_live(LiveEvent::Left), LiveAction::Close));
    assert!(matches!(follow_live(LiveEvent::SendFailed), LiveAction::Close));
}
