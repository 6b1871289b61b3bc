use roxmltree::{Document, Node};

use morphit_robot::assemble::{
    esc, load_spheres_str, pack_links, try_rewrite_urdf_text, DirSpheres, MemSpheres, SphereSource,
    RewriteStats, Sphere,
};
use morphit_robot::inspect::{
    inspect_urdf_text, Action, CollisionItem, InspectionReport, MeshResolver,
};
use morphit_robot::numeral::Triple;
use morphit_robot::pack::{
    json_filename, pack_mesh_path, plan_link, result_mesh_prep, spheres_dir, MeshPrep,
};

const DRAKE_NS: &str = "http://drake.mit.edu";

const URDF: &str = r#"<?xml version="1.0"?>
<robot name="r" xmlns:drake="http://drake.mit.edu">
  <!-- keep me -->
  <link name="a">
    <visual><geometry><mesh filename="a.stl"/></geometry></visual>
    <collision>
      <origin xyz="1 2 3" rpy="0 0 1.5707963267948966"/>
      <geometry><mesh filename="a.stl"/></geometry>
      <drake:proximity_properties><drake:mu_static value="0.5"/></drake:proximity_properties>
    </collision>
    <collision><geometry><box size="1 1 1"/></geometry></collision>
  </link>
  <link name="b">
    <collision><geometry><sphere radius="0.1"/></geometry></collision>
    <collision><geometry><mesh filename="b.stl"/></geometry></collision>
  </link>
  <link name="c"><collision><geometry><mesh filename="a.stl"/></geometry></collision></link>
  <joint name="j" type="fixed"><parent link="a"/><child link="b"/></joint>
</robot>
"#;

fn report_on(text: &str, meshes: &[&str]) -> InspectionReport {
    let table: Vec<(String, Option<String>)> =
        meshes.iter().map(|m| (m.to_string(), Some(format!("/r/{m}")))).collect();
    let report = InspectionReport::empty("/r".into(), "/r/r.urdf".into(), Vec::new());
    inspect_urdf_text(text, report, &MeshResolver::Table(&table))
}

fn setup() -> InspectionReport {
    report_on(URDF, &["a.stl", "b.stl"])
}

fn sphere(x: f64, y: f64, z: f64, r: f64) -> Sphere {
    Sphere {
        radius: format!("{r:.6}"),
        at: Triple { x: format!("{x:.6}"), y: format!("{y:.6}"), z: format!("{z:.6}") },
    }
}

fn rewrite(
    text: &str,
    report: &InspectionReport,
    spheres: &MemSpheres,
    colors: &[String],
) -> (String, RewriteStats) {
    try_rewrite_urdf_text(text, report, spheres, "0.2 0.6 1 1", colors).unwrap().unwrap()
}

fn children<'a, 'i>(n: Node<'a, 'i>, tag: &str) -> Vec<Node<'a, 'i>> {
    n.children().filter(|c| c.is_element() && c.tag_name().name() == tag).collect()
}

fn find<'a, 'i>(n: Node<'a, 'i>, path: &[&str]) -> Node<'a, 'i> {
    path.iter().fold(n, |at, tag| children(at, tag)[0])
}

#[test]
fn replaces_packed_collisions_with_spheres() {
    let report = setup();
    let mut spheres = MemSpheres::new();
    // Center (1,0,0) rotated 90 degrees about z, then moved by (1,2,3).
    spheres.insert("a", 0, vec![sphere(1.0, 3.0, 3.0, 0.1), sphere(1.0, 2.0, 3.0, 0.2)]);
    spheres.insert("b", 1, vec![sphere(0.0, 0.0, 1.0, 0.3)]);
    spheres.insert("c", 0, vec![sphere(0.0, 0.0, 0.0, 0.4)]);
    assert_eq!(pack_links(&report), ["a", "b", "c"]);
    let colors: Vec<String> =
        ["1 0 0 1", "0 1 0 1", "0 0 1 1"].iter().map(|s| s.to_string()).collect();
    let (text, stats) = rewrite(URDF, &report, &spheres, &colors);
    assert!(stats.skipped_pack_items.is_empty(), "{stats:?}");
    assert_eq!(
        (
            stats.mesh_collisions_replaced,
            stats.primitive_collisions_removed,
            stats.sphere_collisions_removed
        ),
        (3, 1, 1)
    );
    assert_eq!((stats.sphere_children_added, stats.links_with_collisions_replaced), (4, 3));

    assert!(text.contains("<!-- keep me -->"));
    assert!(text.starts_with(r#"<?xml version="1.0"?>"#));
    let doc = Document::parse(&text).unwrap();
    let root = doc.root_element();
    let link = |name: &str| {
        children(root, "link").into_iter().find(|l| l.attribute("name") == Some(name)).unwrap()
    };
    for l in ["a", "b", "c"] {
        assert_eq!(children(link(l), "collision").len(), 0, "{l}");
    }
    assert_eq!(children(link("a"), "visual").len(), 1);
    let names: Vec<&str> =
        children(root, "link").iter().filter_map(|l| l.attribute("name")).collect();
    assert_eq!(names, ["a", "b", "c", "a_sphere1", "a_sphere2", "b_sphere1", "c_sphere1"]);
    // Links come before all new joints.
    let order: Vec<&str> =
        root.children().filter(|n| n.is_element()).map(|n| n.tag_name().name()).collect();
    assert_eq!(&order[order.len() - 4..], ["joint", "joint", "joint", "joint"]);

    let s1 = link("a_sphere1");
    assert_eq!(
        find(s1, &["collision", "geometry", "sphere"]).attribute("radius"),
        Some("0.100000")
    );
    let drake = find(s1, &["collision"])
        .children()
        .find(|c| c.tag_name().name() == "proximity_properties");
    assert_eq!(drake.unwrap().tag_name().namespace(), Some(DRAKE_NS));
    assert_eq!(find(s1, &["visual", "material"]).attribute("name"), Some("color_a_sphere1"));
    let rgba = |l: &str| {
        find(link(l), &["visual", "material", "color"]).attribute("rgba").unwrap().to_string()
    };
    assert_ne!(rgba("a_sphere1"), rgba("c_sphere1"));
    assert_eq!(rgba("a_sphere1"), rgba("a_sphere2"));

    let j = children(root, "joint")
        .into_iter()
        .find(|j| j.attribute("name") == Some("a_to_a_sphere1"))
        .unwrap();
    assert_eq!(find(j, &["origin"]).attribute("xyz"), Some("1.000000 3.000000 3.000000"));
    assert_eq!(find(j, &["parent"]).attribute("link"), Some("a"));
    assert_eq!(find(j, &["child"]).attribute("link"), Some("a_sphere1"));
}

#[test]
fn missing_jsons_are_reported() {
    let report = setup();
    let mut spheres = MemSpheres::new();
    spheres.insert("b", 1, vec![sphere(0.0, 0.0, 1.0, 0.3)]);
    let (text, stats) = rewrite(URDF, &report, &spheres, &[]);
    let skipped: Vec<(&str, usize)> =
        stats.skipped_pack_items.iter().map(|(l, i, _)| (l.as_str(), *i)).collect();
    assert_eq!(skipped, [("a", 0), ("c", 0)]);
    assert!(stats.skipped_summary().starts_with("a[0]: missing JSON: "));
    // The unpacked mesh collision stays, the box next to it goes.
    let doc = Document::parse(&text).unwrap();
    let a = children(doc.root_element(), "link")[0];
    assert_eq!(children(a, "collision").len(), 1);

    let mut gone = setup();
    gone.collisions[0].link_name = "zzz".into();
    gone.collisions[1].link_name = "zzz".into();
    gone.collisions[3].collision_index = 7;
    let (_, stats) = rewrite(URDF, &gone, &spheres, &[]);
    let reasons: Vec<&str> = stats.skipped_pack_items.iter().map(|s| s.2.as_str()).collect();
    assert!(reasons.contains(&"link <zzz> not found in URDF"), "{reasons:?}");
    assert!(
        reasons.contains(&"collision_index out of range (link has 2 collisions)"),
        "{reasons:?}"
    );
}

#[test]
fn declaration_and_prefix_handling() {
    let urdf = r#"<robot name="x"><link name="l"><collision><geometry><mesh filename="m.stl"/></geometry><d:proximity_properties xmlns:d="http://drake.mit.edu"><d:x/></d:proximity_properties></collision></link></robot>"#;
    let report = report_on(urdf, &["m.stl"]);
    let mut spheres = MemSpheres::new();
    spheres.insert("l", 0, vec![sphere(0.0, 0.0, 0.0, 1.0)]);
    let (text, _) = rewrite(urdf, &report, &spheres, &[]);
    assert!(text.starts_with("<?xml version='1.0' encoding='utf-8'?>\n<robot"));
    let doc = Document::parse(&text).unwrap();
    assert!(doc.descendants().any(|n| n.tag_name().name() == "proximity_properties"));
}

#[test]
fn in_memory_rewrite_equals_the_disk_rewrite() {
    let report = setup();
    let mut mem = MemSpheres::new();
    mem.insert("a", 0, vec![sphere(1.0, 3.0, 3.0, 0.1), sphere(1.0, 2.0, 3.0, 0.2)]);
    mem.insert("b", 1, vec![sphere(0.0, 0.0, 1.0, 0.3)]);
    let (text, stats) = rewrite(URDF, &report, &mem, &[]);
    let (again, same) = rewrite(URDF, &report, &mem, &[]);
    assert_eq!(text, again);
    assert_eq!(stats.skipped_summary(), "c[0]: missing JSON: c_0.json");
    assert_eq!(stats.sphere_children_added, same.sphere_children_added);
    assert_eq!(
        load_spheres_str("{}", "x").unwrap_err().message(),
        "x: missing or malformed centers/radii"
    );
}

#[test]
fn spheres_come_from_a_directory() {
    let mut dir = DirSpheres::new("out/spheres");
    assert_eq!(dir.json_path("c", 0), "out/spheres/c_0.json");
    assert_eq!(dir.missing("c", 0), "missing JSON: out/spheres/c_0.json");
    assert!(dir.spheres("c", 0).unwrap().is_none());
    dir.was_read("c", 0, Ok(vec![sphere(0.0, 0.0, 1.0, 0.3)]));
    dir.was_read("b", 1, load_spheres_str("{}", "out/spheres/b_1.json").map(|_| Vec::new()));
    assert_eq!(dir.spheres("c", 0).unwrap().unwrap().len(), 1);
    let bad = "out/spheres/b_1.json: missing or malformed centers/radii";
    assert_eq!(dir.spheres("b", 1).unwrap_err().message(), bad);
    let res = try_rewrite_urdf_text(URDF, &setup(), &dir, "0 0 0 1", &[]).unwrap();
    assert_eq!(res.unwrap_err().message(), bad);
}

#[test]
fn overlapping_collisions_are_not_cut() {
    let mut report = setup();
    let twice = report.collisions[1].clone();
    report.collisions.push(twice);
    let spheres = MemSpheres::new();
    assert!(try_rewrite_urdf_text(URDF, &report, &spheres, "0 0 0 1", &[]).is_none());
    let bad = try_rewrite_urdf_text("<robot>", &setup(), &spheres, "0 0 0 1", &[]);
    assert!(bad.unwrap().unwrap_err().message().starts_with("URDF is not valid XML: "));
}

#[test]
fn names_are_escaped() {
    assert_eq!(esc("a<b>&\"c\""), "a&lt;b&gt;&amp;&quot;c&quot;");
}

#[test]
fn sphere_jsons_are_read() {
    let s = load_spheres_str(r#"{"centers": [[1, 0.5, -2e-3]], "radii": [0.25]}"#, "x").unwrap();
    let c: Vec<f64> =
        [&s.centers[0].x, &s.centers[0].y, &s.centers[0].z].iter().map(|t| t.parse().unwrap()).collect();
    assert_eq!(c, [1.0, 0.5, -0.002]);
    assert_eq!(s.radii[0].parse::<f64>().unwrap(), 0.25);
    let msg = |t: &str| load_spheres_str(t, "x").unwrap_err().message();
    assert!(msg("nonsense").starts_with("x: expected"), "{}", msg("nonsense"));
    assert_eq!(
        msg(r#"{"centers": [[1, 2]], "radii": [1]}"#),
        "x: missing or malformed centers/radii"
    );
    assert_eq!(
        msg(r#"{"centers": [[1, 2, 3]], "radii": ["a"]}"#),
        "x: missing or malformed centers/radii"
    );
    assert_eq!(
        msg(r#"{"centers": [[1, 2, 3]], "radii": []}"#),
        "x: centers (1) and radii (0) length mismatch"
    );
}

fn item() -> CollisionItem {
    CollisionItem {
        link_name: "l1".into(),
        collision_index: 2,
        geometry_type: "mesh".into(),
        action: Action::Pack,
        mesh_path: Some("/m/link.stl".into()),
        mesh_filename: Some("link.stl".into()),
        mesh_scale: Triple::all("1"),
        origin_xyz: Triple::all("0"),
        origin_rpy: Triple::all("0"),
        warning: None,
    }
}

#[test]
fn a_link_is_planned_and_named() {
    let params = morphit_robot::config::PackParams {
        variant: "MorphIt-B".into(),
        num_spheres: 5,
        iterations: 6,
        seed: Some(3),
        advanced: vec![],
        union_overlapping_bodies: true,
        convex_hull: false,
    };
    assert_eq!(spheres_dir("out"), "out/spheres");
    assert_eq!(json_filename("l1", 2), "l1_2.json");
    let plan = plan_link(&item(), &params, "cpu", "out").unwrap();
    assert_eq!(plan.mesh_path, "/m/link.stl");
    assert_eq!(plan.json_path, "out/spheres/l1_2.json");
    assert_eq!(plan.settings.random_seed, Some(3));
    assert_eq!(plan.settings.output_filename, "l1_2.json");
    let mut bad = item();
    bad.action = Action::Error;
    assert_eq!(
        plan_link(&bad, &params, "cpu", "out").unwrap_err().message(),
        "pack_one_link called on non-PACK item: l1[2]"
    );
    let mut lost = item();
    lost.mesh_path = None;
    assert_eq!(
        pack_mesh_path(&lost).unwrap_err().message(),
        "pack_one_link called on item with no resolved mesh_path: l1[2]"
    );
}

#[test]
fn results_remember_their_mesh_preparation() {
    let default = MeshPrep { union_overlapping_bodies: true, convex_hull: false };
    let text = r#"{"config": {"model": {"union_overlapping_bodies": true, "convex_hull": false}}}"#;
    assert_eq!(result_mesh_prep(text), default);
    let off = r#"{"config": {"model": {"union_overlapping_bodies": false, "convex_hull": true}}}"#;
    assert_eq!(
        result_mesh_prep(off),
        MeshPrep { union_overlapping_bodies: false, convex_hull: true }
    );
    assert_eq!(result_mesh_prep(r#"{"centers": [], "radii": []}"#), default);
    assert_eq!(result_mesh_prep("not json"), default);
}
