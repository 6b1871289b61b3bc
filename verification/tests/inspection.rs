use morphit_robot::inspect::{
    find_urdfs, inspect_urdf_in, inspect_urdf_text, looks_like_xacro, resolve_mesh_path,
    resolve_mesh_path_in, select_urdf, select_urdf_in, Action, InspectionReport, MeshFound,
    MeshResolver,
};
use morphit_robot::numeral::Triple;
use morphit_robot::vfs::MemPackage;

const URDF: &str = r#"<?xml version="1.0"?>
<robot name="r">
  <!-- a comment -->
  <link name="a">
    <visual><geometry><mesh filename="package://pkg/meshes/a.stl"/></geometry></visual>
    <collision>
      <origin xyz="0.1 0 0" rpy="0 0 1.5"/>
      <geometry><mesh filename="package://pkg/meshes/a.stl" scale="2"/></geometry>
    </collision>
    <collision><geometry><box size="1 1 1"/></geometry></collision>
    <collision><geometry><sphere radius="1"/></geometry></collision>
    <collision><geometry><mesh filename="../meshes/missing.stl"/></geometry></collision>
    <collision><geometry><mesh filename="../meshes/b.3ds"/></geometry></collision>
    <collision/>
    <collision><geometry><plane/></geometry></collision>
  </link>
  <link name="b"><collision><geometry><mesh filename="c.obj"/></geometry></collision></link>
</robot>"#;

fn numbers(t: &Triple) -> [f64; 3] {
    [t.x.parse().unwrap(), t.y.parse().unwrap(), t.z.parse().unwrap()]
}

fn package(files: &[&str]) -> MemPackage {
    let mut pkg = MemPackage::new();
    for f in files {
        pkg.insert(f, b"".to_vec()).unwrap();
    }
    pkg
}

fn report_on(text: &str) -> InspectionReport {
    let report = InspectionReport::empty("/r".into(), "/r/x.urdf".into(), Vec::new());
    inspect_urdf_text(text, report, &MeshResolver::Table(&[]))
}

#[test]
fn classifies_collisions() {
    let mut pkg = package(&["pkg/meshes/a.stl", "pkg/meshes/b.3ds", "pkg/urdf/c.obj"]);
    pkg.insert("pkg/urdf/r.urdf", URDF.as_bytes().to_vec()).unwrap();
    let r = inspect_urdf_in(&pkg, "pkg/urdf/r.urdf").unwrap();
    assert!(r.errors.is_empty(), "{:?}", r.errors);
    assert_eq!(r.visual_count, 1);
    assert_eq!(r.urdfs_in_folder.len(), 1);
    let a: Vec<(Action, &str)> =
        r.collisions.iter().map(|c| (c.action, c.geometry_type.as_str())).collect();
    assert_eq!(
        a,
        vec![
            (Action::Pack, "mesh"),
            (Action::RemovePrimitive, "box"),
            (Action::RemoveAlreadySphere, "sphere"),
            (Action::Error, "mesh"),
            (Action::Error, "mesh"),
            (Action::Error, "unknown"),
            (Action::Error, "unknown"),
            (Action::Pack, "mesh"),
        ]
    );
    let first = &r.collisions[0];
    assert_eq!(numbers(&first.origin_xyz), [0.1, 0.0, 0.0]);
    assert_eq!(numbers(&first.origin_rpy), [0.0, 0.0, 1.5]);
    assert_eq!(numbers(&first.mesh_scale), [2.0; 3]);
    assert!(first.mesh_path.as_ref().unwrap().ends_with("a.stl"));
    assert_eq!(
        r.collisions[3].warning.as_deref(),
        Some("Mesh not found: ../meshes/missing.stl. Drop the package root so package:// URIs resolve.")
    );
    assert_eq!(
        r.collisions[4].warning.as_deref(),
        Some("Unsupported mesh extension '.3ds'; only ('.obj', '.stl', '.ply', '.dae') are packed.")
    );
    assert_eq!(r.collisions[7].collision_index, 0);
    assert_eq!(r.to_pack().len(), 2);
    assert_eq!(
        (r.collisions[1].link_name.as_str(), r.collisions[1].collision_index, &r.collisions[1].mesh_path),
        ("a", 1, &None)
    );
}

#[test]
fn a_table_resolves_like_a_package() {
    let mut pkg = package(&["pkg/meshes/a.stl", "pkg/meshes/b.3ds", "pkg/urdf/c.obj"]);
    pkg.insert("pkg/urdf/r.urdf", URDF.as_bytes().to_vec()).unwrap();
    let from_package = inspect_urdf_in(&pkg, "pkg/urdf/r.urdf").unwrap();
    let first = report_on(URDF);
    let table: Vec<(String, Option<String>)> = first
        .collisions
        .iter()
        .filter_map(|c| c.mesh_filename.clone())
        .map(|f| {
            let p = resolve_mesh_path_in(&pkg, &f, "pkg/urdf/r.urdf");
            (f, p)
        })
        .collect();
    let report = InspectionReport::empty("/r".into(), "/r/x.urdf".into(), Vec::new());
    let second = inspect_urdf_text(URDF, report, &MeshResolver::Table(&table));
    let brief = |r: &InspectionReport| {
        r.collisions
            .iter()
            .map(|c| (c.action, c.mesh_path.clone(), c.warning.clone()))
            .collect::<Vec<_>>()
    };
    assert_eq!(brief(&second), brief(&from_package));
}

#[test]
fn reports_are_added_to() {
    let once = report_on(URDF);
    let found = once.collisions.len();
    let twice = inspect_urdf_text(URDF, once, &MeshResolver::Table(&[]));
    assert_eq!((twice.visual_count, twice.collisions.len()), (2, 2 * found));
    let then = inspect_urdf_text("<sdf/>", twice, &MeshResolver::Table(&[]));
    assert_eq!((then.visual_count, then.errors.len()), (2, 1));
}

#[test]
fn file_level_errors() {
    let x = report_on(r#"<robot><xacro:include filename="a"/></robot>"#);
    assert!(x.errors[0].starts_with("This file looks like unresolved xacro"));
    let x = report_on(r#"<robot><link name="${n}"/></robot>"#);
    assert_eq!(x.errors.len(), 1);
    let x = report_on("<robot><link></robot>");
    assert!(x.errors[0].starts_with("URDF is not valid XML: "));
    let x = report_on("<sdf/>");
    assert_eq!(
        x.errors[0],
        "Top-level element is <sdf>, expected <robot>. Is this actually a URDF?"
    );
    assert!(!looks_like_xacro("cost ${} and $x"));
}

#[test]
fn urdf_selection() {
    let a = "x/a.urdf".to_string();
    let b = "y/b.urdf".to_string();
    let b2 = "z/b.urdf".to_string();
    assert_eq!(select_urdf(std::slice::from_ref(&a), None).unwrap(), a);
    assert_eq!(select_urdf(&[], None).unwrap_err().message(), "No .urdf files found in folder.");
    assert_eq!(
        select_urdf(&[b.clone(), a.clone()], None).unwrap_err().message(),
        "Multiple URDFs found; specify with --urdf NAME.urdf. Available: ['a.urdf', 'b.urdf']"
    );
    assert_eq!(select_urdf(&[a.clone(), b.clone()], Some("b.urdf")).unwrap(), b);
    assert_eq!(
        select_urdf(std::slice::from_ref(&a), Some("c.urdf")).unwrap_err().message(),
        "--urdf 'c.urdf' not found. Available: ['a.urdf']"
    );
    assert!(
        select_urdf(&[b, b2], Some("b.urdf")).unwrap_err().message().contains("matches multiple paths")
    );
}

#[test]
fn urdfs_are_found_by_extension() {
    let files: Vec<String> =
        ["a/r.urdf", "a/r.urdf.bak", "b.URDF", "c/.urdf", "z.urdf"].iter().map(|s| s.to_string()).collect();
    assert_eq!(find_urdfs(&files), ["a/r.urdf", "z.urdf"]);
}

#[test]
fn mesh_resolution() {
    let files = [
        "/root/pkg/urdf/r.urdf",
        "/root/pkg/meshes/a.stl",
        "/root/meshes/b.stl",
        "/root/deep/er/c.stl",
        "/root/d1/dup.stl",
        "/root/d2/dup.stl",
    ];
    let below: Vec<String> = files.iter().map(|s| s.to_string()).collect();
    let r = |f: &str| {
        let search = resolve_mesh_path(f, "/root", "/root/pkg/urdf");
        let present: Vec<bool> = search
            .candidates
            .iter()
            .map(|c| {
                let c = c.replace("/pkg/urdf/../", "/pkg/");
                files.contains(&c.as_str())
            })
            .collect();
        match search.outcome(&present, &below) {
            MeshFound::Existing(p) | MeshFound::Verbatim(p) => Some(p),
            MeshFound::Missing => None,
        }
    };
    assert!(r("package://pkg/meshes/a.stl").unwrap().ends_with("a.stl"));
    assert!(r("package://other/meshes/b.stl").unwrap().ends_with("b.stl"));
    assert!(r("package://x/c.stl").unwrap().ends_with("c.stl"));
    assert_eq!(r("package://x/dup.stl"), None);
    assert_eq!(r("package://nopath"), None);
    assert!(r("../meshes/a.stl").unwrap().ends_with("a.stl"));
    assert_eq!(r("missing.stl"), None);
    assert!(r("file:///nowhere/x.stl").is_some());
}

#[test]
fn in_memory_packages_resolve_like_directories() {
    let mut pkg = package(&[
        "pkg/meshes/a.stl",
        "meshes/b.stl",
        "deep/er/c.stl",
        "d1/dup.stl",
        "d2/dup.stl",
        "pkg/urdf/c.obj",
    ]);
    pkg.insert("pkg/urdf/r.urdf", URDF.as_bytes().to_vec()).unwrap();
    let r = |f: &str| resolve_mesh_path_in(&pkg, f, "pkg/urdf/r.urdf");
    assert_eq!(r("package://pkg/meshes/a.stl").as_deref(), Some("pkg/meshes/a.stl"));
    assert_eq!(r("package://other/meshes/b.stl").as_deref(), Some("meshes/b.stl"));
    assert_eq!(r("package://x/c.stl").as_deref(), Some("deep/er/c.stl"));
    assert_eq!(r("package://x/dup.stl"), None);
    assert_eq!(r("package://x/er").as_deref(), Some("deep/er"), "directories match too");
    assert_eq!(r("package://nopath"), None);
    assert_eq!(r("../meshes/a.stl").as_deref(), Some("pkg/meshes/a.stl"));
    assert_eq!(r("/meshes/b.stl").as_deref(), Some("meshes/b.stl"));
    assert_eq!(r("../../../x.stl"), None);
    assert_eq!(r("missing.stl"), None);

    assert_eq!(select_urdf_in(&pkg, None).unwrap(), "pkg/urdf/r.urdf");
    let report = inspect_urdf_in(&pkg, "pkg/urdf/r.urdf").unwrap();
    assert_eq!(report.urdfs_in_folder, ["pkg/urdf/r.urdf"]);
    assert_eq!(report.collisions[0].mesh_path.as_deref(), Some("pkg/meshes/a.stl"));
    assert_eq!(report.collisions[7].mesh_path.as_deref(), Some("pkg/urdf/c.obj"));
    assert_eq!(report.to_pack().len(), 2);
    assert!(inspect_urdf_in(&pkg, "nope.urdf").is_err());
}
