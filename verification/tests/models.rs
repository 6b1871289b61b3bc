use morphit_robot::color::{hex_to_rgba, safe_color_rgba};
use morphit_robot::config::{config_refused, parse_advanced, variant_error, PackParams};
use morphit_robot::history::{needs_thinning, pick_points, subsample_history, MAX_POINTS};
use morphit_robot::kinematics::{parse_joints, zero_config_link_poses};
use morphit_robot::numeral::Triple;
use morphit_robot::object_model::{
    extract_centroid, inject_centroid_comment, load_radii, spheres_from_object_urdf,
    write_object_mjcf, write_object_urdf, ObjectParts, ObjectSphere,
};
use morphit_robot::server::error::ApiError;
use morphit_robot::{EngineError, Error, Fault};

const DEFAULT_SPHERE_RGBA: [f64; 4] = [0.2, 0.6, 1.0, 1.0];

fn shares(c: [u8; 4]) -> [f64; 4] {
    c.map(|v| v as f64 / 255.0)
}

#[test]
fn hex_parsing() {
    assert_eq!(hex_to_rgba("#3399ff").map(shares), Some([0.2, 0.6, 1.0, 1.0]));
    assert_eq!(hex_to_rgba("3399FF").map(shares), Some([0.2, 0.6, 1.0, 1.0]));
    assert_eq!(hex_to_rgba("#39f"), None);
    assert_eq!(hex_to_rgba("#zz99ff"), None);
    assert_eq!(shares(safe_color_rgba(Some("nope"))), DEFAULT_SPHERE_RGBA);
    assert_eq!(shares(safe_color_rgba(Some(""))), DEFAULT_SPHERE_RGBA);
    assert_eq!(shares(safe_color_rgba(None)), DEFAULT_SPHERE_RGBA);
    assert_eq!(shares(safe_color_rgba(Some("#000000"))), [0.0, 0.0, 0.0, 1.0]);
}

#[test]
fn hex_edge_cases() {
    assert_eq!(hex_to_rgba("#3399fF"), Some([0x33, 0x99, 0xff, 255]));
    assert_eq!(hex_to_rgba("##3399ff"), None);
    assert_eq!(hex_to_rgba("3399ff#"), None);
    assert_eq!(hex_to_rgba("+3+9+f"), None);
    assert_eq!(hex_to_rgba("#"), None);
    assert_eq!(hex_to_rgba("-3-9-f"), None);
    assert_eq!(hex_to_rgba("3399f\u{e9}"), None);
}

fn params() -> PackParams {
    PackParams {
        variant: "MorphIt-B".into(),
        num_spheres: 20,
        iterations: 200,
        seed: None,
        advanced: vec![],
        union_overlapping_bodies: true,
        convex_hull: false,
    }
}

#[test]
fn advanced_is_filtered_and_mapped() {
    let a = parse_advanced(
        r#"{"coverage_weight": 2.5, "bogus": 1, "sqem_weight": null, "num_inside_samples": 100}"#,
    )
    .unwrap();
    assert_eq!(
        a,
        vec![
            ("training.coverage_weight".to_string(), serde_json::Value::from(2.5).to_string()),
            ("model.num_inside_samples".to_string(), serde_json::Value::from(100).to_string()),
        ]
    );
    assert!(parse_advanced("").unwrap().is_empty());
    assert!(parse_advanced("{}").unwrap().is_empty());
    assert!(parse_advanced("[").unwrap_err().message().starts_with("advanced must be valid JSON: "));
    assert_eq!(parse_advanced("[1]").unwrap_err().message(), "advanced must be a JSON object");
}

#[test]
fn mesh_prep_follows_the_flag() {
    let mut p = params();
    assert!(p.config("cpu", "", "x.json").union_overlapping_bodies);
    p.union_overlapping_bodies = false;
    assert!(!p.config("cpu", "", "x.json").union_overlapping_bodies);
    assert!(!p.config("cpu", "", "x.json").convex_hull);
    p.convex_hull = true;
    assert!(p.config("cpu", "", "x.json").convex_hull);
}

#[test]
fn validation_messages() {
    assert!(params().validate().is_ok());
    let mut p = params();
    p.variant = "MorphIt-Obj".into();
    assert_eq!(
        p.validate().unwrap_err().message(),
        "variant must be one of ('MorphIt-V', 'MorphIt-S', 'MorphIt-B')"
    );
    assert_eq!(p.validate().unwrap_err().message(), variant_error());
    let mut p = params();
    p.num_spheres = 201;
    assert_eq!(p.validate().unwrap_err().message(), "num_spheres must be in [1, 200]");
    let mut p = params();
    p.iterations = 0;
    assert_eq!(p.validate().unwrap_err().message(), "iterations must be in [1, 1000]");
}

#[test]
fn config_applies_everything() {
    let mut p = params();
    p.seed = Some(7);
    p.advanced =
        parse_advanced(r#"{"coverage_weight": 3, "density_control_enabled": false}"#).unwrap();
    let c = p.config("cpu", "/tmp/x", "a.json");
    assert_eq!(c.num_spheres, 20);
    assert_eq!(c.iterations, 200);
    assert_eq!(c.random_seed, Some(7));
    assert_eq!(c.device, "cpu");
    assert_eq!(
        c.overrides,
        [
            ("training.coverage_weight".to_string(), "3".to_string()),
            ("training.density_control_enabled".to_string(), "false".to_string()),
        ]
    );
    assert_eq!(c.output_filename, "a.json");
    assert_eq!(c.results_dir, "/tmp/x");
    assert_eq!(c.preset, "MorphIt-B");
    assert!(!c.logging_enabled && !c.visualization_enabled && !c.visualization_save_video);
    assert!(c.visualization_off_screen);
    // The optimizer refuses an override of the wrong type.
    p.advanced = vec![("model.num_inside_samples".into(), "\"many\"".into())];
    assert_eq!(p.config("cpu", "", "").overrides, p.advanced);
    let refused = EngineError {
        fault: Fault::Config,
        detail: "wrong type".into(),
        message: "invalid value for model.num_inside_samples: wrong type".into(),
    };
    let e = config_refused(&refused);
    assert!(matches!(&e, Error::Invalid(m) if *m == refused.message));
    assert_eq!(ApiError::from_error(&e).status, 400);
    assert_eq!(ApiError::from_error(&Error::Morphit(refused)).status, 500);
}

#[test]
fn histories_are_picked_at_positions() {
    assert!(!needs_thinning(150, MAX_POINTS));
    assert!(needs_thinning(151, MAX_POINTS));
    assert!(needs_thinning(151, 0));
    assert!(needs_thinning(1, 0));
    assert!(!needs_thinning(0, 0));
    let h: Vec<(usize, u32)> = (0..5).map(|i| (i, 10 * i as u32)).collect();
    assert_eq!(pick_points(&h, &[0, 0, 2, 2, 4]), [(0, 0), (2, 20), (4, 40)]);
    assert!(pick_points(&h, &[]).is_empty());
    assert_eq!(subsample_history(&h, 3, &[0, 2, 4]), [(0, 0), (2, 20), (4, 40)]);
    assert_eq!(subsample_history(&h, 5, &[]), h);
    assert!(subsample_history(&h, 0, &[]).is_empty());
}

fn sphere(x: &str, radius: &str) -> ObjectSphere {
    ObjectSphere {
        center: Triple { x: x.into(), y: "0.000000".into(), z: "0.000000".into() },
        radius: radius.into(),
        mass: "0.500000".into(),
        inertia: "0.050000".into(),
        density: "0.954930".into(),
    }
}

fn cube() -> ObjectParts {
    ObjectParts {
        robot_name: "cube".into(),
        rgba: "0.200000 0.600000 1.000000 1.000000".into(),
        base_mass: "0.001000".into(),
        base_inertia: "0.000010".into(),
        anchored: false,
        centroid: Triple { x: "1.000000".into(), y: "0.000000".into(), z: "0.000000".into() },
        centroid_comment: Triple { x: "1.000000".into(), y: "0.000000".into(), z: "0.000000".into() },
        spheres: vec![sphere("-1.000000", "0.500000"), sphere("1.000000", "0.500000")],
    }
}

#[test]
fn template_and_centroid() {
    let text = write_object_urdf(&cube());
    let lines: Vec<&str> = text.lines().collect();
    assert_eq!(lines[0], r#"<?xml version="1.0"?>"#);
    assert_eq!(lines[1], r#"<robot name="cube">"#);
    assert_eq!(lines[2], "  <!-- morphit:centroid 1.000000 0.000000 0.000000 -->");
    assert_eq!(lines[4], r#"    <color rgba="0.200000 0.600000 1.000000 1.000000"/>"#);
    assert!(text.contains(r#"<joint name="sphere_1_fixed" type="fixed">"#));
    assert!(text.contains(r#"<origin xyz="-1.000000 0.000000 0.000000" rpy="0 0 0"/>"#));
    // Equal radii: half the mass each, I = 0.4 * 0.5 * 0.25.
    assert!(text.contains(r#"<mass value="0.500000"/>"#));
    assert!(text.contains(r#"ixx="0.050000" ixy="0.0""#));
    assert!(text.ends_with("</robot>\n"));
    let read = spheres_from_object_urdf(&text).unwrap();
    let num = |s: &str| s.parse::<f64>().unwrap();
    assert_eq!(num(&read.centroid.x), 1.0);
    let c: Vec<[f64; 3]> = read
        .spheres
        .iter()
        .map(|(t, _)| {
            [
                num(&t.x) + num(&read.centroid.x),
                num(&t.y) + num(&read.centroid.y),
                num(&t.z) + num(&read.centroid.z),
            ]
        })
        .collect();
    assert_eq!(c, vec![[0.0, 0.0, 0.0], [2.0, 0.0, 0.0]]);
    let r: Vec<f64> = read.spheres.iter().map(|(_, r)| num(r)).collect();
    assert_eq!(r, vec![0.5, 0.5]);
}

#[test]
fn object_urdfs_are_written_line_by_line() {
    let mut p = cube();
    p.spheres.truncate(1);
    p.anchored = true;
    let text = r#"<?xml version="1.0"?>
<robot name="cube">
  <!-- morphit:centroid 1.000000 0.000000 0.000000 -->
  <material name="default_color">
    <color rgba="0.200000 0.600000 1.000000 1.000000"/>
  </material>
  <link name="world"/>
  <link name="base">
    <inertial>
      <mass value="0.001000"/>
      <inertia ixx="0.000010" ixy="0.0" ixz="0.0" iyy="0.000010" iyz="0.0" izz="0.000010"/>
    </inertial>
  </link>
  <joint name="world_to_base" type="fixed">
    <parent link="world"/>
    <child link="base"/>
    <origin xyz="1.000000 0.000000 0.000000" rpy="0 0 0"/>
  </joint>
  <link name="sphere_0">
    <visual>
      <origin xyz="0 0 0" rpy="0 0 0"/>
      <geometry><sphere radius="0.500000"/></geometry>
      <material name="default_color"/>
    </visual>
    <collision>
      <origin xyz="0 0 0" rpy="0 0 0"/>
      <geometry><sphere radius="0.500000"/></geometry>
    </collision>
    <inertial>
      <mass value="0.500000"/>
      <inertia ixx="0.050000" ixy="0.0" ixz="0.0" iyy="0.050000" iyz="0.0" izz="0.050000"/>
    </inertial>
  </link>
  <joint name="sphere_0_fixed" type="fixed">
    <parent link="base"/>
    <child link="sphere_0"/>
    <origin xyz="-1.000000 0.000000 0.000000" rpy="0 0 0"/>
  </joint>
</robot>
"#;
    assert_eq!(write_object_urdf(&p), text);
    p.anchored = false;
    let free = write_object_urdf(&p);
    assert!(!free.contains("world"));
    assert_eq!(free.lines().count(), text.lines().count() - 6);
}

#[test]
fn written_objects_are_read_back() {
    let far = |n: usize| format!("{}.250000", n);
    for anchored in [false, true] {
        let mut p = cube();
        p.anchored = anchored;
        p.robot_name = "a nice \u{e9}tag\u{e8}re".into();
        p.centroid_comment.y = "-0.500000".into();
        p.spheres = (1..40).map(|n| sphere(&far(n), &far(n + 1))).collect();
        let read = spheres_from_object_urdf(&write_object_urdf(&p)).unwrap();
        assert_eq!(read.centroid.spaced(), "1.000000 -0.500000 0.000000");
        let spheres: Vec<(String, String)> =
            read.spheres.iter().map(|(t, r)| (t.spaced(), r.clone())).collect();
        let given: Vec<(String, String)> =
            p.spheres.iter().map(|s| (s.center.spaced(), s.radius.clone())).collect();
        assert_eq!(spheres, given);
    }
}

#[test]
fn anchored_and_free_models() {
    let mut p = cube();
    let free = write_object_mjcf(&p);
    assert!(free.starts_with("<?xml version=\"1.0\"?>\n<mujoco model=\"cube\">"), "{free}");
    assert!(free.contains("<freejoint name=\"base_free\"/>"));
    assert_eq!(free.matches("type=\"sphere\"").count(), 2);
    p.anchored = true;
    assert!(!write_object_mjcf(&p).contains("freejoint"));
    assert_ne!(write_object_urdf(&p), write_object_urdf(&cube()));
}

#[test]
fn radii_are_padded_or_truncated() {
    assert_eq!(load_radii(3, &[7u32]).unwrap(), [7, 7, 7]);
    assert_eq!(load_radii(2, &[1u32, 2]).unwrap(), [1, 2]);
    assert_eq!(load_radii(2, &[1u32, 2, 3]).unwrap(), [1, 2]);
    assert_eq!(load_radii(3, &[1u32, 2]).unwrap(), [1, 2, 2]);
    let msg = "JSON must contain non-empty 'centers' and 'radii' arrays.";
    assert_eq!(load_radii(0, &[1u32]).unwrap_err().message(), msg);
    assert_eq!(load_radii::<u32>(2, &[]).unwrap_err().message(), msg);
}

fn centroid(s: &str) -> Option<[f64; 3]> {
    extract_centroid(s)
        .map(|t| [t.x.parse().unwrap(), t.y.parse().unwrap(), t.z.parse().unwrap()])
}

#[test]
fn centroid_comment_parsing() {
    assert_eq!(centroid("<!-- morphit:centroid 1 -2.5 3.25 -->"), Some([1.0, -2.5, 3.25]));
    assert_eq!(centroid("x<!--x--><!--morphit:centroid\t1.0 2.0 3.0-->"), Some([1.0, 2.0, 3.0]));
    assert_eq!(centroid("<!-- morphit:centroid 1e-7 2 3 -->"), None);
    assert_eq!(centroid("<!-- morphit:centroid 1 2 -->"), None);
    assert_eq!(centroid("<!-- morphit:centroid1 2 3 -->"), None);
    let t = |x: f64, y: f64, z: f64| Triple {
        x: format!("{x:.6}"),
        y: format!("{y:.6}"),
        z: format!("{z:.6}"),
    };
    let with = inject_centroid_comment("<?xml?>\n<robot name=\"a\">\n</robot>", &t(0.1, -0.2, 0.3));
    assert_eq!(
        with,
        "<?xml?>\n<robot name=\"a\">\n  <!-- morphit:centroid 0.100000 -0.200000 0.300000 -->\n</robot>"
    );
    assert_eq!(
        inject_centroid_comment("<robots/>", &t(0.0, 0.0, 0.0)),
        "  <!-- morphit:centroid 0.000000 0.000000 0.000000 -->\n<robots/>"
    );
}

#[test]
fn reader_errors() {
    let msg = |s: &str| spheres_from_object_urdf(s).unwrap_err().message();
    assert_eq!(msg("<robot/>"), "URDF has no morphit:centroid comment; not a MorphIt object URDF");
    assert!(msg("<!-- morphit:centroid 0 0 0 --><robot>").starts_with("URDF is not valid XML: "));
    assert_eq!(msg("<robot><!-- morphit:centroid 0 0 0 --></robot>"), "no spheres found in URDF");
}

const CHAIN: &str = r#"<robot name="r">
  <link name="base"/><link name="a"/><link name="b"/><link name="loose"/>
  <joint name="j1" type="revolute"><parent link="base"/><child link="a"/>
    <origin xyz="0 0 1" rpy="0 0 1.5707963267948966"/></joint>
  <joint name="j2" type="fixed"><parent link="a"/><child link="b"/><origin xyz="1 0 0"/></joint>
  <transmission name="t"><joint name="j1"><hardwareInterface>x</hardwareInterface></joint></transmission>
</robot>"#;

#[test]
fn chain_composes_joint_origins() {
    let joints = parse_joints(CHAIN).unwrap();
    assert_eq!(joints.len(), 2, "the transmission's joint is not a joint");
    let num = |t: &Triple| {
        [t.x.parse::<f64>().unwrap(), t.y.parse::<f64>().unwrap(), t.z.parse::<f64>().unwrap()]
    };
    assert_eq!((joints[0].kind.as_str(), num(&joints[1].xyz)), ("revolute", [1.0, 0.0, 0.0]));
    let chains = zero_config_link_poses(CHAIN).unwrap();
    let chain = |name: &str| chains.iter().find(|c| c.link == name).unwrap().joints.clone();
    assert!(chain("base").is_empty());
    assert!(chain("loose").is_empty());
    assert_eq!(chain("a"), [0]);
    assert_eq!(chain("b"), [0, 1]);
    // a is turned 90 degrees about z, so b's +x offset points along +y.
    let pose = |name: &str| {
        let (mut at, mut turn) = ([0.0f64; 3], 0.0f64);
        for j in chain(name) {
            let o = num(&joints[j].xyz);
            let (s, c) = turn.sin_cos();
            at = [at[0] + c * o[0] - s * o[1], at[1] + s * o[0] + c * o[1], at[2] + o[2]];
            turn += num(&joints[j].rpy)[2];
        }
        at
    };
    let close = |a: [f64; 3], b: [f64; 3]| a.iter().zip(&b).all(|(x, y)| (x - y).abs() < 1e-12);
    assert!(close(pose("a"), [0.0, 0.0, 1.0]));
    assert!(close(pose("b"), [0.0, 1.0, 1.0]));
    assert!(zero_config_link_poses("<robot>").is_err());
}

/// `np.linspace(0, n - 1, max_points).astype(int)`.
fn positions(n: usize, max_points: usize) -> Vec<usize> {
    let stop = (n - 1) as f64;
    let step = stop / (max_points - 1) as f64;
    (0..max_points)
        .map(|k| if k + 1 == max_points { stop } else { k as f64 * step } as usize)
        .collect()
}

fn thinned(n: usize) -> Vec<usize> {
    let h: Vec<usize> = (0..n).collect();
    assert!(needs_thinning(n, MAX_POINTS));
    pick_points(&h, &positions(n, MAX_POINTS))
}

#[test]
fn long_histories_match_numpy() {
    let h = thinned(151);
    assert_eq!(h.len(), 150);
    assert_eq!(h.first(), Some(&0));
    assert_eq!(h.last(), Some(&150));
    let h = thinned(1000);
    assert_eq!(h.len(), 150);
    assert_eq!((h[0], h[1], h[2], h[149]), (0, 6, 13, 999));
    assert_eq!(h[3], 20);
    assert_eq!(h[4], 26);
    // (n, sum of kept indices, count) from numpy.
    for (n, sum, len) in [
        (151, 11176, 150),
        (153, 11326, 150),
        (197, 14626, 150),
        (200, 14851, 150),
        (299, 22350, 150),
        (300, 22351, 150),
        (333, 24826, 150),
        (500, 37351, 150),
        (777, 58126, 150),
        (1000, 74851, 150),
    ] {
        let h = thinned(n);
        assert_eq!((h.iter().sum::<usize>(), h.len()), (sum, len), "n = {n}");
    }
}
