//! The bundled example library (`web/examples`): object meshes (with
//! thumbnails and pre-baked URDFs) and robot packages (with pre-baked
//! spherical URDFs), in the order that the UI shows them.

use vstd::prelude::*;

use crate::text;

verus! {

/// A registered example object.
#[derive(Clone, Copy, Debug)]
pub struct ExampleObject {
    pub name: &'static str,
    pub label: &'static str,
    pub filename: &'static str,
    pub default: bool,
}

/// The contents of an [`ExampleObject`].
pub struct ObjectView {
    pub name: Seq<char>,
    pub label: Seq<char>,
    pub filename: Seq<char>,
    pub default: bool,
}

impl View for ExampleObject {
    type V = ObjectView;

    open spec fn view(&self) -> ObjectView {
        ObjectView {
            name: self.name@,
            label: self.label@,
            filename: self.filename@,
            default: self.default,
        }
    }
}

/// The contents of a list of examples.
pub open spec fn object_views(v: Seq<ExampleObject>) -> Seq<ObjectView> {
    v.map_values(|o: ExampleObject| o@)
}

/// An object that is not the default.
pub open spec fn object(name: Seq<char>, label: Seq<char>, filename: Seq<char>) -> ObjectView {
    ObjectView { name, label, filename, default: false }
}

/// An object that is not the default.
fn obj(name: &'static str, label: &'static str, filename: &'static str) -> (out: ExampleObject)
    ensures
        out@ == object(name@, label@, filename@),
{
    ExampleObject { name, label, filename, default: false }
}

/// The registered objects; the first is the default.
pub open spec fn objects() -> Seq<ObjectView> {
    seq![
        ObjectView {
            name: "bunny"@,
            label: "bunny.obj — Stanford Bunny"@,
            filename: "bunny.obj"@,
            default: true,
        },
        object("link0"@, "link0.obj — Franka FR3 base link"@, "link0.obj"@),
        object("teapot"@, "teapot.obj — Porcelain teapot"@, "teapot.obj"@),
        object("dog_bowl"@, "dog_bowl.obj — Ceramic dog bowl"@, "dog_bowl.obj"@),
        object("boot"@, "boot.obj — Suede ankle boot"@, "boot.obj"@),
        object("mug"@, "mug.obj — Coffee mug"@, "mug.obj"@),
        object("bowl"@, "bowl.obj — Ceramic bowl"@, "bowl.obj"@),
        object("panda_toy"@, "panda_toy.obj — Panda figurine"@, "panda_toy.obj"@),
        object("planter"@, "planter.obj — Plant pot"@, "planter.obj"@),
        object("foobler"@, "foobler.obj — Treat-dispenser ball"@, "foobler.obj"@),
        object("frother"@, "frother.obj — Milk frother"@, "frother.obj"@),
        object("cooker"@, "cooker.obj — Pressure cooker"@, "cooker.obj"@),
        object("rhino"@, "rhino.obj — Rhino figurine"@, "rhino.obj"@),
        object("lion"@, "lion.obj — Lion figurine"@, "lion.obj"@),
        object("school_bus"@, "school_bus.obj — Toy school bus"@, "school_bus.obj"@),
        object("speaker"@, "speaker.obj — Portable speaker"@, "speaker.obj"@),
        object("toaster"@, "toaster.obj — 2-slice toaster"@, "toaster.obj"@),
        object("nesquik"@, "nesquik.obj — Nesquik canister"@, "nesquik.obj"@),
        object("coffee_jar"@, "coffee_jar.obj — Coffee jar"@, "coffee_jar.obj"@),
        object("pitcher"@, "pitcher.obj — Porcelain pitcher"@, "pitcher.obj"@),
    ]
}

/// The registered objects; the first is the default.
pub fn example_objects() -> (out: Vec<ExampleObject>)
    ensures
        object_views(out@) == objects(),
{
    let out: Vec<ExampleObject> = vec![
        ExampleObject {
            name: "bunny",
            label: "bunny.obj — Stanford Bunny",
            filename: "bunny.obj",
            default: true,
        },
        obj("link0", "link0.obj — Franka FR3 base link", "link0.obj"),
        obj("teapot", "teapot.obj — Porcelain teapot", "teapot.obj"),
        obj("dog_bowl", "dog_bowl.obj — Ceramic dog bowl", "dog_bowl.obj"),
        obj("boot", "boot.obj — Suede ankle boot", "boot.obj"),
        obj("mug", "mug.obj — Coffee mug", "mug.obj"),
        obj("bowl", "bowl.obj — Ceramic bowl", "bowl.obj"),
        obj("panda_toy", "panda_toy.obj — Panda figurine", "panda_toy.obj"),
        obj("planter", "planter.obj — Plant pot", "planter.obj"),
        obj("foobler", "foobler.obj — Treat-dispenser ball", "foobler.obj"),
        obj("frother", "frother.obj — Milk frother", "frother.obj"),
        obj("cooker", "cooker.obj — Pressure cooker", "cooker.obj"),
        obj("rhino", "rhino.obj — Rhino figurine", "rhino.obj"),
        obj("lion", "lion.obj — Lion figurine", "lion.obj"),
        obj("school_bus", "school_bus.obj — Toy school bus", "school_bus.obj"),
        obj("speaker", "speaker.obj — Portable speaker", "speaker.obj"),
        obj("toaster", "toaster.obj — 2-slice toaster", "toaster.obj"),
        obj("nesquik", "nesquik.obj — Nesquik canister", "nesquik.obj"),
        obj("coffee_jar", "coffee_jar.obj — Coffee jar", "coffee_jar.obj"),
        obj("pitcher", "pitcher.obj — Porcelain pitcher", "pitcher.obj"),
    ];
    assert(object_views(out@) =~= objects());
    out
}

/// A registered example robot package.
#[derive(Clone, Copy, Debug)]
pub struct ExampleRobot {
    pub name: &'static str,
    pub label: &'static str,
    /// Package folder under `web/examples`.
    pub folder: &'static str,
    /// URDF basename inside the folder.
    pub urdf: &'static str,
    /// Pre-baked spherical URDF under `web/examples`.
    pub spherical_urdf: &'static str,
    pub default: bool,
}

/// The contents of an [`ExampleRobot`].
pub struct RobotView {
    pub name: Seq<char>,
    pub label: Seq<char>,
    pub folder: Seq<char>,
    pub urdf: Seq<char>,
    pub spherical_urdf: Seq<char>,
    pub default: bool,
}

impl View for ExampleRobot {
    type V = RobotView;

    open spec fn view(&self) -> RobotView {
        RobotView {
            name: self.name@,
            label: self.label@,
            folder: self.folder@,
            urdf: self.urdf@,
            spherical_urdf: self.spherical_urdf@,
            default: self.default,
        }
    }
}

/// The contents of a list of robots.
pub open spec fn robot_views(v: Seq<ExampleRobot>) -> Seq<RobotView> {
    v.map_values(|r: ExampleRobot| r@)
}

/// A robot that is not the default.
pub open spec fn robot_entry(
    name: Seq<char>,
    label: Seq<char>,
    folder: Seq<char>,
    urdf: Seq<char>,
    spherical_urdf: Seq<char>,
) -> RobotView {
    RobotView { name, label, folder, urdf, spherical_urdf, default: false }
}

/// A robot that is not the default.
fn robot(
    name: &'static str,
    label: &'static str,
    folder: &'static str,
    urdf: &'static str,
    spherical_urdf: &'static str,
) -> (out: ExampleRobot)
    ensures
        out@ == robot_entry(name@, label@, folder@, urdf@, spherical_urdf@),
{
    ExampleRobot { name, label, folder, urdf, spherical_urdf, default: false }
}

/// The registered robots; the first is the default.
pub open spec fn robots() -> Seq<RobotView> {
    seq![
        RobotView {
            name: "kinova"@,
            label: "Kinova m1n4s200"@,
            folder: "kinova_description"@,
            urdf: "m1n4s200_standalone.urdf"@,
            spherical_urdf: "kinova.spherical.urdf"@,
            default: true,
        },
        robot_entry(
            "panda"@,
            "Franka Emika Panda"@,
            "franka_panda"@,
            "panda.urdf"@,
            "panda.spherical.urdf"@,
        ),
        robot_entry(
            "ur5"@,
            "Universal Robots UR5"@,
            "ur5"@,
            "ur5_gripper.urdf"@,
            "ur5.spherical.urdf"@,
        ),
        robot_entry(
            "kuka_iiwa"@,
            "KUKA LBR iiwa"@,
            "kuka_iiwa"@,
            "model.urdf"@,
            "kuka_iiwa.spherical.urdf"@,
        ),
        robot_entry(
            "yumi"@,
            "ABB YuMi (IRB 14000)"@,
            "yumi"@,
            "yumi.urdf"@,
            "yumi.spherical.urdf"@,
        ),
        robot_entry(
            "spot"@,
            "Boston Dynamics Spot (quadruped)"@,
            "spot"@,
            "spot.urdf"@,
            "spot.spherical.urdf"@,
        ),
        robot_entry(
            "fetch"@,
            "Fetch (mobile manipulator)"@,
            "fetch"@,
            "fetch.urdf"@,
            "fetch.spherical.urdf"@,
        ),
        robot_entry(
            "valkyrie"@,
            "NASA Valkyrie (humanoid)"@,
            "valkyrie"@,
            "valkyrie_A.urdf"@,
            "valkyrie.spherical.urdf"@,
        ),
        robot_entry(
            "fanuc_m20ia"@,
            "Fanuc M-20iA (industrial)"@,
            "fanuc_m20ia"@,
            "m20ia10l.urdf"@,
            "fanuc_m20ia.spherical.urdf"@,
        ),
        robot_entry(
            "abb_irb2400"@,
            "ABB IRB 2400 (industrial)"@,
            "abb_irb2400"@,
            "irb2400.urdf"@,
            "abb_irb2400.spherical.urdf"@,
        ),
    ]
}

/// The registered robots; the first is the default.
pub fn example_robots() -> (out: Vec<ExampleRobot>)
    ensures
        robot_views(out@) == robots(),
{
    let out: Vec<ExampleRobot> = vec![
        ExampleRobot {
            name: "kinova",
            label: "Kinova m1n4s200",
            folder: "kinova_description",
            urdf: "m1n4s200_standalone.urdf",
            spherical_urdf: "kinova.spherical.urdf",
            default: true,
        },
        robot(
            "panda",
            "Franka Emika Panda",
            "franka_panda",
            "panda.urdf",
            "panda.spherical.urdf",
        ),
        robot(
            "ur5",
            "Universal Robots UR5",
            "ur5",
            "ur5_gripper.urdf",
            "ur5.spherical.urdf",
        ),
        robot(
            "kuka_iiwa",
            "KUKA LBR iiwa",
            "kuka_iiwa",
            "model.urdf",
            "kuka_iiwa.spherical.urdf",
        ),
        robot(
            "yumi",
            "ABB YuMi (IRB 14000)",
            "yumi",
            "yumi.urdf",
            "yumi.spherical.urdf",
        ),
        robot(
            "spot",
            "Boston Dynamics Spot (quadruped)",
            "spot",
            "spot.urdf",
            "spot.spherical.urdf",
        ),
        robot(
            "fetch",
            "Fetch (mobile manipulator)",
            "fetch",
            "fetch.urdf",
            "fetch.spherical.urdf",
        ),
        robot(
            "valkyrie",
            "NASA Valkyrie (humanoid)",
            "valkyrie",
            "valkyrie_A.urdf",
            "valkyrie.spherical.urdf",
        ),
        robot(
            "fanuc_m20ia",
            "Fanuc M-20iA (industrial)",
            "fanuc_m20ia",
            "m20ia10l.urdf",
            "fanuc_m20ia.spherical.urdf",
        ),
        robot(
            "abb_irb2400",
            "ABB IRB 2400 (industrial)",
            "abb_irb2400",
            "irb2400.urdf",
            "abb_irb2400.spherical.urdf",
        ),
    ];
    assert(robot_views(out@) =~= robots());
    out
}

/// The first object called `name` at or after `i`.
pub open spec fn object_from(v: Seq<ObjectView>, name: Seq<char>, i: int) -> Option<ObjectView>
    decreases v.len() - i,
{
    if 0 <= i < v.len() {
        if v[i].name == name {
            Some(v[i])
        } else {
            object_from(v, name, i + 1)
        }
    } else {
        None
    }
}

/// The first robot called `name` at or after `i`.
pub open spec fn robot_from(v: Seq<RobotView>, name: Seq<char>, i: int) -> Option<RobotView>
    decreases v.len() - i,
{
    if 0 <= i < v.len() {
        if v[i].name == name {
            Some(v[i])
        } else {
            robot_from(v, name, i + 1)
        }
    } else {
        None
    }
}

/// The registered object called `name`.
pub fn object_named(name: &str) -> (out: Option<ExampleObject>)
    ensures
        match out {
            Some(o) => object_from(objects(), name@, 0) == Some(o@),
            None => object_from(objects(), name@, 0) is None,
        },
{
    let all = example_objects();
    let ghost v = object_views(all@);
    let mut i: usize = 0;
    while i < all.len()
        invariant
            i <= all@.len(),
            v == object_views(all@),
            v == objects(),
            object_from(v, name@, 0) == object_from(v, name@, i as int),
        decreases all@.len() - i,
    {
        assert(v[i as int] == all@[i as int]@);
        if text::same(all[i].name, name) {
            return Some(all[i]);
        }
        i = i + 1;
    }
    None
}

/// The registered robot called `name`.
pub fn robot_named(name: &str) -> (out: Option<ExampleRobot>)
    ensures
        match out {
            Some(r) => robot_from(robots(), name@, 0) == Some(r@),
            None => robot_from(robots(), name@, 0) is None,
        },
{
    let all = example_robots();
    find_robot(&all, name)
}

/// The first of the robots called `name`.
pub fn find_robot(all: &[ExampleRobot], name: &str) -> (out: Option<ExampleRobot>)
    ensures
        match out {
            Some(r) => robot_from(robot_views(all@), name@, 0) == Some(r@),
            None => robot_from(robot_views(all@), name@, 0) is None,
        },
{
    let ghost v = robot_views(all@);
    let mut i: usize = 0;
    while i < all.len()
        invariant
            i <= all@.len(),
            v == robot_views(all@),
            robot_from(v, name@, 0) == robot_from(v, name@, i as int),
        decreases all@.len() - i,
    {
        assert(v[i as int] == all@[i as int]@);
        if text::same(all[i].name, name) {
            return Some(all[i]);
        }
        i = i + 1;
    }
    None
}

/// A lookup by name finds an example of that name, the first that there is,
/// and nothing only where no example has the name.
pub proof fn lookups_find_the_first_of_the_name(v: Seq<ObjectView>, name: Seq<char>, i: int)
    requires
        0 <= i <= v.len(),
    ensures
        match object_from(v, name, i) {
            Some(o) => o.name == name && exists|k: int|
                i <= k < v.len() && v[k] == o && forall|j: int| i <= j < k ==> v[j].name != name,
            None => forall|j: int| i <= j < v.len() ==> v[j].name != name,
        },
    decreases v.len() - i,
{
    if i < v.len() && v[i].name != name {
        lookups_find_the_first_of_the_name(v, name, i + 1);
        if object_from(v, name, i) is Some {
            let o = object_from(v, name, i)->0;
            let k = choose|k: int|
                i + 1 <= k < v.len() && v[k] == o && forall|j: int|
                    i + 1 <= j < k ==> v[j].name != name;
            assert(i <= k < v.len() && v[k] == o && forall|j: int| i <= j < k ==> v[j].name != name);
        }
    } else if i < v.len() {
        assert(v[i].name == name);
    }
}

} // verus!
