//! The example library over HTTP: which examples there are, and which files
//! belong to them.

use vstd::prelude::*;

use crate::examples;
use crate::examples::{ExampleObject, ExampleRobot, ObjectView, RobotView};
use crate::inspect;
use crate::py_repr;
use crate::server::error;
use crate::server::error::{ApiError, ApiErrorView};
use crate::server::files;

verus! {

/// The object called `name`, or a 404.
pub open spec fn object_or_404(name: Seq<char>) -> Result<ObjectView, ApiErrorView> {
    match examples::object_from(examples::objects(), name, 0) {
        Some(o) => Ok(o),
        None => Err(error::reply(404, "example "@ + crate::repr(name) + " not found"@)),
    }
}

/// The robot called `name`, or a 404.
pub open spec fn robot_or_404(name: Seq<char>) -> Result<RobotView, ApiErrorView> {
    match examples::robot_from(examples::robots(), name, 0) {
        Some(r) => Ok(r),
        None => Err(error::reply(404, "robot "@ + crate::repr(name) + " not in library"@)),
    }
}

/// `before` the quoted `name` and `after`.
fn about(before: &str, name: &str, after: &str) -> (out: String)
    ensures
        out@ == before@ + crate::repr(name@) + after@,
{
    let mut m = String::from_str(before);
    m.append(py_repr(name).as_str());
    m.append(after);
    m
}

/// The object called `name`, or a 404.
pub fn find_object(name: &str) -> (res: Result<ExampleObject, ApiError>)
    ensures
        match res {
            Ok(o) => object_or_404(name@) == Ok::<ObjectView, ApiErrorView>(o@),
            Err(e) => object_or_404(name@) == Err::<ObjectView, ApiErrorView>(e@),
        },
{
    match examples::object_named(name) {
        Some(o) => Ok(o),
        None => Err(ApiError::not_found(about("example ", name, " not found").as_str())),
    }
}

/// The robot called `name`, or a 404.
pub fn find_robot(name: &str) -> (res: Result<ExampleRobot, ApiError>)
    ensures
        match res {
            Ok(r) => robot_or_404(name@) == Ok::<RobotView, ApiErrorView>(r@),
            Err(e) => robot_or_404(name@) == Err::<RobotView, ApiErrorView>(e@),
        },
{
    match examples::robot_named(name) {
        Some(r) => Ok(r),
        None => Err(ApiError::not_found(about("robot ", name, " not in library").as_str())),
    }
}

/// The files of an example object.
#[derive(Debug)]
pub struct ObjectFiles {
    pub mesh: String,
    /// The pre-baked packing.
    pub packed: String,
    pub thumbnail: String,
}

/// The files of the object `o` in the directory `dir`.
pub fn object_files(dir: &str, o: &ExampleObject) -> (out: ObjectFiles)
    ensures
        out.mesh@ == inspect::path_join(dir@, o@.filename),
        out.packed@ == inspect::path_join(dir@, o@.name + ".urdf"@),
        out.thumbnail@ == inspect::path_join(
            dir@,
            files::stem_or(Some(o@.filename), o@.filename) + ".png"@,
        ),
{
    let mut packed = String::from_str(o.name);
    packed.append(".urdf");
    let mut thumbnail = files::file_stem(Some(o.filename), o.filename);
    thumbnail.append(".png");
    ObjectFiles {
        mesh: inspect::join_path(dir, o.filename),
        packed: inspect::join_path(dir, packed.as_str()),
        thumbnail: inspect::join_path(dir, thumbnail.as_str()),
    }
}

/// Which files of an example are there.
#[derive(Clone, Copy, Debug, PartialEq, Eq, Structural)]
pub struct ObjectFound {
    pub mesh: bool,
    pub packed: bool,
    pub thumbnail: bool,
}

/// An entry of `GET /api/examples`.
#[derive(Clone, Copy, Debug)]
pub struct ObjectEntry {
    pub object: ExampleObject,
    pub has_packed: bool,
    pub has_thumbnail: bool,
}

/// The contents of an [`ObjectEntry`].
pub struct ObjectEntryView {
    pub object: ObjectView,
    pub has_packed: bool,
    pub has_thumbnail: bool,
}

/// The contents of a list of entries.
pub open spec fn object_entry_views(v: Seq<ObjectEntry>) -> Seq<ObjectEntryView> {
    v.map_values(
        |e: ObjectEntry|
            ObjectEntryView {
                object: e.object@,
                has_packed: e.has_packed,
                has_thumbnail: e.has_thumbnail,
            },
    )
}

/// The objects whose mesh is there, in order; `found` tells of each object
/// which of its files are there.
pub open spec fn listed_objects(v: Seq<ObjectView>, found: Seq<ObjectFound>) -> Seq<ObjectEntryView>
    decreases v.len(),
{
    if v.len() == 0 {
        Seq::empty()
    } else {
        let front = listed_objects(v.drop_last(), found);
        let n = v.len() - 1;
        if n < found.len() && found[n].mesh {
            front.push(
                ObjectEntryView {
                    object: v.last(),
                    has_packed: found[n].packed,
                    has_thumbnail: found[n].thumbnail,
                },
            )
        } else {
            front
        }
    }
}

/// `GET /api/examples`: the objects whose mesh is there; `found` tells of each
/// registered object which of its files are there.
pub fn list_objects(found: &[ObjectFound]) -> (out: Vec<ObjectEntry>)
    ensures
        object_entry_views(out@) == listed_objects(examples::objects(), found@),
{
    let all = examples::example_objects();
    let ghost v = examples::object_views(all@);
    let mut out: Vec<ObjectEntry> = Vec::new();
    let mut i: usize = 0;
    assert(object_entry_views(out@) =~= listed_objects(v.take(0), found@));
    while i < all.len()
        invariant
            i <= all@.len(),
            v == examples::object_views(all@),
            object_entry_views(out@) == listed_objects(v.take(i as int), found@),
        decreases all@.len() - i,
    {
        proof {
            assert(v.take(i + 1).drop_last() =~= v.take(i as int));
            assert(v.take(i + 1).last() == all@[i as int]@);
        }
        if i < found.len() && found[i].mesh {
            let ghost seen = object_entry_views(out@);
            let e = ObjectEntry {
                object: all[i],
                has_packed: found[i].packed,
                has_thumbnail: found[i].thumbnail,
            };
            out.push(e);
            assert(object_entry_views(out@) =~= seen.push(
                ObjectEntryView {
                    object: e.object@,
                    has_packed: e.has_packed,
                    has_thumbnail: e.has_thumbnail,
                },
            ));
        }
        i = i + 1;
    }
    assert(v.take(i as int) =~= v);
    out
}

/// Which files of an example robot are there.
#[derive(Clone, Copy, Debug, PartialEq, Eq, Structural)]
pub struct RobotFound {
    pub folder: bool,
    pub spherical: bool,
}

/// An entry of `GET /api/robot/examples`.
#[derive(Clone, Copy, Debug)]
pub struct RobotEntry {
    pub robot: ExampleRobot,
    pub has_spherical: bool,
}

/// The contents of a [`RobotEntry`].
pub struct RobotEntryView {
    pub robot: RobotView,
    pub has_spherical: bool,
}

/// The contents of a list of entries.
pub open spec fn robot_entry_views(v: Seq<RobotEntry>) -> Seq<RobotEntryView> {
    v.map_values(
        |e: RobotEntry| RobotEntryView { robot: e.robot@, has_spherical: e.has_spherical },
    )
}

/// The robots whose folder is there, in order.
pub open spec fn listed_robots(v: Seq<RobotView>, found: Seq<RobotFound>) -> Seq<RobotEntryView>
    decreases v.len(),
{
    if v.len() == 0 {
        Seq::empty()
    } else {
        let front = listed_robots(v.drop_last(), found);
        let n = v.len() - 1;
        if n < found.len() && found[n].folder {
            front.push(RobotEntryView { robot: v.last(), has_spherical: found[n].spherical })
        } else {
            front
        }
    }
}

/// `GET /api/robot/examples`: the robots whose folder is there; `found` tells
/// of each registered robot which of its files are there.
pub fn list_robots(found: &[RobotFound]) -> (out: Vec<RobotEntry>)
    ensures
        robot_entry_views(out@) == listed_robots(examples::robots(), found@),
{
    let all = examples::example_robots();
    let ghost v = examples::robot_views(all@);
    let mut out: Vec<RobotEntry> = Vec::new();
    let mut i: usize = 0;
    assert(robot_entry_views(out@) =~= listed_robots(v.take(0), found@));
    while i < all.len()
        invariant
            i <= all@.len(),
            v == examples::robot_views(all@),
            robot_entry_views(out@) == listed_robots(v.take(i as int), found@),
        decreases all@.len() - i,
    {
        proof {
            assert(v.take(i + 1).drop_last() =~= v.take(i as int));
            assert(v.take(i + 1).last() == all@[i as int]@);
        }
        if i < found.len() && found[i].folder {
            let ghost seen = robot_entry_views(out@);
            let e = RobotEntry { robot: all[i], has_spherical: found[i].spherical };
            out.push(e);
            assert(robot_entry_views(out@) =~= seen.push(
                RobotEntryView { robot: e.robot@, has_spherical: e.has_spherical },
            ));
        }
        i = i + 1;
    }
    assert(v.take(i as int) =~= v);
    out
}

/// What can be missing of an example.
#[derive(Clone, Copy, Debug, PartialEq, Eq, Structural)]
pub enum Missing {
    /// The mesh of an object.
    Mesh,
    /// The pre-baked packing of an object.
    Packing,
    /// The centroid comment of a pre-baked packing.
    Centroid,
    /// The thumbnail of an object.
    Thumbnail,
    /// The folder of a robot, expected at the path.
    Folder,
    /// The pre-baked spherical URDF of a robot.
    Spherical,
}

/// The reply when something is missing of the example `name`; `file` is the
/// file that was expected.
pub open spec fn missing_example(m: Missing, name: Seq<char>, file: Seq<char>) -> ApiErrorView {
    match m {
        Missing::Mesh => error::reply(500, "example file missing on server: "@ + file),
        Missing::Packing => error::reply(
            404,
            "example "@ + crate::repr(name) + " has no pre-baked packing"@,
        ),
        Missing::Centroid => error::reply(
            500,
            "pre-baked URDF for "@ + crate::repr(name)
                + " is missing its morphit:centroid comment; re-run the bundling script or re-paste a URDF from the UI (which now embeds the centroid in the file)."@,
        ),
        Missing::Thumbnail => error::reply(404, "no thumbnail for example "@ + crate::repr(name)),
        Missing::Folder => error::reply(
            500,
            "robot "@ + crate::repr(name) + " not bundled; expected "@ + file,
        ),
        Missing::Spherical => error::reply(
            404,
            "robot "@ + crate::repr(name) + " has no pre-baked spherical URDF"@,
        ),
    }
}

/// The reply when something is missing of the example `name`; `file` is the
/// file that was expected.
pub fn missing_error(m: Missing, name: &str, file: &str) -> (out: ApiError)
    ensures
        out@ == missing_example(m, name@, file@),
{
    match m {
        Missing::Mesh => {
            let mut t = String::from_str("example file missing on server: ");
            t.append(file);
            ApiError::internal(t.as_str())
        },
        Missing::Packing => ApiError::not_found(
            about("example ", name, " has no pre-baked packing").as_str(),
        ),
        Missing::Centroid => ApiError::internal(
            about(
                "pre-baked URDF for ",
                name,
                " is missing its morphit:centroid comment; re-run the bundling script or re-paste a URDF from the UI (which now embeds the centroid in the file).",
            ).as_str(),
        ),
        Missing::Thumbnail => {
            let mut t = String::from_str("no thumbnail for example ");
            t.append(py_repr(name).as_str());
            ApiError::not_found(t.as_str())
        },
        Missing::Folder => {
            let mut t = about("robot ", name, " not bundled; expected ");
            t.append(file);
            ApiError::internal(t.as_str())
        },
        Missing::Spherical => ApiError::not_found(
            about("robot ", name, " has no pre-baked spherical URDF").as_str(),
        ),
    }
}

/// The reply when no URDF can be selected in the package of a bundled robot.
pub fn malformed_robot(name: &str, message: &str) -> (out: ApiError)
    ensures
        out@ == error::reply(500, "robot "@ + crate::repr(name@) + " malformed: "@ + message@),
{
    let mut t = about("robot ", name, " malformed: ");
    t.append(message);
    ApiError::internal(t.as_str())
}

/// An object is listed where its mesh is there, with what else of it is there.
pub proof fn objects_with_a_mesh_are_listed(v: Seq<ObjectView>, found: Seq<ObjectFound>, i: int)
    requires
        v.len() == found.len(),
        0 <= i < v.len(),
        found[i].mesh,
    ensures
        exists|k: int|
            0 <= k < listed_objects(v, found).len() && (#[trigger] listed_objects(
                v,
                found,
            )[k]).object == v[i] && listed_objects(v, found)[k].has_packed == found[i].packed
                && listed_objects(v, found)[k].has_thumbnail == found[i].thumbnail,
{
    lemma_object_listed(v, found, i);
}

proof fn lemma_object_listed(v: Seq<ObjectView>, found: Seq<ObjectFound>, i: int)
    requires
        v.len() <= found.len(),
        0 <= i < v.len(),
        found[i].mesh,
    ensures
        exists|k: int|
            0 <= k < listed_objects(v, found).len() && (#[trigger] listed_objects(
                v,
                found,
            )[k]).object == v[i] && listed_objects(v, found)[k].has_packed == found[i].packed
                && listed_objects(v, found)[k].has_thumbnail == found[i].thumbnail,
    decreases v.len(),
{
    let f = v.drop_last();
    let front = listed_objects(f, found);
    let all = listed_objects(v, found);
    if i == v.len() - 1 {
        assert(all[front.len() as int].object == v[i]);
    } else {
        lemma_object_listed(f, found, i);
        let k = choose|k: int|
            0 <= k < front.len() && (#[trigger] front[k]).object == f[i] && front[k].has_packed
                == found[i].packed && front[k].has_thumbnail == found[i].thumbnail;
        assert(all[k] == front[k]);
    }
}

/// Only objects whose mesh is there are listed.
pub proof fn only_objects_with_a_mesh_are_listed(
    v: Seq<ObjectView>,
    found: Seq<ObjectFound>,
    k: int,
)
    requires
        0 <= k < listed_objects(v, found).len(),
    ensures
        exists|i: int|
            0 <= i < v.len() && i < found.len() && found[i].mesh && (#[trigger] v[i])
                == listed_objects(v, found)[k].object && found[i].packed == listed_objects(
                v,
                found,
            )[k].has_packed && found[i].thumbnail == listed_objects(v, found)[k].has_thumbnail,
    decreases v.len(),
{
    let f = v.drop_last();
    let front = listed_objects(f, found);
    let n = v.len() - 1;
    if k < front.len() {
        only_objects_with_a_mesh_are_listed(f, found, k);
        let i = choose|i: int|
            0 <= i < f.len() && i < found.len() && found[i].mesh && (#[trigger] f[i])
                == front[k].object && found[i].packed == front[k].has_packed && found[i].thumbnail
                == front[k].has_thumbnail;
        assert(v[i] == f[i]);
    } else {
        assert(v[n] == v.last());
    }
}

/// A robot is listed where its folder is there, and says whether its spheres are.
pub proof fn robots_with_a_folder_are_listed(v: Seq<RobotView>, found: Seq<RobotFound>, i: int)
    requires
        v.len() <= found.len(),
        0 <= i < v.len(),
        found[i].folder,
    ensures
        exists|k: int|
            0 <= k < listed_robots(v, found).len() && (#[trigger] listed_robots(v, found)[k]).robot
                == v[i] && listed_robots(v, found)[k].has_spherical == found[i].spherical,
    decreases v.len(),
{
    let f = v.drop_last();
    let front = listed_robots(f, found);
    let all = listed_robots(v, found);
    if i == v.len() - 1 {
        assert(all[front.len() as int].robot == v[i]);
    } else {
        robots_with_a_folder_are_listed(f, found, i);
        let k = choose|k: int|
            0 <= k < front.len() && (#[trigger] front[k]).robot == f[i] && front[k].has_spherical
                == found[i].spherical;
        assert(all[k] == front[k]);
    }
}

/// Only robots whose folder is there are listed.
pub proof fn only_robots_with_a_folder_are_listed(
    v: Seq<RobotView>,
    found: Seq<RobotFound>,
    k: int,
)
    requires
        0 <= k < listed_robots(v, found).len(),
    ensures
        exists|i: int|
            0 <= i < v.len() && i < found.len() && found[i].folder && (#[trigger] v[i])
                == listed_robots(v, found)[k].robot && found[i].spherical == listed_robots(
                v,
                found,
            )[k].has_spherical,
    decreases v.len(),
{
    let f = v.drop_last();
    let front = listed_robots(f, found);
    let n = v.len() - 1;
    if k < front.len() {
        only_robots_with_a_folder_are_listed(f, found, k);
        let i = choose|i: int|
            0 <= i < f.len() && i < found.len() && found[i].folder && (#[trigger] f[i])
                == front[k].robot && found[i].spherical == front[k].has_spherical;
        assert(v[i] == f[i]);
    } else {
        assert(v[n] == v.last());
    }
}

/// What an example does not have is not found; what the server lacks is its own fault.
pub proof fn missing_parts_tell_whose_fault_it_is(m: Missing, name: Seq<char>, file: Seq<char>)
    ensures
        missing_example(m, name, file).status == 500 <==> m is Mesh || m is Centroid || m is Folder,
        missing_example(m, name, file).status == 404 <==> m is Packing || m is Thumbnail
            || m is Spherical,
{
}

/// An example is found under its name and no other.
pub proof fn examples_are_found_by_name(name: Seq<char>)
    ensures
        object_or_404(name) matches Ok(o) ==> o.name == name && examples::objects().contains(o),
        object_or_404(name) matches Err(e) ==> e.status == 404 && forall|i: int|
            0 <= i < examples::objects().len() ==> (#[trigger] examples::objects()[i]).name != name,
        robot_or_404(name) matches Ok(r) ==> r.name == name && examples::robots().contains(r),
        robot_or_404(name) matches Err(e) ==> e.status == 404 && forall|i: int|
            0 <= i < examples::robots().len() ==> (#[trigger] examples::robots()[i]).name != name,
{
    lemma_object_from(examples::objects(), name, 0);
    lemma_robot_from(examples::robots(), name, 0);
}

proof fn lemma_object_from(v: Seq<ObjectView>, name: Seq<char>, i: int)
    requires
        0 <= i <= v.len(),
    ensures
        match examples::object_from(v, name, i) {
            Some(o) => o.name == name && v.contains(o),
            None => forall|k: int| i <= k < v.len() ==> (#[trigger] v[k]).name != name,
        },
    decreases v.len() - i,
{
    if i < v.len() {
        assert(v.contains(v[i]));
        lemma_object_from(v, name, i + 1);
    }
}

proof fn lemma_robot_from(v: Seq<RobotView>, name: Seq<char>, i: int)
    requires
        0 <= i <= v.len(),
    ensures
        match examples::robot_from(v, name, i) {
            Some(r) => r.name == name && v.contains(r),
            None => forall|k: int| i <= k < v.len() ==> (#[trigger] v[k]).name != name,
        },
    decreases v.len() - i,
{
    if i < v.len() {
        assert(v.contains(v[i]));
        lemma_robot_from(v, name, i + 1);
    }
}

} // verus!
