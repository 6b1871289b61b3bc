//! Opening objects and robot packages.

use vstd::prelude::*;

use crate::examples;
use crate::examples::{ExampleObject, ExampleRobot, RobotView};
use crate::inspect;
use crate::inspect::{Action, CollisionItem, InspectionReport, ItemView, ReportView};
use crate::paths;
use crate::text;
use crate::vfs;
use crate::vfs::MemPackage;
use crate::ErrorView;

verus! {

/// The lower-case extension of a file name; empty when there is none.
pub open spec fn extension_of(name: Seq<char>) -> Seq<char> {
    match paths::path_extension(name) {
        Some(e) => text::lowercase_of(e),
        None => Seq::empty(),
    }
}

/// The stem of a file name, or `object`.
pub open spec fn stem(name: Seq<char>) -> Seq<char> {
    match paths::path_stem(name) {
        Some(s) => s,
        None => "object"@,
    }
}

/// The lower-case extension of a file name; empty when there is none.
pub fn ext_of(name: &str) -> (out: String)
    ensures
        out@ == extension_of(name@),
{
    match paths::extension(name) {
        Some(e) => text::to_lowercase(e.as_str()),
        None => String::new(),
    }
}

/// The stem of a file name, or `object`.
pub fn stem_of(name: &str) -> (out: String)
    ensures
        out@ == stem(name@),
{
    match paths::file_stem_of(name) {
        Some(s) => s,
        None => String::from_str("object"),
    }
}

/// What was dropped on the window.
#[derive(Clone, Copy, Debug, PartialEq, Eq, Structural)]
pub enum Dropped {
    /// A folder with a robot package.
    Folder,
    /// An archive of a robot package.
    Archive,
    /// A URDF; its folder is opened.
    Urdf,
    /// A mesh.
    Mesh,
}

/// What a file or folder called `name` is taken for.
pub open spec fn dropped_kind(name: Seq<char>, is_dir: bool) -> Dropped {
    if is_dir {
        Dropped::Folder
    } else if extension_of(name) == "zip"@ {
        Dropped::Archive
    } else if extension_of(name) == "urdf"@ {
        Dropped::Urdf
    } else {
        Dropped::Mesh
    }
}

/// What a file or folder called `name` is taken for.
pub fn open_dropped(name: &str, is_dir: bool) -> (out: Dropped)
    ensures
        out == dropped_kind(name@, is_dir),
{
    if is_dir {
        return Dropped::Folder;
    }
    let ext = ext_of(name);
    if text::same(ext.as_str(), "zip") {
        Dropped::Archive
    } else if text::same(ext.as_str(), "urdf") {
        Dropped::Urdf
    } else {
        Dropped::Mesh
    }
}

/// The URDF that is opened: by its base name when `wanted` is given, else the
/// only one, or the first of several.
pub open spec fn chosen_urdf(urdfs: Seq<Seq<char>>, wanted: Option<Seq<char>>) -> Result<
    Seq<char>,
    Seq<char>,
> {
    match inspect::selected(urdfs, wanted) {
        Ok(u) => Ok(u),
        Err(e) => if urdfs.len() > 0 && wanted is None {
            Ok(urdfs[0])
        } else {
            Err(e.message())
        },
    }
}

/// The URDF that is opened.
fn choose_urdf(pkg: &MemPackage, wanted: Option<&str>) -> (res: Result<String, String>)
    ensures
        match res {
            Ok(u) => chosen_urdf(vfs::urdf_keys(pkg.file_keys()), text::opt_str(wanted)) == Ok::<
                Seq<char>,
                Seq<char>,
            >(u@),
            Err(m) => chosen_urdf(vfs::urdf_keys(pkg.file_keys()), text::opt_str(wanted)) == Err::<
                Seq<char>,
                Seq<char>,
            >(m@),
        },
{
    let urdfs = pkg.urdfs();
    assert(text::texts(urdfs@).len() == urdfs@.len());
    match inspect::select_urdf_in(pkg, wanted) {
        Ok(u) => Ok(u),
        Err(e) => if urdfs.len() > 0 && wanted.is_none() {
            Ok(urdfs[0].clone())
        } else {
            Err(e.message())
        },
    }
}

/// A robot package that was opened.
#[derive(Debug)]
pub struct OpenedRobot {
    pub urdfs: Vec<String>,
    pub urdf: String,
    pub report: InspectionReport,
    /// Per collision: the mesh to load.
    pub meshes: Vec<Option<String>>,
}

/// The mesh to load for an item.
pub open spec fn mesh_to_load(c: ItemView) -> Option<Seq<char>> {
    if c.action is Pack {
        c.mesh_path
    } else {
        None
    }
}

/// The contents of a list of optional texts.
pub open spec fn opt_texts(v: Seq<Option<String>>) -> Seq<Option<Seq<char>>> {
    v.map_values(|o: Option<String>| text::opt_text(o))
}

/// The meshes to load for the items.
pub open spec fn meshes_to_load(items: Seq<ItemView>) -> Seq<Option<Seq<char>>> {
    items.map_values(|c: ItemView| mesh_to_load(c))
}

/// The meshes to load for the items.
pub fn list_meshes(items: &[CollisionItem]) -> (out: Vec<Option<String>>)
    ensures
        opt_texts(out@) == meshes_to_load(inspect::item_views(items@)),
{
    let ghost v = inspect::item_views(items@);
    let mut out: Vec<Option<String>> = Vec::new();
    let mut i: usize = 0;
    while i < items.len()
        invariant
            i <= items@.len(),
            v == inspect::item_views(items@),
            out@.len() == i,
            forall|j: int| 0 <= j < i ==> text::opt_text(#[trigger] out@[j]) == mesh_to_load(v[j]),
        decreases items@.len() - i,
    {
        assert(v[i as int] == items@[i as int]@);
        if items[i].action == Action::Pack {
            out.push(text::copy_opt(&items[i].mesh_path));
        } else {
            out.push(None);
        }
        i = i + 1;
    }
    assert(opt_texts(out@) =~= meshes_to_load(v));
    out
}

/// The message when a robot cannot be opened, if it cannot.
pub open spec fn robot_refusal(urdf: Seq<char>, report: Result<ReportView, ErrorView>) -> Option<Seq<char>> {
    match report {
        Err(e) => Some(e.message()),
        Ok(r) => if r.errors.len() > 0 {
            Some(urdf + ": "@ + r.errors[0])
        } else {
            None
        },
    }
}

/// Whether `res` is what a package is opened as, where `wanted` picks the URDF.
pub open spec fn opens_as(
    pkg: MemPackage,
    wanted: Option<Seq<char>>,
    res: Result<OpenedRobot, String>,
) -> bool {
    match chosen_urdf(vfs::urdf_keys(pkg.file_keys()), wanted) {
        Err(m) => res matches Err(x) && x@ == m,
        Ok(u) => {
            let report = inspect::inspected_in(pkg@, pkg.file_keys(), u);
            match res {
                Err(x) => robot_refusal(u, report) == Some(x@),
                Ok(d) => {
                    &&& robot_refusal(u, report) is None
                    &&& d.urdf@ == u
                    &&& text::texts(d.urdfs@) == vfs::urdf_keys(pkg.file_keys())
                    &&& report == Ok::<ReportView, ErrorView>(d.report@)
                    &&& opt_texts(d.meshes@) == meshes_to_load(d.report@.collisions)
                },
            }
        },
    }
}

/// Inspect a package and list the meshes to load. `wanted` picks the URDF by
/// base name (otherwise the only one, or the first of several).
pub fn robot_doc(pkg: &MemPackage, wanted: Option<&str>) -> (res: Result<OpenedRobot, String>)
    ensures
        opens_as(*pkg, text::opt_str(wanted), res),
        pkg.listed(),
{
    let urdfs = pkg.urdfs();
    let chosen = match choose_urdf(pkg, wanted) {
        Ok(u) => u,
        Err(m) => return Err(m),
    };
    let report = match inspect::inspect_urdf_in(pkg, chosen.as_str()) {
        Ok(r) => r,
        Err(e) => return Err(e.message()),
    };
    assert(text::texts(report.errors@).len() == report.errors@.len());
    if report.errors.len() > 0 {
        let mut m = chosen.clone();
        m.append(": ");
        m.append(report.errors[0].as_str());
        return Err(m);
    }
    let meshes = list_meshes(&report.collisions);
    Ok(OpenedRobot { urdfs, urdf: chosen, report, meshes })
}

/// An open package with its name.
pub struct Package {
    pub name: String,
    pub pkg: MemPackage,
    pub robot: OpenedRobot,
}

/// Whether the package with the files `files` is refused with the message `m`: `pkg`
/// lists exactly these files, each once and in order.
pub open spec fn refuses(
    pkg: MemPackage,
    files: Map<Seq<char>, Seq<u8>>,
    wanted: Option<Seq<char>>,
    m: String,
) -> bool {
    pkg@ == files && pkg.listed() && opens_as(pkg, wanted, Err(m))
}

/// Whether `res` is what the package with the files `files` is opened as.
pub open spec fn package_opens(
    files: Map<Seq<char>, Seq<u8>>,
    name: Seq<char>,
    wanted: Option<Seq<char>>,
    res: Result<Package, String>,
) -> bool {
    match res {
        Ok(p) => p.pkg@ == files && p.pkg.listed() && p.name@ == name && opens_as(
            p.pkg,
            wanted,
            Ok(p.robot),
        ),
        Err(m) => exists|pkg: MemPackage| refuses(pkg, files, wanted, m),
    }
}

/// What a package is opened as depends on its files alone: two packages that list
/// the same files open as the same, and are refused with the same message.
pub proof fn files_decide_how_a_package_opens(
    a: MemPackage,
    b: MemPackage,
    wanted: Option<Seq<char>>,
    res: Result<OpenedRobot, String>,
)
    requires
        a@ == b@,
        a.listed(),
        b.listed(),
    ensures
        opens_as(a, wanted, res) == opens_as(b, wanted, res),
{
    vfs::files_decide_their_listing(
        a@,
        a.file_keys(),
        a.contents(),
        b.file_keys(),
        b.contents(),
    );
}

/// A package that opens is not refused, whichever way its files came: it is opened with
/// the same URDF and the same report.
pub proof fn packages_that_open_are_not_refused(
    pkg: MemPackage,
    name: Seq<char>,
    wanted: Option<Seq<char>>,
    robot: OpenedRobot,
    res: Result<Package, String>,
)
    requires
        pkg.listed(),
        opens_as(pkg, wanted, Ok(robot)),
        package_opens(pkg@, name, wanted, res),
    ensures
        res matches Ok(p) && p.robot.urdf@ == robot.urdf@ && p.robot.report@ == robot.report@,
{
    match res {
        Ok(p) => {
            files_decide_how_a_package_opens(pkg, p.pkg, wanted, Ok(p.robot));
        },
        Err(m) => {
            let other = choose|other: MemPackage| refuses(other, pkg@, wanted, m);
            files_decide_how_a_package_opens(pkg, other, wanted, Err(m));
        },
    }
}

/// Open a package under a name.
fn open_package(pkg: MemPackage, name: String, wanted: Option<&str>) -> (res: Result<
    Package,
    String,
>)
    ensures
        package_opens(pkg@, name@, text::opt_str(wanted), res),
{
    match robot_doc(&pkg, wanted) {
        Ok(robot) => Ok(Package { name, pkg, robot }),
        Err(m) => {
            let out: Result<Package, String> = Err(m);
            assert(out matches Err(x) && refuses(pkg, pkg@, text::opt_str(wanted), x));
            out
        },
    }
}

/// The package in a `.zip` archive's bytes.
pub fn robot_from_zip(name: &str, bytes: &[u8]) -> (res: Result<Package, String>)
    ensures
        match vfs::unzipped(bytes@) {
            Ok(files) => package_opens(files, stem(name@), None, res),
            Err(e) => res matches Err(m) && m@ == name@ + ": "@ + e.message(),
        },
{
    match MemPackage::from_zip(bytes) {
        Ok(pkg) => open_package(pkg, stem_of(name), None),
        Err(e) => {
            let mut m = String::from_str(name);
            m.append(": ");
            m.append(e.message().as_str());
            Err(m)
        },
    }
}

/// Where the first file stands that could not be read, at or after `i`.
pub open spec fn first_unread(files: Seq<(String, Result<Vec<u8>, String>)>, i: int) -> int
    decreases files.len() - i,
{
    if 0 <= i < files.len() && files[i].1 is Ok {
        first_unread(files, i + 1)
    } else {
        i
    }
}

/// The first `n` files, which were read.
pub open spec fn read_files(files: Seq<(String, Result<Vec<u8>, String>)>, n: int) -> Seq<
    (Seq<char>, Seq<u8>),
> {
    Seq::new(n as nat, |i: int| (files[i].0@, files[i].1->Ok_0@))
}

/// The bundled robot `ex`, with what was read of its files in turn; `None`
/// where it is not bundled.
pub fn load_robot_example(
    ex: &ExampleRobot,
    files: Option<Vec<(String, Result<Vec<u8>, String>)>>,
) -> (res: Result<Package, String>)
    ensures
        match files {
            None => res matches Err(m) && m@ == ex.folder@ + ": not bundled"@,
            Some(files) => {
                let n = first_unread(files@, 0);
                match vfs::with_files(read_files(files@, n)) {
                    Err(e) => res matches Err(m) && m@ == e.message(),
                    Ok(all) => if n < files@.len() {
                        res matches Err(m) && m@ == files@[n].1->Err_0@
                    } else {
                        package_opens(all, ex.label@, Some(ex.urdf@), res)
                    },
                }
            },
        },
{
    let files = match files {
        Some(files) => files,
        None => {
            let mut m = String::from_str(ex.folder);
            m.append(": not bundled");
            return Err(m);
        },
    };
    let mut read: Vec<(String, Vec<u8>)> = Vec::new();
    let mut failure: Option<String> = None;
    let mut i: usize = 0;
    while i < files.len() && failure.is_none()
        invariant
            i <= files@.len(),
            first_unread(files@, 0) == first_unread(files@, i as int),
            read@.len() == i,
            forall|j: int|
                0 <= j < i ==> (#[trigger] read@[j]).0@ == files@[j].0@ && files@[j].1 is Ok
                    && read@[j].1@ == files@[j].1->Ok_0@,
            failure is Some ==> i < files@.len() && files@[i as int].1 is Err && failure->0@
                == files@[i as int].1->Err_0@,
        decreases files@.len() - i + (if failure is None { 1int } else { 0int }),
    {
        match &files[i].1 {
            Ok(data) => {
                read.push((files[i].0.clone(), text::copy_bytes(data)));
                i = i + 1;
            },
            Err(m) => {
                failure = Some(m.clone());
            },
        }
    }
    proof {
        assert(first_unread(files@, 0) == i);
        assert(read@.map_values(|f: (String, Vec<u8>)| (f.0@, f.1@)) =~= read_files(files@, i as int));
    }
    match MemPackage::from_files(read) {
        Err(e) => Err(e.message()),
        Ok(pkg) => match failure {
            Some(m) => Err(m),
            None => open_package(pkg, String::from_str(ex.label), Some(ex.urdf)),
        },
    }
}

/// Why the mesh at `i` could not be loaded, if it could not.
pub open spec fn failure_at(failures: Seq<Option<String>>, i: int) -> Option<Seq<char>> {
    if 0 <= i < failures.len() {
        text::opt_text(failures[i])
    } else {
        None
    }
}

/// The problems with the meshes of the first `n` items.
pub open spec fn mesh_problems(items: Seq<ItemView>, failures: Seq<Option<String>>, n: int) -> Seq<
    Seq<char>,
>
    decreases n,
{
    if n <= 0 {
        Seq::empty()
    } else {
        let front = mesh_problems(items, failures, n - 1);
        let c = items[n - 1];
        match failure_at(failures, n - 1) {
            Some(m) if mesh_to_load(c) is Some => front.push(
                c.link_name + "["@ + text::decimal(c.collision_index as nat) + "]: "@ + m,
            ),
            _ => front,
        }
    }
}

/// Which items' meshes were loaded, and the problems with the others, where
/// `failures` tells for each item why its mesh could not be loaded.
pub fn loaded_meshes(items: &[CollisionItem], failures: &[Option<String>]) -> (out: (
    Vec<bool>,
    Vec<String>,
))
    ensures
        out.0@.len() == items@.len(),
        forall|i: int|
            0 <= i < items@.len() ==> #[trigger] out.0@[i] == (mesh_to_load(items@[i]@) is Some
                && failure_at(failures@, i) is None),
        text::texts(out.1@) == mesh_problems(
            inspect::item_views(items@),
            failures@,
            items@.len() as int,
        ),
{
    let ghost v = inspect::item_views(items@);
    let mut loaded: Vec<bool> = Vec::new();
    let mut problems: Vec<String> = Vec::new();
    let mut i: usize = 0;
    assert(text::texts(problems@) =~= mesh_problems(v, failures@, 0));
    while i < items.len()
        invariant
            i <= items@.len(),
            v == inspect::item_views(items@),
            loaded@.len() == i,
            forall|j: int|
                0 <= j < i ==> #[trigger] loaded@[j] == (mesh_to_load(items@[j]@) is Some
                    && failure_at(failures@, j) is None),
            text::texts(problems@) == mesh_problems(v, failures@, i as int),
        decreases items@.len() - i,
    {
        let c = &items[i];
        assert(v[i as int] == c@);
        let wanted = c.action == Action::Pack && c.mesh_path.is_some();
        let failure = if i < failures.len() {
            text::copy_opt(&failures[i])
        } else {
            None
        };
        loaded.push(wanted && failure.is_none());
        match failure {
            Some(why) => if wanted {
                let ghost seen = text::texts(problems@);
                let mut m = c.link_name.clone();
                m.append("[");
                text::push_decimal(&mut m, c.collision_index);
                m.append("]: ");
                m.append(why.as_str());
                let ghost line = m@;
                problems.push(m);
                assert(text::texts(problems@) =~= seen.push(line));
            },
            None => {},
        }
        i = i + 1;
    }
    (loaded, problems)
}

/// The options of the studio's command line.
#[derive(Debug)]
pub struct Options {
    /// `--example NAME`.
    pub example: Option<String>,
    /// `--open PATH`.
    pub open: Option<String>,
    /// `--pack`.
    pub pack: bool,
    /// Arguments that are none of these.
    pub unknown: Vec<String>,
}

/// The contents of an [`Options`].
#[verifier::ext_equal]
pub struct OptionsView {
    pub example: Option<Seq<char>>,
    pub open: Option<Seq<char>>,
    pub pack: bool,
    pub unknown: Seq<Seq<char>>,
}

impl View for Options {
    type V = OptionsView;

    open spec fn view(&self) -> OptionsView {
        OptionsView {
            example: text::opt_text(self.example),
            open: text::opt_text(self.open),
            pack: self.pack,
            unknown: text::texts(self.unknown@),
        }
    }
}

/// The options after the arguments from position `i` on; the last value of an
/// option counts, and an option without a value has none.
pub open spec fn options_from(args: Seq<Seq<char>>, i: int, o: OptionsView) -> OptionsView
    decreases args.len() + 1 - i,
{
    if i < 0 || i >= args.len() {
        o
    } else {
        let next = if i + 1 < args.len() {
            Some(args[i + 1])
        } else {
            None
        };
        if args[i] == "--example"@ {
            options_from(args, i + 2, OptionsView { example: next, ..o })
        } else if args[i] == "--open"@ {
            options_from(args, i + 2, OptionsView { open: next, ..o })
        } else if args[i] == "--pack"@ {
            options_from(args, i + 1, OptionsView { pack: true, ..o })
        } else {
            options_from(args, i + 1, OptionsView { unknown: o.unknown.push(args[i]), ..o })
        }
    }
}

/// No options.
pub open spec fn no_options() -> OptionsView {
    OptionsView { example: None, open: None, pack: false, unknown: Seq::empty() }
}

/// The options of the studio's command line.
pub fn options(args: &[String]) -> (out: Options)
    ensures
        out@ == options_from(text::texts(args@), 0, no_options()),
{
    let ghost t = text::texts(args@);
    let mut o = Options { example: None, open: None, pack: false, unknown: Vec::new() };
    let mut i: usize = 0;
    let n: usize = args.len();
    assert(o@ =~= no_options());
    while i < n
        invariant
            i <= n + 1,
            n == args@.len(),
            t == text::texts(args@),
            options_from(t, 0, no_options()) == options_from(t, i as int, o@),
        decreases n - i,
    {
        let a = args[i].as_str();
        assert(t[i as int] == args@[i as int]@);
        if text::same(a, "--example") {
            let next = if i + 1 < n {
                assert(t[i + 1] == args@[i + 1]@);
                Some(args[i + 1].clone())
            } else {
                None
            };
            o.example = next;
            if i + 1 < n {
                i = i + 2;
            } else {
                assert(options_from(t, i + 2, o@) == options_from(t, i + 1, o@));
                i = i + 1;
            }
        } else if text::same(a, "--open") {
            let next = if i + 1 < n {
                assert(t[i + 1] == args@[i + 1]@);
                Some(args[i + 1].clone())
            } else {
                None
            };
            o.open = next;
            if i + 1 < n {
                i = i + 2;
            } else {
                assert(options_from(t, i + 2, o@) == options_from(t, i + 1, o@));
                i = i + 1;
            }
        } else if text::same(a, "--pack") {
            o.pack = true;
            i = i + 1;
        } else {
            let ghost before = o@;
            o.unknown.push(args[i].clone());
            assert(o@ =~= OptionsView { unknown: before.unknown.push(t[i as int]), ..before });
            i = i + 1;
        }
    }
    o
}

/// The options after the first `n` pieces of a page's query.
pub open spec fn query_from(pieces: Seq<Seq<char>>, n: int) -> OptionsView
    decreases n,
{
    if n <= 0 {
        no_options()
    } else {
        let o = query_from(pieces, n - 1);
        match text::split_at_char(pieces[n - 1], '=') {
            Some((key, value)) => if key == "example"@ {
                OptionsView { example: Some(value), ..o }
            } else {
                o
            },
            None => if pieces[n - 1] == "pack"@ {
                OptionsView { pack: true, ..o }
            } else {
                o
            },
        }
    }
}

/// The options in a page's query.
pub open spec fn query(search: Seq<char>) -> OptionsView {
    let pieces = text::split(search.skip(text::after_char(search, '?', 0)), '&');
    query_from(pieces, pieces.len() as int)
}

/// The options in a page's query: `?example=NAME&pack`.
pub fn query_options(search: &str) -> (out: Options)
    ensures
        out@ == query(search@),
{
    let cs = text::to_chars(search);
    let at: usize = text::skip_char(&cs, '?', 0);
    let rest = text::from_range(&cs, at, cs.len());
    assert(rest@ =~= search@.skip(at as int));
    let rest_chars = text::to_chars(rest.as_str());
    let pieces = text::split_char(&rest_chars, '&');
    let ghost v = text::texts(pieces@);
    let mut o = Options { example: None, open: None, pack: false, unknown: Vec::new() };
    let mut n: usize = 0;
    assert(o@ =~= no_options());
    while n < pieces.len()
        invariant
            n <= pieces@.len(),
            v == text::texts(pieces@),
            o@ == query_from(v, n as int),
        decreases pieces@.len() - n,
    {
        let p = pieces[n].as_str();
        assert(v[n as int] == p@);
        match text::split_once(p, '=') {
            Some((key, value)) => {
                if text::same(key.as_str(), "example") {
                    o.example = Some(value);
                }
            },
            None => {
                if text::same(p, "pack") {
                    o.pack = true;
                }
            },
        }
        n = n + 1;
        assert(o@ =~= query_from(v, n as int));
    }
    o
}

/// What the studio opens for an example's name.
#[derive(Clone, Copy, Debug)]
pub enum Startup {
    Object(ExampleObject),
    /// A robot, which also switches the mode.
    Robot(ExampleRobot),
    Unknown,
}

/// The first `n` of the robots whose folders are bundled.
pub open spec fn bundled_robots(bundled: Seq<Seq<char>>, n: int) -> Seq<RobotView>
    decreases n,
{
    if n <= 0 {
        Seq::empty()
    } else {
        let front = bundled_robots(bundled, n - 1);
        let r = examples::robots()[n - 1];
        if bundled.contains(r.folder) {
            front.push(r)
        } else {
            front
        }
    }
}

/// The robots whose folders are bundled.
pub fn example_robots(bundled: &[String]) -> (out: Vec<ExampleRobot>)
    ensures
        examples::robot_views(out@) == bundled_robots(
            text::texts(bundled@),
            examples::robots().len() as int,
        ),
{
    let all = examples::example_robots();
    let ghost v = examples::robot_views(all@);
    let ghost names = text::texts(bundled@);
    let mut out: Vec<ExampleRobot> = Vec::new();
    let mut i: usize = 0;
    assert(examples::robot_views(out@) =~= bundled_robots(names, 0));
    while i < all.len()
        invariant
            i <= all@.len(),
            v == examples::robot_views(all@),
            v == examples::robots(),
            names == text::texts(bundled@),
            examples::robot_views(out@) == bundled_robots(names, i as int),
        decreases all@.len() - i,
    {
        let ghost seen = examples::robot_views(out@);
        assert(v[i as int] == all@[i as int]@);
        if paths::position(bundled, all[i].folder).is_some() {
            out.push(all[i]);
            assert(examples::robot_views(out@) =~= seen.push(v[i as int]));
        }
        i = i + 1;
    }
    out
}

/// Whether `out` is the example that `name` means: an object, else a robot
/// whose folder is bundled.
pub open spec fn starts_with(name: Seq<char>, bundled: Seq<Seq<char>>, out: Startup) -> bool {
    let object = examples::object_from(examples::objects(), name, 0);
    let robot = examples::robot_from(
        bundled_robots(bundled, examples::robots().len() as int),
        name,
        0,
    );
    match out {
        Startup::Object(o) => object == Some(o@),
        Startup::Robot(r) => object is None && robot == Some(r@),
        Startup::Unknown => object is None && robot is None,
    }
}

/// What the studio opens for an example's name: an object before a robot.
pub fn startup_example(name: &str, bundled: &[String]) -> (out: Startup)
    ensures
        starts_with(name@, text::texts(bundled@), out),
{
    match examples::object_named(name) {
        Some(o) => Startup::Object(o),
        None => match examples::find_robot(&example_robots(bundled), name) {
            Some(r) => Startup::Robot(r),
            None => Startup::Unknown,
        },
    }
}

/// A folder is taken for a folder, and a file for what its extension says.
pub proof fn drops_are_told_by_their_extension(name: Seq<char>)
    ensures
        dropped_kind(name, true) is Folder,
        dropped_kind(name, false) is Archive <==> extension_of(name) == seq!['z', 'i', 'p'],
        dropped_kind(name, false) is Urdf <==> extension_of(name) == seq!['u', 'r', 'd', 'f'],
        !(dropped_kind(name, false) is Folder),
{
    reveal_strlit("zip");
    reveal_strlit("urdf");
    assert("zip"@ =~= seq!['z', 'i', 'p']);
    assert("urdf"@ =~= seq!['u', 'r', 'd', 'f']);
    assert("zip"@.len() == 3 && "urdf"@.len() == 4);
}

/// Every mesh of a collision that is packed and could not be loaded is a problem, named by
/// its link and the place of the collision.
pub proof fn meshes_that_fail_are_problems(
    items: Seq<ItemView>,
    failures: Seq<Option<String>>,
    n: int,
    i: int,
)
    requires
        0 <= i < n <= items.len(),
        i < failures.len(),
        items[i].action is Pack,
        items[i].mesh_path is Some,
        failures[i] is Some,
    ensures
        mesh_problems(items, failures, n).contains(
            items[i].link_name + "["@ + text::decimal(items[i].collision_index as nat) + "]: "@
                + failures[i]->0@,
        ),
    decreases n,
{
    let m = items[i].link_name + "["@ + text::decimal(items[i].collision_index as nat) + "]: "@
        + failures[i]->0@;
    let front = mesh_problems(items, failures, n - 1);
    let all = mesh_problems(items, failures, n);
    if i == n - 1 {
        assert(all[front.len() as int] == m);
    } else {
        meshes_that_fail_are_problems(items, failures, n - 1, i);
        let k = choose|k: int| 0 <= k < front.len() && front[k] == m;
        assert(all[k] == m);
    }
}

/// Where every mesh was loaded there are no problems.
pub proof fn loaded_meshes_are_no_problem(
    items: Seq<ItemView>,
    failures: Seq<Option<String>>,
    n: int,
)
    requires
        0 <= n <= items.len(),
        forall|i: int| 0 <= i < failures.len() ==> #[trigger] failures[i] is None,
    ensures
        mesh_problems(items, failures, n).len() == 0,
    decreases n,
{
    if n > 0 {
        loaded_meshes_are_no_problem(items, failures, n - 1);
    }
}

/// Of several URDFs the first one is opened, unless one is asked for.
pub proof fn the_first_urdf_is_opened(urdfs: Seq<Seq<char>>)
    ensures
        urdfs.len() == 1 ==> chosen_urdf(urdfs, None) == Ok::<Seq<char>, Seq<char>>(urdfs[0]),
        urdfs.len() > 1 ==> chosen_urdf(urdfs, None) == Ok::<Seq<char>, Seq<char>>(urdfs[0]),
        urdfs.len() == 0 ==> chosen_urdf(urdfs, None) is Err,
{
}

proof fn lemma_options_shift(a: Seq<Seq<char>>, rest: Seq<Seq<char>>, i: int, o: OptionsView)
    requires
        0 <= i,
    ensures
        options_from(a + rest, a.len() + i, o) == options_from(rest, i, o),
    decreases rest.len() + 1 - i,
{
    let all = a + rest;
    if i < rest.len() {
        assert(all[a.len() + i] == rest[i]);
        if i + 1 < rest.len() {
            assert(all[a.len() + i + 1] == rest[i + 1]);
        }
        let next = if i + 1 < rest.len() {
            Some(rest[i + 1])
        } else {
            None
        };
        lemma_options_shift(a, rest, i + 1, OptionsView { pack: true, ..o });
        lemma_options_shift(a, rest, i + 1, OptionsView { unknown: o.unknown.push(rest[i]), ..o });
        lemma_options_shift(a, rest, i + 2, OptionsView { example: next, ..o });
        lemma_options_shift(a, rest, i + 2, OptionsView { open: next, ..o });
    }
}

/// The arguments are read one after the other: an option takes the argument behind it for
/// its value, and what is no option is unknown.
pub proof fn arguments_are_read_in_order(v: Seq<char>, rest: Seq<Seq<char>>, o: OptionsView)
    ensures
        options_from(seq!["--example"@, v] + rest, 0, o) == options_from(
            rest,
            0,
            OptionsView { example: Some(v), ..o },
        ),
        options_from(seq!["--open"@, v] + rest, 0, o) == options_from(
            rest,
            0,
            OptionsView { open: Some(v), ..o },
        ),
        options_from(seq!["--pack"@] + rest, 0, o) == options_from(
            rest,
            0,
            OptionsView { pack: true, ..o },
        ),
        v != "--example"@ && v != "--open"@ && v != "--pack"@ ==> options_from(
            seq![v] + rest,
            0,
            o,
        ) == options_from(rest, 0, OptionsView { unknown: o.unknown.push(v), ..o }),
        options_from(Seq::<Seq<char>>::empty(), 0, o) == o,
{
    reveal_strlit("--example");
    reveal_strlit("--open");
    reveal_strlit("--pack");
    assert("--example"@[2] == 'e' && "--open"@[2] == 'o' && "--pack"@[2] == 'p');
    let a = seq!["--example"@, v];
    let b = seq!["--open"@, v];
    let c = seq!["--pack"@];
    let d = seq![v];
    assert((a + rest)[0] == "--example"@ && (a + rest)[1] == v);
    assert((b + rest)[0] == "--open"@ && (b + rest)[1] == v);
    assert((c + rest)[0] == "--pack"@);
    assert((d + rest)[0] == v);
    lemma_options_shift(a, rest, 0, OptionsView { example: Some(v), ..o });
    lemma_options_shift(b, rest, 0, OptionsView { open: Some(v), ..o });
    lemma_options_shift(c, rest, 0, OptionsView { pack: true, ..o });
    lemma_options_shift(d, rest, 0, OptionsView { unknown: o.unknown.push(v), ..o });
}

/// A page's query names an example, and asks for packing; the last example counts, and
/// everything else in it is ignored.
pub proof fn queries_are_read_piece_by_piece(pieces: Seq<Seq<char>>, p: Seq<char>, v: Seq<char>)
    ensures
        ({
            let n = pieces.len() as int;
            let before = query_from(pieces, n);
            let after = query_from(pieces.push(p), n + 1);
            &&& p == "example="@ + v ==> after == (OptionsView { example: Some(v), ..before })
            &&& p == "pack"@ ==> after == (OptionsView { pack: true, ..before })
            &&& p != "pack"@ && !text::begins(p, "example="@) ==> after == before
        }),
{
    let n = pieces.len() as int;
    lemma_query_front(pieces, p, n);
    reveal_strlit("example=");
    reveal_strlit("example");
    reveal_strlit("pack");
    text::lemma_first_char(p, '=', 0);
    assert(pieces.push(p)[n] == p);
    if p == "example="@ + v {
        let i = text::first_char(p, '=', 0);
        assert(p[7] == '=');
        assert(i == Some(7int));
        assert(p.take(7) =~= "example"@);
        assert(p.skip(8) =~= v);
        assert(p.subrange(0, 8) =~= "example="@);
        assert(text::split_at_char(p, '=') == Some(("example"@, v)));
    } else if p == "pack"@ {
        if let Some(i) = text::first_char(p, '=', 0) {
            assert(i == 0 || i == 1 || i == 2 || i == 3);
            assert("pack"@[i] == '=');
        }
    } else if !text::begins(p, "example="@) {
        if let Some(i) = text::first_char(p, '=', 0) {
            if p.take(i) == "example"@ {
                assert(p.take(i).len() == i);
                assert("example"@.len() == 7);
                assert forall|k: int| 0 <= k < 8 implies p[k] == "example="@[k] by {
                    if k < 7 {
                        assert(p.take(i)[k] == p[k]);
                    }
                }
                assert("example="@.len() == 8);
                assert(p.subrange(0, 8) =~= "example="@);
                assert(text::begins(p, "example="@));
            }
        }
    }
}

proof fn lemma_query_front(pieces: Seq<Seq<char>>, p: Seq<char>, n: int)
    requires
        0 <= n <= pieces.len(),
    ensures
        query_from(pieces.push(p), n) == query_from(pieces, n),
    decreases n,
{
    if n > 0 {
        lemma_query_front(pieces, p, n - 1);
        assert(pieces.push(p)[n - 1] == pieces[n - 1]);
    }
}

/// A robot is offered where its folder is bundled, and only there.
pub proof fn bundled_robots_are_offered(bundled: Seq<Seq<char>>, n: int, r: RobotView)
    requires
        0 <= n <= examples::robots().len(),
    ensures
        bundled_robots(bundled, n).contains(r) <==> examples::robots().take(n).contains(r)
            && bundled.contains(r.folder),
    decreases n,
{
    let all = examples::robots();
    if n > 0 {
        bundled_robots_are_offered(bundled, n - 1, r);
        let front = bundled_robots(bundled, n - 1);
        let got = bundled_robots(bundled, n);
        let last = all[n - 1];
        let t = all.take(n);
        let u = all.take(n - 1);
        assert(t =~= u.push(last));
        assert(t.contains(r) <==> u.contains(r) || r == last) by {
            if t.contains(r) && r != last {
                let i = choose|i: int| 0 <= i < t.len() && t[i] == r;
                assert(u[i] == r);
            }
            if u.contains(r) {
                let i = choose|i: int| 0 <= i < u.len() && u[i] == r;
                assert(t[i] == r);
            }
            assert(t[n - 1] == last);
        }
        if got.contains(r) && r != last {
            let i = choose|i: int| 0 <= i < got.len() && got[i] == r;
            assert(front[i] == r);
        }
        if front.contains(r) {
            let i = choose|i: int| 0 <= i < front.len() && front[i] == r;
            assert(got[i] == r);
        }
        if bundled.contains(last.folder) {
            assert(got[front.len() as int] == last);
        }
    }
}

} // verus!
