//! Stage 1 of the robot pipeline: find the URDF in a robot package and
//! classify every `<collision>` element. Pure metadata; no mesh is loaded.
//!
//! Element lookups follow ElementTree: tags match without a namespace, links
//! are all `<link>` descendants of the root, visuals and collisions are
//! direct children of their link.

use vstd::prelude::*;

use crate::numeral;
use crate::numeral::{Triple, TripleView};
use crate::paths;
use crate::text;
use crate::vfs;
use crate::vfs::MemPackage;
use crate::xml;
use crate::xml::{NodeView, XmlNode};
use crate::{py_list, py_repr, Error, ErrorView};

verus! {

/// What the pipeline does with one `<collision>`.
#[derive(Clone, Copy, Debug, PartialEq, Eq, Structural)]
pub enum Action {
    /// A mesh that will be sphere-packed.
    Pack,
    /// A box, cylinder or capsule that is stripped.
    RemovePrimitive,
    /// An existing sphere that is stripped.
    RemoveAlreadySphere,
    /// Mesh not found, unsupported or malformed.
    Error,
}

/// One `<collision>` element. Numbers are kept as the URDF writes them.
#[derive(Debug)]
pub struct CollisionItem {
    pub link_name: String,
    /// Index among the `<collision>` children of its link.
    pub collision_index: usize,
    /// `mesh`, `box`, `sphere`, `cylinder`, `capsule` or `unknown`.
    pub geometry_type: String,
    pub action: Action,
    /// Resolved mesh path.
    pub mesh_path: Option<String>,
    /// The raw `filename` attribute.
    pub mesh_filename: Option<String>,
    pub mesh_scale: Triple,
    pub origin_xyz: Triple,
    pub origin_rpy: Triple,
    pub warning: Option<String>,
}

/// The contents of a [`CollisionItem`].
pub struct ItemView {
    pub link_name: Seq<char>,
    pub collision_index: int,
    pub geometry_type: Seq<char>,
    pub action: Action,
    pub mesh_path: Option<Seq<char>>,
    pub mesh_filename: Option<Seq<char>>,
    pub mesh_scale: TripleView,
    pub origin_xyz: TripleView,
    pub origin_rpy: TripleView,
    pub warning: Option<Seq<char>>,
}

impl View for CollisionItem {
    type V = ItemView;

    open spec fn view(&self) -> ItemView {
        ItemView {
            link_name: self.link_name@,
            collision_index: self.collision_index as int,
            geometry_type: self.geometry_type@,
            action: self.action,
            mesh_path: text::opt_text(self.mesh_path),
            mesh_filename: text::opt_text(self.mesh_filename),
            mesh_scale: self.mesh_scale@,
            origin_xyz: self.origin_xyz@,
            origin_rpy: self.origin_rpy@,
            warning: text::opt_text(self.warning),
        }
    }
}

impl Clone for CollisionItem {
    fn clone(&self) -> (out: Self)
        ensures
            out@ == self@,
    {
        CollisionItem {
            link_name: self.link_name.clone(),
            collision_index: self.collision_index,
            geometry_type: self.geometry_type.clone(),
            action: self.action,
            mesh_path: text::copy_opt(&self.mesh_path),
            mesh_filename: text::copy_opt(&self.mesh_filename),
            mesh_scale: self.mesh_scale.clone(),
            origin_xyz: self.origin_xyz.clone(),
            origin_rpy: self.origin_rpy.clone(),
            warning: text::copy_opt(&self.warning),
        }
    }
}

/// The contents of a list of items.
pub open spec fn item_views(v: Seq<CollisionItem>) -> Seq<ItemView> {
    v.map_values(|c: CollisionItem| c@)
}

/// Everything the packing stage needs.
#[derive(Debug)]
pub struct InspectionReport {
    pub robot_dir: String,
    pub urdf_path: String,
    pub urdfs_in_folder: Vec<String>,
    pub collisions: Vec<CollisionItem>,
    pub visual_count: usize,
    pub warnings: Vec<String>,
    pub errors: Vec<String>,
}

/// The contents of an [`InspectionReport`].
#[verifier::ext_equal]
pub struct ReportView {
    pub robot_dir: Seq<char>,
    pub urdf_path: Seq<char>,
    pub urdfs_in_folder: Seq<Seq<char>>,
    pub collisions: Seq<ItemView>,
    pub visual_count: nat,
    pub warnings: Seq<Seq<char>>,
    pub errors: Seq<Seq<char>>,
}

impl View for InspectionReport {
    type V = ReportView;

    open spec fn view(&self) -> ReportView {
        ReportView {
            robot_dir: self.robot_dir@,
            urdf_path: self.urdf_path@,
            urdfs_in_folder: text::texts(self.urdfs_in_folder@),
            collisions: item_views(self.collisions@),
            visual_count: self.visual_count as nat,
            warnings: text::texts(self.warnings@),
            errors: text::texts(self.errors@),
        }
    }
}

/// A copy of the items.
fn copy_items(v: &[CollisionItem]) -> (out: Vec<CollisionItem>)
    ensures
        item_views(out@) == item_views(v@),
{
    let mut out: Vec<CollisionItem> = Vec::new();
    let mut i: usize = 0;
    while i < v.len()
        invariant
            i <= v@.len(),
            out@.len() == i,
            forall|j: int| 0 <= j < i ==> (#[trigger] out@[j])@ == v@[j]@,
        decreases v@.len() - i,
    {
        out.push(v[i].clone());
        i = i + 1;
    }
    assert(item_views(out@) =~= item_views(v@));
    out
}

impl Clone for InspectionReport {
    fn clone(&self) -> (out: Self)
        ensures
            out@ == self@,
    {
        InspectionReport {
            robot_dir: self.robot_dir.clone(),
            urdf_path: self.urdf_path.clone(),
            urdfs_in_folder: text::copy_texts(&self.urdfs_in_folder),
            collisions: copy_items(&self.collisions),
            visual_count: self.visual_count,
            warnings: text::copy_texts(&self.warnings),
            errors: text::copy_texts(&self.errors),
        }
    }
}

/// The items that get packed.
pub open spec fn packed_items(items: Seq<ItemView>) -> Seq<ItemView> {
    items.filter(|c: ItemView| c.action is Pack)
}

impl InspectionReport {
    /// A report on the URDF at `urdf_path`, with nothing found yet.
    pub fn empty(robot_dir: String, urdf_path: String, urdfs_in_folder: Vec<String>) -> (out: Self)
        ensures
            out@ == (ReportView {
                robot_dir: robot_dir@,
                urdf_path: urdf_path@,
                urdfs_in_folder: text::texts(urdfs_in_folder@),
                collisions: Seq::empty(),
                visual_count: 0,
                warnings: Seq::empty(),
                errors: Seq::empty(),
            }),
    {
        let out = InspectionReport {
            robot_dir,
            urdf_path,
            urdfs_in_folder,
            collisions: Vec::new(),
            visual_count: 0,
            warnings: Vec::new(),
            errors: Vec::new(),
        };
        assert(out@.collisions =~= Seq::<ItemView>::empty());
        assert(out@.warnings =~= Seq::<Seq<char>>::empty());
        assert(out@.errors =~= Seq::<Seq<char>>::empty());
        out
    }

    /// The items that get packed.
    pub fn to_pack(&self) -> (out: Vec<CollisionItem>)
        ensures
            item_views(out@) == packed_items(self@.collisions),
    {
        let ghost all = item_views(self.collisions@);
        let ghost keep = |c: ItemView| c.action is Pack;
        let mut out: Vec<CollisionItem> = Vec::new();
        let mut i: usize = 0;
        proof {
            reveal(Seq::filter);
            assert(item_views(out@) =~= all.take(0).filter(keep));
        }
        while i < self.collisions.len()
            invariant
                i <= self.collisions@.len(),
                all == item_views(self.collisions@),
                keep == (|c: ItemView| c.action is Pack),
                item_views(out@) == all.take(i as int).filter(keep),
            decreases self.collisions@.len() - i,
        {
            proof {
                assert(all.take(i + 1) =~= all.take(i as int).push(all[i as int]));
                all.take(i as int).lemma_filter_push(all[i as int], keep);
            }
            if self.collisions[i].action == Action::Pack {
                let ghost seen = item_views(out@);
                out.push(self.collisions[i].clone());
                assert(item_views(out@) =~= seen.push(all[i as int]));
            }
            i = i + 1;
        }
        assert(all.take(i as int) =~= all);
        out
    }
}

/// The URDF files among `files`.
pub open spec fn urdf_files(files: Seq<Seq<char>>) -> Seq<Seq<char>> {
    files.filter(|p: Seq<char>| paths::path_extension(p) == Some("urdf"@))
}

/// Every `.urdf` file among the files of a directory.
pub fn find_urdfs(files: &[String]) -> (out: Vec<String>)
    ensures
        text::texts(out@) == urdf_files(text::texts(files@)),
{
    let ghost t = text::texts(files@);
    let ghost keep = |p: Seq<char>| paths::path_extension(p) == Some("urdf"@);
    let mut out: Vec<String> = Vec::new();
    let mut i: usize = 0;
    proof {
        reveal(Seq::filter);
        assert(text::texts(out@) =~= t.take(0).filter(keep));
    }
    while i < files.len()
        invariant
            i <= files@.len(),
            t == text::texts(files@),
            keep == (|p: Seq<char>| paths::path_extension(p) == Some("urdf"@)),
            text::texts(out@) == t.take(i as int).filter(keep),
        decreases files@.len() - i,
    {
        proof {
            assert(t.take(i + 1) =~= t.take(i as int).push(t[i as int]));
            t.take(i as int).lemma_filter_push(t[i as int], keep);
        }
        let urdf = match paths::extension(files[i].as_str()) {
            Some(e) => text::same(e.as_str(), "urdf"),
            None => false,
        };
        if urdf {
            let ghost seen = text::texts(out@);
            out.push(files[i].clone());
            assert(text::texts(out@) =~= seen.push(t[i as int]));
        }
        i = i + 1;
    }
    assert(t.take(i as int) =~= t);
    out
}

/// The file name of a path, empty when it has none.
pub open spec fn name_of(p: Seq<char>) -> Seq<char> {
    match paths::base_name(p) {
        Some(n) => n,
        None => Seq::empty(),
    }
}

/// The file name of a path, empty when it has none.
fn file_name(p: &str) -> (out: String)
    ensures
        out@ == name_of(p@),
{
    match paths::file_name(p) {
        Some(n) => n,
        None => String::new(),
    }
}

/// The file names of the paths, each once, as a Python list.
pub open spec fn available(urdfs: Seq<Seq<char>>) -> Seq<char> {
    crate::list_repr(text::sorted_set(urdfs.map_values(|p: Seq<char>| name_of(p))))
}

/// The file names of the paths, each once, as a Python list.
fn available_names(urdfs: &[String]) -> (out: String)
    ensures
        out@ == available(text::texts(urdfs@)),
{
    let ghost names = text::texts(urdfs@).map_values(|p: Seq<char>| name_of(p));
    let mut sorted: Vec<String> = Vec::new();
    let mut i: usize = 0;
    assert(text::texts(sorted@) =~= Seq::<Seq<char>>::empty());
    while i < urdfs.len()
        invariant
            i <= urdfs@.len(),
            names == text::texts(urdfs@).map_values(|p: Seq<char>| name_of(p)),
            text::texts(sorted@) == text::sorted_set(names.take(i as int)),
        decreases urdfs@.len() - i,
    {
        proof {
            assert(names.take(i + 1).drop_last() =~= names.take(i as int));
            assert(names.take(i + 1).last() == name_of(urdfs@[i as int]@));
        }
        text::add_sorted(&mut sorted, file_name(urdfs[i].as_str()));
        i = i + 1;
    }
    assert(names.take(i as int) =~= names);
    py_list(&sorted)
}

/// The paths with the file name `name`.
pub open spec fn named(urdfs: Seq<Seq<char>>, name: Seq<char>) -> Seq<Seq<char>> {
    urdfs.filter(has_name(name))
}

/// The test for the file name `name`.
pub open spec fn has_name(name: Seq<char>) -> spec_fn(Seq<char>) -> bool {
    |p: Seq<char>| name_of(p) == name
}

/// The URDF that is picked: the only one with the file name that was asked
/// for, or the only one there is; otherwise why none is.
pub open spec fn selected(urdfs: Seq<Seq<char>>, requested: Option<Seq<char>>) -> Result<
    Seq<char>,
    ErrorView,
> {
    if requested matches Some(r) && r.len() > 0 {
        let r = requested->0;
        let m = named(urdfs, r);
        if m.len() == 0 {
            Err(
                ErrorView::Invalid(
                    "--urdf "@ + crate::repr(r) + " not found. Available: "@ + available(urdfs),
                ),
            )
        } else if m.len() == 1 {
            Ok(m[0])
        } else {
            Err(
                ErrorView::Invalid(
                    "--urdf "@ + crate::repr(r) + " matches multiple paths: "@ + crate::list_repr(m),
                ),
            )
        }
    } else if urdfs.len() == 0 {
        Err(ErrorView::Invalid("No .urdf files found in folder."@))
    } else if urdfs.len() == 1 {
        Ok(urdfs[0])
    } else {
        Err(
            ErrorView::Invalid(
                "Multiple URDFs found; specify with --urdf NAME.urdf. Available: "@ + available(
                    urdfs,
                ),
            ),
        )
    }
}

/// Pick the URDF: by file name when `requested` is given, else the only one.
pub fn select_urdf(urdfs: &[String], requested: Option<&str>) -> (res: Result<String, Error>)
    ensures
        ({
            let want = match requested {
                Some(r) => Some(r@),
                None => None,
            };
            match res {
                Ok(p) => selected(text::texts(urdfs@), want) == Ok::<Seq<char>, ErrorView>(p@),
                Err(e) => selected(text::texts(urdfs@), want) == Err::<Seq<char>, ErrorView>(e@),
            }
        }),
{
    let ghost t = text::texts(urdfs@);
    match requested {
        Some(req) => if !req.is_empty() {
            let ghost keep = has_name(req@);
            let mut matches: Vec<String> = Vec::new();
            let mut i: usize = 0;
            proof {
                reveal(Seq::filter);
                assert(text::texts(matches@) =~= t.take(0).filter(keep));
            }
            while i < urdfs.len()
                invariant
                    i <= urdfs@.len(),
                    t == text::texts(urdfs@),
                    keep == has_name(req@),
                    text::texts(matches@) == t.take(i as int).filter(keep),
                decreases urdfs@.len() - i,
            {
                proof {
                    assert(t.take(i + 1) =~= t.take(i as int).push(t[i as int]));
                    t.take(i as int).lemma_filter_push(t[i as int], keep);
                }
                if text::same(file_name(urdfs[i].as_str()).as_str(), req) {
                    let ghost seen = text::texts(matches@);
                    matches.push(urdfs[i].clone());
                    assert(text::texts(matches@) =~= seen.push(t[i as int]));
                }
                i = i + 1;
            }
            assert(t.take(i as int) =~= t);
            let mut m = String::from_str("--urdf ");
            m.append(py_repr(req).as_str());
            if matches.len() == 0 {
                m.append(" not found. Available: ");
                m.append(available_names(urdfs).as_str());
                return Err(Error::Invalid(m));
            }
            if matches.len() == 1 {
                assert(text::texts(matches@)[0] == matches@[0]@);
                return Ok(matches[0].clone());
            }
            m.append(" matches multiple paths: ");
            m.append(py_list(&matches).as_str());
            return Err(Error::Invalid(m));
        },
        None => {},
    }
    if urdfs.len() == 0 {
        return Err(Error::Invalid(String::from_str("No .urdf files found in folder.")));
    }
    if urdfs.len() == 1 {
        assert(t[0] == urdfs@[0]@);
        return Ok(urdfs[0].clone());
    }
    let mut m = String::from_str(
        "Multiple URDFs found; specify with --urdf NAME.urdf. Available: ",
    );
    m.append(available_names(urdfs).as_str());
    Err(Error::Invalid(m))
}

/// The URDF that is picked is one of those given, and has the file name that
/// was asked for.
pub proof fn a_selected_urdf_was_given(urdfs: Seq<Seq<char>>, requested: Option<Seq<char>>)
    ensures
        selected(urdfs, requested) matches Ok(p) ==> urdfs.contains(p) && ((requested matches Some(r)
            && r.len() > 0) ==> name_of(p) == requested->0),
{
    if requested matches Some(r) && r.len() > 0 {
        let r = requested->0;
        let m = named(urdfs, r);
        if m.len() == 1 {
            assert(m.contains(m[0]));
            urdfs.lemma_filter_contains_rev(has_name(r), m[0]);
            urdfs.lemma_filter_pred(has_name(r), 0);
        }
    } else if urdfs.len() == 1 {
        assert(urdfs.contains(urdfs[0]));
    }
}

/// [`select_urdf`] over the URDFs of an in-memory package; returns the key.
pub fn select_urdf_in(pkg: &MemPackage, requested: Option<&str>) -> (res: Result<String, Error>)
    ensures
        ({
            let want = match requested {
                Some(r) => Some(r@),
                None => None,
            };
            let keys = vfs::urdf_keys(pkg.file_keys());
            match res {
                Ok(p) => selected(keys, want) == Ok::<Seq<char>, ErrorView>(p@),
                Err(e) => selected(keys, want) == Err::<Seq<char>, ErrorView>(e@),
            }
        }),
{
    let urdfs = pkg.urdfs();
    select_urdf(&urdfs, requested)
}

/// The path `rel` taken from the directory `base`.
pub open spec fn path_join(base: Seq<char>, rel: Seq<char>) -> Seq<char> {
    if paths::absolute(rel) {
        rel
    } else {
        paths::pushed(base, rel)
    }
}

/// The path `rel` taken from the directory `base`.
pub fn join_path(base: &str, rel: &str) -> (out: String)
    ensures
        out@ == path_join(base@, rel@),
{
    let cs = text::to_chars(rel);
    if cs.len() > 0 && cs[0] == '/' {
        String::from_str(rel)
    } else {
        paths::push_part(base, rel)
    }
}

/// Where a mesh may lie on disk, in the order in which the places are tried.
#[derive(Debug)]
pub struct MeshSearch {
    /// The first of these that exists is the mesh.
    pub candidates: Vec<String>,
    /// When none exists: the only file or directory below the robot's
    /// directory with this name is the mesh.
    pub base: Option<String>,
    /// When none exists: this path is the mesh all the same.
    pub verbatim: Option<String>,
}

/// The contents of a [`MeshSearch`].
#[verifier::ext_equal]
pub struct SearchView {
    pub candidates: Seq<Seq<char>>,
    pub base: Option<Seq<char>>,
    pub verbatim: Option<Seq<char>>,
}

impl View for MeshSearch {
    type V = SearchView;

    open spec fn view(&self) -> SearchView {
        SearchView {
            candidates: text::texts(self.candidates@),
            base: text::opt_text(self.base),
            verbatim: text::opt_text(self.verbatim),
        }
    }
}

/// Where the mesh `filename` may lie.
pub open spec fn search_for(filename: Seq<char>, robot_dir: Seq<char>, urdf_dir: Seq<char>) -> SearchView {
    let none = SearchView { candidates: Seq::empty(), base: None, verbatim: None };
    match paths::without_prefix(filename, "package://"@) {
        Some(rest) => match text::split_at_char(rest, '/') {
            Some((pkg, rel)) => SearchView {
                candidates: seq![
                    path_join(path_join(robot_dir, pkg), rel),
                    path_join(robot_dir, rel),
                ],
                base: paths::base_name(rel),
                verbatim: None,
            },
            None => none,
        },
        None => match paths::without_prefix(filename, "file://"@) {
            Some(rest) => SearchView { candidates: seq![rest], base: None, verbatim: Some(rest) },
            None => SearchView {
                candidates: seq![
                    if paths::absolute(filename) {
                        filename
                    } else {
                        path_join(urdf_dir, filename)
                    },
                ],
                base: None,
                verbatim: None,
            },
        },
    }
}

/// Where to look for a `<mesh filename=...>` value: `package://X/p` tries
/// `robot_dir/X/p`, `robot_dir/p`, then a unique match of its file name
/// anywhere below `robot_dir`; `file://p` is taken as is; absolute paths must
/// exist; relative ones are relative to the directory of the URDF.
pub fn resolve_mesh_path(filename: &str, robot_dir: &str, urdf_dir: &str) -> (out: MeshSearch)
    ensures
        out@ == search_for(filename@, robot_dir@, urdf_dir@),
{
    let mut candidates: Vec<String> = Vec::new();
    let mut base: Option<String> = None;
    let mut verbatim: Option<String> = None;
    match paths::strip_prefix(filename, "package://") {
        Some(rest) => match text::split_once(rest.as_str(), '/') {
            Some((pkg, rel)) => {
                let inner = join_path(robot_dir, pkg.as_str());
                candidates.push(join_path(inner.as_str(), rel.as_str()));
                candidates.push(join_path(robot_dir, rel.as_str()));
                base = paths::file_name(rel.as_str());
            },
            None => {},
        },
        None => match paths::strip_prefix(filename, "file://") {
            Some(rest) => {
                candidates.push(rest.clone());
                verbatim = Some(rest);
            },
            None => {
                let cs = text::to_chars(filename);
                if cs.len() > 0 && cs[0] == '/' {
                    candidates.push(String::from_str(filename));
                } else {
                    candidates.push(join_path(urdf_dir, filename));
                }
            },
        },
    }
    let out = MeshSearch { candidates, base, verbatim };
    assert(out@ =~= search_for(filename@, robot_dir@, urdf_dir@));
    out
}

/// What a search found.
#[derive(Debug)]
pub enum MeshFound {
    /// The mesh is at this path, which exists.
    Existing(String),
    /// The mesh is at this path, whether it exists or not.
    Verbatim(String),
    /// There is no mesh, or more than one.
    Missing,
}

/// The contents of a [`MeshFound`].
pub enum FoundView {
    Existing(Seq<char>),
    Verbatim(Seq<char>),
    Missing,
}

impl View for MeshFound {
    type V = FoundView;

    open spec fn view(&self) -> FoundView {
        match self {
            MeshFound::Existing(p) => FoundView::Existing(p@),
            MeshFound::Verbatim(p) => FoundView::Verbatim(p@),
            MeshFound::Missing => FoundView::Missing,
        }
    }
}

/// The first candidate, from position `k` on, that exists.
pub open spec fn first_existing(candidates: Seq<Seq<char>>, present: Seq<bool>, k: int) -> Option<
    Seq<char>,
>
    decreases candidates.len() - k,
{
    if k < 0 || k >= candidates.len() {
        None
    } else if k < present.len() && present[k] {
        Some(candidates[k])
    } else {
        first_existing(candidates, present, k + 1)
    }
}

/// What a search finds when `present` says which candidates exist and `below`
/// lists what lies below the robot's directory.
pub open spec fn search_result(s: SearchView, present: Seq<bool>, below: Seq<Seq<char>>) -> FoundView {
    match first_existing(s.candidates, present, 0) {
        Some(p) => FoundView::Existing(p),
        None => match (s.base, s.verbatim) {
            (Some(base), _) => {
                let m = below.filter(is_base(base));
                if m.len() == 1 {
                    FoundView::Existing(m[0])
                } else {
                    FoundView::Missing
                }
            },
            (None, Some(p)) => FoundView::Verbatim(p),
            (None, None) => FoundView::Missing,
        },
    }
}

/// The test for paths whose last component is `base`.
pub open spec fn is_base(base: Seq<char>) -> spec_fn(Seq<char>) -> bool {
    |p: Seq<char>| paths::base_name(p) == Some(base)
}

impl MeshSearch {
    /// What the search finds when `present` says which candidates exist and
    /// `below` lists the files and directories below the robot's directory.
    pub fn outcome(&self, present: &[bool], below: &[String]) -> (out: MeshFound)
        ensures
            out@ == search_result(self@, present@, text::texts(below@)),
    {
        let mut k: usize = 0;
        while k < self.candidates.len()
            invariant
                k <= self.candidates@.len(),
                first_existing(self@.candidates, present@, 0) == first_existing(
                    self@.candidates,
                    present@,
                    k as int,
                ),
            decreases self.candidates@.len() - k,
        {
            if k < present.len() && present[k] {
                assert(self@.candidates[k as int] == self.candidates@[k as int]@);
                return MeshFound::Existing(self.candidates[k].clone());
            }
            k = k + 1;
        }
        match &self.base {
            Some(base) => {
                let ghost t = text::texts(below@);
                let ghost keep = is_base(base@);
                let mut matches: Vec<String> = Vec::new();
                let mut i: usize = 0;
                proof {
                    reveal(Seq::filter);
                    assert(text::texts(matches@) =~= t.take(0).filter(keep));
                }
                while i < below.len()
                    invariant
                        i <= below@.len(),
                        t == text::texts(below@),
                        keep == is_base(base@),
                        text::texts(matches@) == t.take(i as int).filter(keep),
                    decreases below@.len() - i,
                {
                    proof {
                        assert(t.take(i + 1) =~= t.take(i as int).push(t[i as int]));
                        t.take(i as int).lemma_filter_push(t[i as int], keep);
                    }
                    let found = match paths::file_name(below[i].as_str()) {
                        Some(n) => text::same(n.as_str(), base.as_str()),
                        None => false,
                    };
                    if found {
                        let ghost seen = text::texts(matches@);
                        matches.push(below[i].clone());
                        assert(text::texts(matches@) =~= seen.push(t[i as int]));
                    }
                    i = i + 1;
                }
                assert(t.take(i as int) =~= t);
                if matches.len() == 1 {
                    assert(text::texts(matches@)[0] == matches@[0]@);
                    MeshFound::Existing(matches[0].clone())
                } else {
                    MeshFound::Missing
                }
            },
            None => match &self.verbatim {
                Some(p) => MeshFound::Verbatim(p.clone()),
                None => MeshFound::Missing,
            },
        }
    }
}

/// The test for keys whose last piece is `base`.
pub open spec fn ends_in(base: Seq<char>) -> spec_fn(Seq<char>) -> bool {
    |k: Seq<char>| text::last_piece(k, '/') == base
}

/// The path inside a package that `filename` resolves to.
pub open spec fn resolved_in(
    files: Map<Seq<char>, Seq<u8>>,
    keys: Seq<Seq<char>>,
    filename: Seq<char>,
    urdf_rel: Seq<char>,
) -> Option<Seq<char>> {
    match paths::without_prefix(filename, "package://"@) {
        Some(rest) => match text::split_at_char(rest, '/') {
            None => None,
            Some((name, rel)) => match present_at(files, paths::lexical_join(name, rel)) {
                Some(p) => Some(p),
                None => match present_at(files, paths::lexical_join(Seq::empty(), rel)) {
                    Some(p) => Some(p),
                    None => {
                        let base = text::last_piece(rel, '/');
                        let m = keys.filter(ends_in(base)) + vfs::dir_keys(keys).filter(
                            ends_in(base),
                        );
                        if base.len() > 0 && m.len() == 1 {
                            Some(m[0])
                        } else {
                            None
                        }
                    },
                },
            },
        },
        None => match paths::without_prefix(filename, "file://"@) {
            Some(rest) => Some(rest),
            None => if paths::absolute(filename) {
                present_at(files, paths::lexical_join(Seq::empty(), filename))
            } else {
                present_at(files, paths::lexical_join(paths::parent(urdf_rel), filename))
            },
        },
    }
}

/// The path, if something is there.
pub open spec fn present_at(files: Map<Seq<char>, Seq<u8>>, p: Option<Seq<char>>) -> Option<
    Seq<char>,
> {
    match p {
        Some(k) => if vfs::exists_at(files, k) {
            Some(k)
        } else {
            None
        },
        None => None,
    }
}

/// The path, if something is there.
fn if_present(pkg: &MemPackage, p: Option<String>) -> (out: Option<String>)
    ensures
        text::opt_text(out) == present_at(pkg@, text::opt_text(p)),
{
    match p {
        Some(k) => if pkg.contains_path(k.as_str()) {
            Some(k)
        } else {
            None
        },
        None => None,
    }
}

/// The keys whose last piece is `base`.
fn keys_ending_in(keys: &[String], base: &str) -> (out: Vec<String>)
    ensures
        text::texts(out@) == text::texts(keys@).filter(ends_in(base@)),
{
    let ghost t = text::texts(keys@);
    let ghost keep = ends_in(base@);
    let mut out: Vec<String> = Vec::new();
    let mut i: usize = 0;
    proof {
        reveal(Seq::filter);
        assert(text::texts(out@) =~= t.take(0).filter(keep));
    }
    while i < keys.len()
        invariant
            i <= keys@.len(),
            t == text::texts(keys@),
            keep == ends_in(base@),
            text::texts(out@) == t.take(i as int).filter(keep),
        decreases keys@.len() - i,
    {
        proof {
            assert(t.take(i + 1) =~= t.take(i as int).push(t[i as int]));
            t.take(i as int).lemma_filter_push(t[i as int], keep);
        }
        if text::same(text::after_last(keys[i].as_str(), '/').as_str(), base) {
            let ghost seen = text::texts(out@);
            out.push(keys[i].clone());
            assert(text::texts(out@) =~= seen.push(t[i as int]));
        }
        i = i + 1;
    }
    assert(t.take(i as int) =~= t);
    out
}

/// [`resolve_mesh_path`] inside an in-memory package, with the same rules;
/// the result is a package key (except for `file://`, taken as is).
/// Absolute paths name package keys from its root.
pub fn resolve_mesh_path_in(pkg: &MemPackage, filename: &str, urdf_rel: &str) -> (out: Option<
    String,
>)
    ensures
        text::opt_text(out) == resolved_in(pkg@, pkg.file_keys(), filename@, urdf_rel@),
{
    proof {
        reveal_strlit("");
        assert(""@ =~= Seq::<char>::empty());
    }
    match paths::strip_prefix(filename, "package://") {
        Some(rest) => match text::split_once(rest.as_str(), '/') {
            None => None,
            Some((name, rel)) => {
                let first = if_present(pkg, paths::join_lexical(name.as_str(), rel.as_str()));
                if first.is_some() {
                    return first;
                }
                let second = if_present(pkg, paths::join_lexical("", rel.as_str()));
                if second.is_some() {
                    return second;
                }
                let base = text::after_last(rel.as_str(), '/');
                if base.as_str().is_empty() {
                    return None;
                }
                let files = pkg.files();
                let dirs = pkg.dirs();
                let mut matches = keys_ending_in(&files, base.as_str());
                let mut more = keys_ending_in(&dirs, base.as_str());
                let ghost m = text::texts(matches@) + text::texts(more@);
                matches.append(&mut more);
                assert(text::texts(matches@) =~= m);
                if matches.len() == 1 {
                    assert(m[0] == matches@[0]@);
                    Some(matches[0].clone())
                } else {
                    None
                }
            },
        },
        None => match paths::strip_prefix(filename, "file://") {
            Some(rest) => Some(rest),
            None => {
                let cs = text::to_chars(filename);
                if cs.len() > 0 && cs[0] == '/' {
                    if_present(pkg, paths::join_lexical("", filename))
                } else {
                    if_present(pkg, paths::join_lexical(paths::parent_rel(urdf_rel), filename))
                }
            },
        },
    }
}

/// Whether a `${...}` substitution starts at position `k`.
pub open spec fn substitution_at(s: Seq<char>, k: int) -> bool {
    text::occurs_at(s, "${"@, k) && (text::first_char(s, '}', k + 2) matches Some(j) && j > k + 2)
}

/// Whether the text is unresolved xacro: a `<xacro:` element or a `${...}`
/// substitution.
pub open spec fn is_xacro(s: Seq<char>) -> bool {
    text::first_at(s, "<xacro:"@, 0) is Some || exists|k: int| #[trigger] substitution_at(s, k)
}

/// Unresolved xacro: a `<xacro:` element or a `${...}` substitution.
pub fn looks_like_xacro(text: &str) -> (yes: bool)
    ensures
        yes == is_xacro(text@),
{
    let cs = text::to_chars(text);
    if text::find(&cs, "<xacro:", 0).is_some() {
        return true;
    }
    proof {
        reveal_strlit("${");
    }
    let n: usize = cs.len();
    let mut from: usize = 0;
    loop
        invariant_except_break
            cs@ == text@,
            n == cs@.len(),
            from <= cs@.len(),
            "${"@.len() == 2,
            text::first_at(text@, "<xacro:"@, 0) is None,
            forall|k: int| k < from ==> !#[trigger] substitution_at(text@, k),
        ensures
            forall|k: int| !#[trigger] substitution_at(text@, k),
        decreases cs@.len() - from,
    {
        proof {
            text::lemma_first_at(text@, "${"@, from as int);
        }
        match text::find(&cs, "${", from) {
            None => {
                assert forall|k: int| !#[trigger] substitution_at(text@, k) by {
                    if k >= from {
                        assert(!text::occurs_at(text@, "${"@, k));
                    }
                }
                break;
            },
            Some(i) => {
                match text::find_char(&cs, '}', i + 2) {
                    Some(j) => if j > i + 2 {
                        assert(substitution_at(text@, i as int));
                        return true;
                    },
                    None => {},
                }
                assert forall|k: int| k < i + 2 implies !#[trigger] substitution_at(text@, k) by {
                    if from <= k < i {
                        assert(!text::occurs_at(text@, "${"@, k));
                    } else if k == i + 1 {
                        reveal_strlit("${");
                        if text::occurs_at(text@, "${"@, k) {
                            assert(text@.subrange(k, k + 2)[0] == '$');
                            assert(text@.subrange(i as int, i + 2)[1] == '{');
                            assert(text@[i + 1] == '$');
                            assert(text@[i + 1] == '{');
                        }
                    }
                }
                from = i + 2;
            },
        }
    }
    false
}

/// Where meshes are found: in a package, or in a table of file names and what
/// they resolve to.
pub enum MeshResolver<'a> {
    Package { pkg: &'a MemPackage, urdf_rel: &'a str },
    Table(&'a [(String, Option<String>)]),
}

/// What `filename` resolves to by the table, from position `k` on; `None` when
/// it is not there.
pub open spec fn table_path(
    table: Seq<(String, Option<String>)>,
    filename: Seq<char>,
    k: int,
) -> Option<Seq<char>>
    decreases table.len() - k,
{
    if k < 0 || k >= table.len() {
        None
    } else if table[k].0@ == filename {
        text::opt_text(table[k].1)
    } else {
        table_path(table, filename, k + 1)
    }
}

impl<'a> MeshResolver<'a> {
    /// The path of the mesh `filename`.
    pub open spec fn path_of(&self, filename: Seq<char>) -> Option<Seq<char>> {
        match self {
            MeshResolver::Package { pkg, urdf_rel } => resolved_in(
                pkg@,
                pkg.file_keys(),
                filename,
                urdf_rel@,
            ),
            MeshResolver::Table(table) => table_path(table@, filename, 0),
        }
    }

    /// The paths of meshes, as a function.
    pub open spec fn paths(&self) -> spec_fn(Seq<char>) -> Option<Seq<char>> {
        |f: Seq<char>| self.path_of(f)
    }

    /// The path of the mesh `filename`.
    pub fn resolve(&self, filename: &str) -> (out: Option<String>)
        ensures
            text::opt_text(out) == self.path_of(filename@),
    {
        match self {
            MeshResolver::Package { pkg, urdf_rel } => resolve_mesh_path_in(pkg, filename, urdf_rel),
            MeshResolver::Table(table) => look_up(table, filename),
        }
    }
}

/// What `filename` resolves to by the table; `None` when it is not there.
fn look_up(table: &[(String, Option<String>)], filename: &str) -> (out: Option<String>)
    ensures
        text::opt_text(out) == table_path(table@, filename@, 0),
{
    let mut k: usize = 0;
    while k < table.len()
        invariant
            k <= table@.len(),
            table_path(table@, filename@, 0) == table_path(table@, filename@, k as int),
        decreases table@.len() - k,
    {
        if text::same(table[k].0.as_str(), filename) {
            return text::copy_opt(&table[k].1);
        }
        k = k + 1;
    }
    None
}

/// `xyz` or `rpy` of an `<origin>`: zero when absent or malformed.
pub open spec fn origin_part(nodes: Seq<NodeView>, origin: Option<int>, key: Seq<char>) -> TripleView {
    match origin {
        Some(o) => match xml::attribute_of(nodes[o], key) {
            Some(v) => match numeral::three_numbers(v) {
                Some(t) => t,
                None => TripleView::all("0"@),
            },
            None => TripleView::all("0"@),
        },
        None => TripleView::all("0"@),
    }
}

/// `xyz` or `rpy` of an `<origin>`: zero when absent or malformed.
fn origin_numbers(nodes: &[XmlNode], origin: Option<usize>, key: &str) -> (out: Triple)
    requires
        origin matches Some(o) ==> o < nodes@.len(),
    ensures
        out@ == origin_part(xml::views(nodes@), text::opt_int(origin), key@),
{
    match origin {
        Some(o) => {
            assert(xml::views(nodes@)[o as int] == nodes@[o as int]@);
            match xml::attribute(&nodes[o], key) {
                Some(v) => match numeral::floats3(v.as_str()) {
                    Some(t) => t,
                    None => Triple::all("0"),
                },
                None => Triple::all("0"),
            }
        },
        None => Triple::all("0"),
    }
}

/// `(xyz, rpy)` of an `<origin>`, zero when absent or malformed.
pub fn parse_origin(nodes: &[XmlNode], origin: Option<usize>) -> (out: (Triple, Triple))
    requires
        origin matches Some(o) ==> o < nodes@.len(),
    ensures
        out.0@ == origin_part(xml::views(nodes@), text::opt_int(origin), "xyz"@),
        out.1@ == origin_part(xml::views(nodes@), text::opt_int(origin), "rpy"@),
{
    (origin_numbers(nodes, origin, "xyz"), origin_numbers(nodes, origin, "rpy"))
}

/// The scale of a mesh: one number for all axes or one for each; 1 when
/// absent or malformed.
pub open spec fn scale_of(s: Option<Seq<char>>) -> TripleView {
    let one = TripleView::all("1"@);
    match s {
        None => one,
        Some(s) => {
            let w = text::words(s);
            if w.len() == 1 && numeral::is_number(w[0]) {
                TripleView::all(w[0])
            } else {
                match numeral::three_numbers(s) {
                    Some(t) => t,
                    None => one,
                }
            }
        },
    }
}

/// The scale of a mesh: one number for all axes or one for each; 1 when
/// absent or malformed.
fn parse_scale(s: Option<String>) -> (out: Triple)
    ensures
        out@ == scale_of(text::opt_text(s)),
{
    match s {
        None => Triple::all("1"),
        Some(s) => {
            let cs = text::to_chars(s.as_str());
            let w = text::split_words(&cs);
            if w.len() == 1 {
                assert(text::texts(w@)[0] == w@[0]@);
                if numeral::number(w[0].as_str()) {
                    return Triple::all(w[0].as_str());
                }
            }
            match numeral::floats3(s.as_str()) {
                Some(t) => t,
                None => Triple::all("1"),
            }
        },
    }
}

/// The extension of a path in lower case, with its dot.
pub open spec fn suffix_of(p: Seq<char>) -> Seq<char> {
    match paths::path_extension(p) {
        Some(e) => "."@ + text::lowercase_of(e),
        None => Seq::empty(),
    }
}

/// The extension of a path in lower case, with its dot.
pub fn suffix(p: &str) -> (out: String)
    ensures
        out@ == suffix_of(p@),
{
    match paths::extension(p) {
        Some(e) => {
            let mut out = String::from_str(".");
            out.append(text::to_lowercase(e.as_str()).as_str());
            out
        },
        None => String::new(),
    }
}

/// The mesh extensions that the packing stage accepts.
pub open spec fn is_supported(suffix: Seq<char>) -> bool {
    suffix == ".obj"@ || suffix == ".stl"@ || suffix == ".ply"@ || suffix == ".dae"@
}

/// Whether the packing stage accepts meshes with this extension.
pub fn supported_extension(suffix: &str) -> (yes: bool)
    ensures
        yes == is_supported(suffix@),
{
    text::same(suffix, ".obj") || text::same(suffix, ".stl") || text::same(suffix, ".ply")
        || text::same(suffix, ".dae")
}

/// An item without a mesh.
pub open spec fn plain_item(
    nodes: Seq<NodeView>,
    link: Seq<char>,
    index: int,
    coll: int,
    geometry: Seq<char>,
    action: Action,
    warning: Option<Seq<char>>,
) -> ItemView {
    let origin = xml::child_of(nodes, coll, "origin"@);
    ItemView {
        link_name: link,
        collision_index: index,
        geometry_type: geometry,
        action,
        mesh_path: None,
        mesh_filename: None,
        mesh_scale: TripleView::all("1"@),
        origin_xyz: origin_part(nodes, origin, "xyz"@),
        origin_rpy: origin_part(nodes, origin, "rpy"@),
        warning,
    }
}

/// The item of a collision with the mesh node `mesh`.
pub open spec fn mesh_item(
    nodes: Seq<NodeView>,
    link: Seq<char>,
    index: int,
    coll: int,
    mesh: int,
    resolve: spec_fn(Seq<char>) -> Option<Seq<char>>,
) -> ItemView {
    let filename = match xml::attribute_of(nodes[mesh], "filename"@) {
        Some(f) => f,
        None => Seq::empty(),
    };
    let path = resolve(filename);
    let (action, warning) = match path {
        None => (
            Action::Error,
            Some(
                "Mesh not found: "@ + filename
                    + ". Drop the package root so package:// URIs resolve."@,
            ),
        ),
        Some(p) => if is_supported(suffix_of(p)) {
            (Action::Pack, None)
        } else {
            (
                Action::Error,
                Some(
                    "Unsupported mesh extension "@ + crate::repr(suffix_of(p))
                        + "; only ('.obj', '.stl', '.ply', '.dae') are packed."@,
                ),
            )
        },
    };
    ItemView {
        mesh_path: path,
        mesh_filename: Some(filename),
        mesh_scale: scale_of(xml::attribute_of(nodes[mesh], "scale"@)),
        ..plain_item(nodes, link, index, coll, "mesh"@, action, warning)
    }
}

/// The item of a box, cylinder or capsule.
pub open spec fn primitive_item(
    nodes: Seq<NodeView>,
    link: Seq<char>,
    index: int,
    coll: int,
    shape: Seq<char>,
) -> ItemView {
    plain_item(
        nodes,
        link,
        index,
        coll,
        shape,
        Action::RemovePrimitive,
        Some(
            "<"@ + shape
                + "> collision will be removed. Mesh collisions are the source of truth; redundant primitives are stripped."@,
        ),
    )
}

/// The item of the collision node `coll`: by its mesh, else by the first of
/// sphere, box, cylinder and capsule that it has.
pub open spec fn classified(
    nodes: Seq<NodeView>,
    link: Seq<char>,
    index: int,
    coll: int,
    resolve: spec_fn(Seq<char>) -> Option<Seq<char>>,
) -> ItemView {
    match xml::child_of(nodes, coll, "geometry"@) {
        None => plain_item(
            nodes,
            link,
            index,
            coll,
            "unknown"@,
            Action::Error,
            Some("<collision> has no <geometry> child."@),
        ),
        Some(g) => match xml::child_of(nodes, g, "mesh"@) {
            Some(m) => mesh_item(nodes, link, index, coll, m, resolve),
            None => if xml::child_of(nodes, g, "sphere"@) is Some {
                plain_item(
                    nodes,
                    link,
                    index,
                    coll,
                    "sphere"@,
                    Action::RemoveAlreadySphere,
                    Some(
                        "Existing <sphere> collision will be removed; the mesh-derived spheres are the canonical collision in the output URDF."@,
                    ),
                )
            } else if xml::child_of(nodes, g, "box"@) is Some {
                primitive_item(nodes, link, index, coll, "box"@)
            } else if xml::child_of(nodes, g, "cylinder"@) is Some {
                primitive_item(nodes, link, index, coll, "cylinder"@)
            } else if xml::child_of(nodes, g, "capsule"@) is Some {
                primitive_item(nodes, link, index, coll, "capsule"@)
            } else {
                plain_item(
                    nodes,
                    link,
                    index,
                    coll,
                    "unknown"@,
                    Action::Error,
                    Some(
                        "Unknown collision geometry (not mesh / box / sphere / cylinder / capsule)."@,
                    ),
                )
            },
        },
    }
}

/// An item without a mesh.
fn new_item(
    nodes: &[XmlNode],
    link: &str,
    index: usize,
    coll: usize,
    geometry: &str,
    action: Action,
    warning: Option<String>,
) -> (out: CollisionItem)
    ensures
        out@ == plain_item(
            xml::views(nodes@),
            link@,
            index as int,
            coll as int,
            geometry@,
            action,
            text::opt_text(warning),
        ),
{
    let (xyz, rpy) = parse_origin(nodes, xml::child(nodes, coll, "origin"));
    CollisionItem {
        link_name: String::from_str(link),
        collision_index: index,
        geometry_type: String::from_str(geometry),
        action,
        mesh_path: None,
        mesh_filename: None,
        mesh_scale: Triple::all("1"),
        origin_xyz: xyz,
        origin_rpy: rpy,
        warning,
    }
}

/// The item of a box, cylinder or capsule.
fn new_primitive(nodes: &[XmlNode], link: &str, index: usize, coll: usize, shape: &str) -> (out:
    CollisionItem)
    ensures
        out@ == primitive_item(xml::views(nodes@), link@, index as int, coll as int, shape@),
{
    let mut w = String::from_str("<");
    w.append(shape);
    w.append(
        "> collision will be removed. Mesh collisions are the source of truth; redundant primitives are stripped.",
    );
    new_item(nodes, link, index, coll, shape, Action::RemovePrimitive, Some(w))
}

/// The item of the collision node `coll`.
pub fn classify(
    nodes: &[XmlNode],
    link: &str,
    index: usize,
    coll: usize,
    resolver: &MeshResolver,
) -> (out: CollisionItem)
    ensures
        out@ == classified(
            xml::views(nodes@),
            link@,
            index as int,
            coll as int,
            resolver.paths(),
        ),
{
    let geom = match xml::child(nodes, coll, "geometry") {
        Some(g) => g,
        None => {
            return new_item(
                nodes,
                link,
                index,
                coll,
                "unknown",
                Action::Error,
                Some(String::from_str("<collision> has no <geometry> child.")),
            );
        },
    };
    match xml::child(nodes, geom, "mesh") {
        Some(mesh) => {
            assert(xml::views(nodes@)[mesh as int] == nodes@[mesh as int]@);
            let filename = match xml::attribute(&nodes[mesh], "filename") {
                Some(f) => f,
                None => String::new(),
            };
            let scale = parse_scale(xml::attribute(&nodes[mesh], "scale"));
            let path = resolver.resolve(filename.as_str());
            let mut action = Action::Pack;
            let mut warning: Option<String> = None;
            match &path {
                None => {
                    action = Action::Error;
                    let mut w = String::from_str("Mesh not found: ");
                    w.append(filename.as_str());
                    w.append(". Drop the package root so package:// URIs resolve.");
                    warning = Some(w);
                },
                Some(p) => {
                    let suffix = suffix(p.as_str());
                    if !supported_extension(suffix.as_str()) {
                        action = Action::Error;
                        let mut w = String::from_str("Unsupported mesh extension ");
                        w.append(py_repr(suffix.as_str()).as_str());
                        w.append("; only ('.obj', '.stl', '.ply', '.dae') are packed.");
                        warning = Some(w);
                    }
                },
            }
            let mut item = new_item(nodes, link, index, coll, "mesh", action, warning);
            item.mesh_path = path;
            item.mesh_filename = Some(filename);
            item.mesh_scale = scale;
            item
        },
        None => if xml::child(nodes, geom, "sphere").is_some() {
            new_item(
                nodes,
                link,
                index,
                coll,
                "sphere",
                Action::RemoveAlreadySphere,
                Some(
                    String::from_str(
                        "Existing <sphere> collision will be removed; the mesh-derived spheres are the canonical collision in the output URDF.",
                    ),
                ),
            )
        } else if xml::child(nodes, geom, "box").is_some() {
            new_primitive(nodes, link, index, coll, "box")
        } else if xml::child(nodes, geom, "cylinder").is_some() {
            new_primitive(nodes, link, index, coll, "cylinder")
        } else if xml::child(nodes, geom, "capsule").is_some() {
            new_primitive(nodes, link, index, coll, "capsule")
        } else {
            new_item(
                nodes,
                link,
                index,
                coll,
                "unknown",
                Action::Error,
                Some(
                    String::from_str(
                        "Unknown collision geometry (not mesh / box / sphere / cylinder / capsule).",
                    ),
                ),
            )
        },
    }
}

/// The test for the links of a robot: the `<link>` elements below the root.
pub open spec fn is_link(nodes: Seq<NodeView>, root: int) -> spec_fn(int) -> bool {
    |j: int| xml::lies_below(nodes, j, root) && xml::is_plain(nodes[j], "link"@)
}

/// The links of a robot, in document order.
pub open spec fn links_of(nodes: Seq<NodeView>, root: int) -> Seq<int> {
    xml::select(nodes.len(), is_link(nodes, root))
}

/// The name of a link.
pub open spec fn link_name_of(n: NodeView) -> Seq<char> {
    match xml::attribute_of(n, "name"@) {
        Some(v) => v,
        None => "<unnamed>"@,
    }
}

/// Whether a visual shows a mesh.
pub open spec fn shows_mesh(nodes: Seq<NodeView>, v: int) -> bool {
    xml::child_of(nodes, v, "geometry"@) matches Some(g) && xml::child_of(nodes, g, "mesh"@) is Some
}

/// The test for the visuals of links that show a mesh.
pub open spec fn is_mesh_visual(nodes: Seq<NodeView>, root: int) -> spec_fn(int) -> bool {
    |j: int|
        xml::is_plain(nodes[j], "visual"@) && shows_mesh(nodes, j) && (nodes[j].parent matches Some(
            p,
        ) && 0 <= p < nodes.len() && is_link(nodes, root)(p))
}

/// How many visuals of links show a mesh.
pub open spec fn visuals_of(nodes: Seq<NodeView>, root: int) -> nat {
    xml::select(nodes.len(), is_mesh_visual(nodes, root)).len()
}

/// The items of the link node `link`, one for each of its collisions.
pub open spec fn link_items(
    nodes: Seq<NodeView>,
    link: int,
    resolve: spec_fn(Seq<char>) -> Option<Seq<char>>,
) -> Seq<ItemView> {
    let colls = xml::children_of(nodes, link, "collision"@);
    Seq::new(
        colls.len(),
        |ci: int| classified(nodes, link_name_of(nodes[link]), ci, colls[ci], resolve),
    )
}

/// The items of the links, link by link.
pub open spec fn items_of(
    nodes: Seq<NodeView>,
    links: Seq<int>,
    resolve: spec_fn(Seq<char>) -> Option<Seq<char>>,
) -> Seq<ItemView>
    decreases links.len(),
{
    if links.len() == 0 {
        Seq::empty()
    } else {
        items_of(nodes, links.drop_last(), resolve) + link_items(nodes, links.last(), resolve)
    }
}

/// The message for a text that looks like xacro.
pub open spec fn xacro_message() -> Seq<char> {
    "This file looks like unresolved xacro source: it contains <xacro:...> elements or ${...} substitutions that have not been expanded. Run `xacro foo.xacro > foo.urdf` first and drop the resolved URDF instead."@
}

/// The report with one more error.
pub open spec fn with_error(report: ReportView, message: Seq<char>) -> ReportView {
    ReportView { errors: report.errors.push(message), ..report }
}

/// The report on a parsed URDF.
pub open spec fn inspected_document(
    nodes: Seq<NodeView>,
    report: ReportView,
    resolve: spec_fn(Seq<char>) -> Option<Seq<char>>,
) -> ReportView {
    let root = xml::root_of(nodes)->0;
    let tag = xml::tag_string(nodes[root]);
    if tag != "robot"@ {
        with_error(
            report,
            "Top-level element is <"@ + tag + ">, expected <robot>. Is this actually a URDF?"@,
        )
    } else {
        ReportView {
            collisions: report.collisions + items_of(nodes, links_of(nodes, root), resolve),
            visual_count: report.visual_count + visuals_of(nodes, root),
            ..report
        }
    }
}

/// The report on the URDF `s`.
pub open spec fn inspected(
    s: Seq<char>,
    report: ReportView,
    resolve: spec_fn(Seq<char>) -> Option<Seq<char>>,
) -> ReportView {
    if is_xacro(s) {
        with_error(report, xacro_message())
    } else {
        match xml::parsed_xml(s, true) {
            Err(e) => with_error(report, "URDF is not valid XML: "@ + e),
            Ok(nodes) => inspected_document(nodes, report, resolve),
        }
    }
}

/// Whether a node is a link of the robot.
fn link_at(nodes: &[XmlNode], inside: &[bool], j: usize) -> (yes: bool)
    requires
        j < nodes@.len(),
        inside@.len() == nodes@.len(),
    ensures
        yes == (inside@[j as int] && xml::is_plain(xml::views(nodes@)[j as int], "link"@)),
{
    let n = &nodes[j];
    assert(xml::views(nodes@)[j as int] == n@);
    proof {
        reveal_strlit("link");
    }
    inside[j] && n.namespace.is_none() && text::same(n.name.as_str(), "link")
}

/// The links of a robot, in document order.
pub fn robot_links(nodes: &[XmlNode], root: usize) -> (out: Vec<usize>)
    ensures
        xml::ints(out@) == links_of(xml::views(nodes@), root as int),
        forall|k: int| 0 <= k < out@.len() ==> #[trigger] out@[k] < nodes@.len(),
{
    let ghost keep = is_link(xml::views(nodes@), root as int);
    let inside = xml::below(nodes, root);
    let mut out: Vec<usize> = Vec::new();
    let mut j: usize = 0;
    assert(xml::ints(out@) =~= Seq::<int>::empty());
    while j < nodes.len()
        invariant
            j <= nodes@.len(),
            inside@.len() == nodes@.len(),
            forall|k: int|
                0 <= k < nodes@.len() ==> #[trigger] inside@[k] == xml::lies_below(
                    xml::views(nodes@),
                    k,
                    root as int,
                ),
            keep == is_link(xml::views(nodes@), root as int),
            xml::ints(out@) == xml::select(j as nat, keep),
            forall|k: int| 0 <= k < out@.len() ==> #[trigger] out@[k] < nodes@.len(),
        decreases nodes@.len() - j,
    {
        let ghost before = xml::ints(out@);
        if link_at(nodes, &inside, j) {
            out.push(j);
            assert(xml::ints(out@) =~= before.push(j as int));
        }
        j = j + 1;
    }
    out
}

/// Each visual that shows a mesh has a geometry of its own, so visuals are at most
/// half of the nodes.
proof fn lemma_visuals_fit(nodes: Seq<NodeView>, root: int)
    ensures
        2 * visuals_of(nodes, root) <= nodes.len(),
{
    let keep = is_mesh_visual(nodes, root);
    let n = nodes.len();
    let vs = xml::select(n, keep);
    let gs = Seq::new(vs.len(), |k: int| xml::child_of(nodes, vs[k], "geometry"@)->0);
    xml::lemma_select(n, keep);
    assert forall|k: int| 0 <= k < vs.len() implies 0 <= #[trigger] gs[k] < n
        && nodes[gs[k]].parent == Some(vs[k]) && nodes[gs[k]].name == "geometry"@ by {
        assert(vs.contains(vs[k]));
        let of_visual = xml::is_child(nodes, vs[k], "geometry"@);
        xml::lemma_select(n, of_visual);
        let all = xml::children_of(nodes, vs[k], "geometry"@);
        assert(all.contains(all[0]));
    }
    assert forall|k: int| 0 <= k < vs.len() implies nodes[#[trigger] vs[k]].name == "visual"@ by {
        assert(vs.contains(vs[k]));
    }
    reveal_strlit("geometry");
    reveal_strlit("visual");
    assert("geometry"@.len() != "visual"@.len());
    let both = vs + gs;
    assert(both.no_duplicates()) by {
        assert forall|a: int, b: int| 0 <= a < b < both.len() implies #[trigger] both[a]
            != #[trigger] both[b] by {
            if b < vs.len() {
                assert(vs[a] < vs[b]);
            } else if a < vs.len() {
                assert(both[a] == vs[a]);
                assert(both[b] == gs[b - vs.len()]);
            } else {
                assert(both[a] == gs[a - vs.len()]);
                assert(both[b] == gs[b - vs.len()]);
                assert(vs[a - vs.len()] < vs[b - vs.len()]);
            }
        }
    }
    both.unique_seq_to_set();
    let range = vstd::set_lib::set_int_range(0, n as int);
    vstd::set_lib::lemma_int_range(0, n as int);
    assert(both.to_set().subset_of(range)) by {
        assert forall|j: int| #[trigger] both.to_set().contains(j) implies range.contains(j) by {
            let k = choose|k: int| 0 <= k < both.len() && both[k] == j;
            if k >= vs.len() {
                assert(both[k] == gs[k - vs.len()]);
            }
        }
    }
    vstd::set_lib::lemma_len_subset(both.to_set(), range);
}

/// How many visuals of links show a mesh.
fn count_visuals(nodes: &[XmlNode], root: usize) -> (n: usize)
    ensures
        n == visuals_of(xml::views(nodes@), root as int),
{
    let ghost keep = is_mesh_visual(xml::views(nodes@), root as int);
    let inside = xml::below(nodes, root);
    let mut n: usize = 0;
    let mut j: usize = 0;
    while j < nodes.len()
        invariant
            n <= j <= nodes.len(),
            inside@.len() == nodes@.len(),
            forall|k: int|
                0 <= k < nodes@.len() ==> #[trigger] inside@[k] == xml::lies_below(
                    xml::views(nodes@),
                    k,
                    root as int,
                ),
            keep == is_mesh_visual(xml::views(nodes@), root as int),
            n == xml::select(j as nat, keep).len(),
        decreases nodes@.len() - j,
    {
        let v = &nodes[j];
        proof {
            assert(xml::views(nodes@)[j as int] == v@);
            reveal_strlit("visual");
        }
        if v.namespace.is_none() && text::same(v.name.as_str(), "visual") {
            let of_link = match v.parent {
                Some(p) => p < nodes.len() && link_at(nodes, &inside, p),
                None => false,
            };
            let mesh = match xml::child(nodes, j, "geometry") {
                Some(g) => xml::child(nodes, g, "mesh").is_some(),
                None => false,
            };
            if of_link && mesh {
                n = n + 1;
            }
        }
        j = j + 1;
    }
    n
}

/// Append the items of the link node `link`.
fn add_link_items(
    nodes: &[XmlNode],
    link: usize,
    resolver: &MeshResolver,
    out: &mut Vec<CollisionItem>,
)
    requires
        link < nodes@.len(),
    ensures
        item_views(final(out)@) == item_views(old(out)@) + link_items(
            xml::views(nodes@),
            link as int,
            resolver.paths(),
        ),
{
    let ghost v = xml::views(nodes@);
    assert(v[link as int] == nodes@[link as int]@);
    let name = match xml::attribute(&nodes[link], "name") {
        Some(n) => n,
        None => String::from_str("<unnamed>"),
    };
    let colls = xml::children(nodes, link, "collision");
    let ghost before = item_views(out@);
    let ghost all = link_items(v, link as int, resolver.paths());
    let mut ci: usize = 0;
    assert(all.take(0) =~= Seq::<ItemView>::empty());
    assert(before + all.take(0) =~= before);
    while ci < colls.len()
        invariant
            ci <= colls@.len(),
            v == xml::views(nodes@),
            name@ == link_name_of(v[link as int]),
            xml::ints(colls@) == xml::children_of(v, link as int, "collision"@),
            all == link_items(v, link as int, resolver.paths()),
            all.len() == colls@.len(),
            item_views(out@) == before + all.take(ci as int),
        decreases colls@.len() - ci,
    {
        let item = classify(nodes, name.as_str(), ci, colls[ci], resolver);
        assert(xml::ints(colls@)[ci as int] == colls@[ci as int]);
        assert(all[ci as int] == item@);
        let ghost seen = item_views(out@);
        out.push(item);
        assert(item_views(out@) =~= seen.push(all[ci as int]));
        assert(all.take(ci + 1) =~= all.take(ci as int).push(all[ci as int]));
        ci = ci + 1;
        assert(item_views(out@) =~= before + all.take(ci as int));
    }
    assert(all.take(ci as int) =~= all);
}

/// Classify the collisions of a parsed URDF into `report` (whose path fields
/// the caller has filled).
pub fn inspect_document(
    nodes: &[XmlNode],
    report: InspectionReport,
    resolver: &MeshResolver,
) -> (out: InspectionReport)
    requires
        xml::root_of(xml::views(nodes@)) is Some,
        report.visual_count + nodes@.len() / 2 <= usize::MAX,
    ensures
        out@ == inspected_document(xml::views(nodes@), report@, resolver.paths()),
{
    let ghost v = xml::views(nodes@);
    let ghost given = report@;
    let mut report = report;
    let root = match xml::root_element(nodes) {
        Some(r) => r,
        None => {
            return report;
        },
    };
    assert(v[root as int] == nodes@[root as int]@);
    let tag = xml::et_tag(&nodes[root]);
    if !text::same(tag.as_str(), "robot") {
        let mut m = String::from_str("Top-level element is <");
        m.append(tag.as_str());
        m.append(">, expected <robot>. Is this actually a URDF?");
        let ghost msg = m@;
        report.errors.push(m);
        assert(report@.errors =~= given.errors.push(msg));
        return report;
    }
    let links = robot_links(nodes, root);
    proof {
        lemma_visuals_fit(v, root as int);
    }
    report.visual_count = report.visual_count + count_visuals(nodes, root);
    let ghost ls = links_of(v, root as int);
    let ghost first = given.collisions;
    let mut collisions = report.collisions;
    let mut k: usize = 0;
    assert(ls.take(0) =~= Seq::<int>::empty());
    assert(first + items_of(v, ls.take(0), resolver.paths()) =~= first);
    while k < links.len()
        invariant
            k <= links@.len(),
            v == xml::views(nodes@),
            ls == xml::ints(links@),
            forall|i: int| 0 <= i < links@.len() ==> #[trigger] links@[i] < nodes@.len(),
            item_views(collisions@) == first + items_of(v, ls.take(k as int), resolver.paths()),
        decreases links@.len() - k,
    {
        proof {
            assert(ls.take(k + 1).drop_last() =~= ls.take(k as int));
            assert(ls.take(k + 1).last() == links@[k as int]);
        }
        let ghost a = items_of(v, ls.take(k as int), resolver.paths());
        let ghost b = link_items(v, links@[k as int] as int, resolver.paths());
        add_link_items(nodes, links[k], resolver, &mut collisions);
        assert(first + a + b =~= first + (a + b));
        k = k + 1;
    }
    assert(ls.take(k as int) =~= ls);
    report.collisions = collisions;
    report
}

/// Classify the collisions of the URDF `text` into `report` (whose path
/// fields the caller has filled). Problems with the file itself (xacro, not
/// XML, not a `<robot>`) end up in the report's errors. `resolver` finds the
/// meshes. The visuals of the text are added to the report's count, which leaves
/// room for as many as a text can have.
pub fn inspect_urdf_text(text: &str, report: InspectionReport, resolver: &MeshResolver) -> (out:
    InspectionReport)
    requires
        report.visual_count <= usize::MAX / 2,
    ensures
        out@ == inspected(text@, report@, resolver.paths()),
{
    let ghost given = report@;
    let mut report = report;
    if looks_like_xacro(text) {
        report.errors.push(
            String::from_str(
                "This file looks like unresolved xacro source: it contains <xacro:...> elements or ${...} substitutions that have not been expanded. Run `xacro foo.xacro > foo.urdf` first and drop the resolved URDF instead.",
            ),
        );
        assert(report@.errors =~= given.errors.push(xacro_message()));
        return report;
    }
    match xml::parse_xml(text, true) {
        Err(e) => {
            let mut m = String::from_str("URDF is not valid XML: ");
            m.append(e.as_str());
            let ghost msg = m@;
            report.errors.push(m);
            assert(report@.errors =~= given.errors.push(msg));
            report
        },
        Ok(nodes) => {
            assert(nodes.len() <= usize::MAX);
            inspect_document(&nodes, report, resolver)
        },
    }
}

/// The paths of meshes in a package, as a function.
pub open spec fn package_paths(
    files: Map<Seq<char>, Seq<u8>>,
    keys: Seq<Seq<char>>,
    urdf_rel: Seq<char>,
) -> spec_fn(Seq<char>) -> Option<Seq<char>> {
    |f: Seq<char>| resolved_in(files, keys, f, urdf_rel)
}

/// The report on the URDF of a package.
pub open spec fn inspected_in(
    files: Map<Seq<char>, Seq<u8>>,
    keys: Seq<Seq<char>>,
    urdf_rel: Seq<char>,
) -> Result<ReportView, ErrorView> {
    match vfs::file_at(files, urdf_rel) {
        None => Err(ErrorView::Io("cannot read "@ + urdf_rel + ": not in the package"@)),
        Some(bytes) => Ok(
            inspected(
                text::lossy_text(bytes),
                ReportView {
                    robot_dir: Seq::empty(),
                    urdf_path: urdf_rel,
                    urdfs_in_folder: vfs::urdf_keys(keys),
                    collisions: Seq::empty(),
                    visual_count: 0,
                    warnings: Seq::empty(),
                    errors: Seq::empty(),
                },
                package_paths(files, keys, urdf_rel),
            ),
        ),
    }
}

/// The inspection report for a URDF of an in-memory package. `robot_dir` is
/// empty and every path in the report is a package key.
pub fn inspect_urdf_in(pkg: &MemPackage, urdf_rel: &str) -> (res: Result<InspectionReport, Error>)
    ensures
        match res {
            Ok(r) => inspected_in(pkg@, pkg.file_keys(), urdf_rel@) == Ok::<ReportView, ErrorView>(
                r@,
            ),
            Err(e) => inspected_in(pkg@, pkg.file_keys(), urdf_rel@) == Err::<
                ReportView,
                ErrorView,
            >(e@),
        },
{
    let bytes = match pkg.read(urdf_rel) {
        Some(b) => b,
        None => {
            let mut m = String::from_str("cannot read ");
            m.append(urdf_rel);
            m.append(": not in the package");
            return Err(Error::Io(m));
        },
    };
    let report = InspectionReport::empty(String::new(), String::from_str(urdf_rel), pkg.urdfs());
    let resolver = MeshResolver::Package { pkg, urdf_rel };
    assert(resolver.paths() =~= package_paths(pkg@, pkg.file_keys(), urdf_rel@));
    Ok(inspect_urdf_text(text::from_utf8_lossy(bytes).as_str(), report, &resolver))
}

/// An item is packed exactly when it is a mesh that was found and has a
/// supported extension; every other item carries a warning.
pub proof fn packed_items_have_supported_meshes(
    nodes: Seq<NodeView>,
    link: Seq<char>,
    index: int,
    coll: int,
    resolve: spec_fn(Seq<char>) -> Option<Seq<char>>,
)
    ensures
        ({
            let item = classified(nodes, link, index, coll, resolve);
            &&& item.link_name == link
            &&& item.collision_index == index
            &&& (item.action is Pack) == (item.geometry_type == "mesh"@ && (item.mesh_path matches Some(
                p,
            ) && is_supported(suffix_of(p))))
            &&& (item.action is Pack) == (item.warning is None)
        }),
{
    reveal_strlit("mesh");
    reveal_strlit("unknown");
    reveal_strlit("sphere");
    reveal_strlit("box");
    reveal_strlit("cylinder");
    reveal_strlit("capsule");
    assert("mesh"@.len() == 4);
    assert("unknown"@.len() == 7);
    assert("box"@.len() == 3);
    assert("sphere"@.len() == 6);
    assert("cylinder"@.len() == 8);
    assert("capsule"@.len() == 7);
}

/// How many collisions, and with which mesh file names, does not depend on
/// where meshes are found.
pub proof fn file_names_do_not_depend_on_the_resolver(
    nodes: Seq<NodeView>,
    links: Seq<int>,
    a: spec_fn(Seq<char>) -> Option<Seq<char>>,
    b: spec_fn(Seq<char>) -> Option<Seq<char>>,
)
    ensures
        items_of(nodes, links, a).len() == items_of(nodes, links, b).len(),
        forall|k: int|
            0 <= k < items_of(nodes, links, a).len() ==> (#[trigger] items_of(
                nodes,
                links,
                a,
            )[k]).mesh_filename == items_of(nodes, links, b)[k].mesh_filename,
    decreases links.len(),
{
    if links.len() > 0 {
        file_names_do_not_depend_on_the_resolver(nodes, links.drop_last(), a, b);
        let xa = items_of(nodes, links.drop_last(), a);
        let xb = items_of(nodes, links.drop_last(), b);
        let ya = link_items(nodes, links.last(), a);
        let yb = link_items(nodes, links.last(), b);
        assert forall|k: int| 0 <= k < xa.len() + ya.len() implies (#[trigger] (xa
            + ya)[k]).mesh_filename == (xb + yb)[k].mesh_filename by {
            if k < xa.len() {
                assert((xa + ya)[k] == xa[k]);
            } else {
                assert((xa + ya)[k] == ya[k - xa.len()]);
                assert((xb + yb)[k] == yb[k - xa.len()]);
            }
        }
    }
}

/// The items of a link are its collisions in order: the index of each is its
/// place among them.
pub proof fn items_are_the_collisions_of_their_link(
    nodes: Seq<NodeView>,
    link: int,
    resolve: spec_fn(Seq<char>) -> Option<Seq<char>>,
)
    ensures
        ({
            let items = link_items(nodes, link, resolve);
            &&& items.len() == xml::children_of(nodes, link, "collision"@).len()
            &&& forall|ci: int|
                0 <= ci < items.len() ==> (#[trigger] items[ci]).collision_index == ci
                    && items[ci].link_name == link_name_of(nodes[link])
        }),
{
    let colls = xml::children_of(nodes, link, "collision"@);
    let items = link_items(nodes, link, resolve);
    assert forall|ci: int| 0 <= ci < items.len() implies (#[trigger] items[ci]).collision_index
        == ci && items[ci].link_name == link_name_of(nodes[link]) by {
        packed_items_have_supported_meshes(
            nodes,
            link_name_of(nodes[link]),
            ci,
            colls[ci],
            resolve,
        );
    }
}

/// A scale of three numbers is taken axis by axis, one number for all axes; without a scale
/// a mesh keeps its size.
pub proof fn scales_are_taken_axis_by_axis(x: Seq<char>, y: Seq<char>, z: Seq<char>)
    requires
        numeral::is_number(x),
        numeral::is_number(y),
        numeral::is_number(z),
    ensures
        scale_of(Some(x + " "@ + y + " "@ + z)) == (TripleView { x, y, z }),
        scale_of(Some(x)) == (TripleView { x, y: x, z: x }),
        scale_of(None) == (TripleView { x: "1"@, y: "1"@, z: "1"@ }),
{
    numeral::three_numbers_are_read_in_their_places(x, y, z);
}

/// A scale that is neither one number nor three leaves a mesh at its size.
pub proof fn other_scales_are_ignored(s: Seq<char>)
    requires
        ({
            let w = text::words(s);
            (w.len() != 1 && w.len() != 3) || exists|i: int|
                0 <= i < w.len() && !numeral::is_number(#[trigger] w[i])
        }),
    ensures
        scale_of(Some(s)) == (TripleView { x: "1"@, y: "1"@, z: "1"@ }),
{
}

/// Where an element is and how it is turned is taken from its origin, axis by axis; what
/// the origin does not say is zero.
pub proof fn origins_are_taken_axis_by_axis(
    nodes: Seq<NodeView>,
    o: int,
    key: Seq<char>,
    x: Seq<char>,
    y: Seq<char>,
    z: Seq<char>,
)
    requires
        numeral::is_number(x),
        numeral::is_number(y),
        numeral::is_number(z),
    ensures
        xml::attribute_of(nodes[o], key) == Some(x + " "@ + y + " "@ + z) ==> origin_part(
            nodes,
            Some(o),
            key,
        ) == (TripleView { x, y, z }),
        xml::attribute_of(nodes[o], key) is None ==> origin_part(nodes, Some(o), key) == (
        TripleView { x: "0"@, y: "0"@, z: "0"@ }),
        origin_part(nodes, None, key) == (TripleView { x: "0"@, y: "0"@, z: "0"@ }),
{
    numeral::three_numbers_are_read_in_their_places(x, y, z);
}

/// Every item says where its collision is: its `xyz` is that of the collision's origin,
/// and its `rpy` too.
pub proof fn items_are_where_their_collisions_are(
    nodes: Seq<NodeView>,
    link: Seq<char>,
    index: int,
    coll: int,
    resolve: spec_fn(Seq<char>) -> Option<Seq<char>>,
)
    ensures
        ({
            let item = classified(nodes, link, index, coll, resolve);
            let origin = xml::child_of(nodes, coll, "origin"@);
            &&& item.origin_xyz == origin_part(nodes, origin, "xyz"@)
            &&& item.origin_rpy == origin_part(nodes, origin, "rpy"@)
            &&& item.link_name == link
            &&& item.collision_index == index
        }),
{
}

/// Whether the packing stage reads meshes with the extension `e`.
pub open spec fn is_mesh_extension(e: Seq<char>) -> bool {
    e == "obj"@ || e == "stl"@ || e == "ply"@ || e == "dae"@
}

proof fn lemma_extensions(e: Seq<char>)
    ensures
        is_supported("."@ + e) == is_mesh_extension(e),
        !is_supported(Seq::<char>::empty()),
{
    reveal_strlit(".");
    reveal_strlit("obj");
    reveal_strlit("stl");
    reveal_strlit("ply");
    reveal_strlit("dae");
    reveal_strlit(".obj");
    reveal_strlit(".stl");
    reveal_strlit(".ply");
    reveal_strlit(".dae");
    assert("."@ + "obj"@ =~= ".obj"@);
    assert("."@ + "stl"@ =~= ".stl"@);
    assert("."@ + "ply"@ =~= ".ply"@);
    assert("."@ + "dae"@ =~= ".dae"@);
    let s = "."@ + e;
    assert(s.skip(1) =~= e);
    assert(".obj"@.skip(1) =~= "obj"@);
    assert(".stl"@.skip(1) =~= "stl"@);
    assert(".ply"@.skip(1) =~= "ply"@);
    assert(".dae"@.skip(1) =~= "dae"@);
}

/// A collision with a mesh is an item with the name, the path and the scale of that mesh:
/// it is packed where the mesh is found and has the extension of one, in any case of its
/// letters.
pub proof fn mesh_collisions_are_taken_as_written(
    nodes: Seq<NodeView>,
    link: Seq<char>,
    index: int,
    coll: int,
    g: int,
    m: int,
    filename: Seq<char>,
    resolve: spec_fn(Seq<char>) -> Option<Seq<char>>,
)
    requires
        xml::child_of(nodes, coll, "geometry"@) == Some(g),
        xml::child_of(nodes, g, "mesh"@) == Some(m),
        xml::attribute_of(nodes[m], "filename"@) == Some(filename),
    ensures
        ({
            let item = classified(nodes, link, index, coll, resolve);
            &&& item.geometry_type == "mesh"@
            &&& item.mesh_filename == Some(filename)
            &&& item.mesh_path == resolve(filename)
            &&& item.mesh_scale == scale_of(xml::attribute_of(nodes[m], "scale"@))
            &&& item.action is Pack <==> (resolve(filename) matches Some(p)
                && paths::path_extension(p) matches Some(e) && is_mesh_extension(
                text::lowercase_of(e),
            ))
            &&& !(item.action is Pack) ==> item.action is Error
        }),
{
    if let Some(p) = resolve(filename) {
        if let Some(e) = paths::path_extension(p) {
            lemma_extensions(text::lowercase_of(e));
        }
    }
    lemma_extensions(Seq::empty());
}

/// A per-axis scale of a mesh reaches its item.
pub proof fn meshes_are_scaled_as_written(
    nodes: Seq<NodeView>,
    link: Seq<char>,
    index: int,
    coll: int,
    g: int,
    m: int,
    x: Seq<char>,
    y: Seq<char>,
    z: Seq<char>,
    resolve: spec_fn(Seq<char>) -> Option<Seq<char>>,
)
    requires
        xml::child_of(nodes, coll, "geometry"@) == Some(g),
        xml::child_of(nodes, g, "mesh"@) == Some(m),
        numeral::is_number(x),
        numeral::is_number(y),
        numeral::is_number(z),
    ensures
        ({
            let item = classified(nodes, link, index, coll, resolve);
            let scale = xml::attribute_of(nodes[m], "scale"@);
            &&& scale == Some(x + " "@ + y + " "@ + z) ==> item.mesh_scale == (TripleView { x, y, z })
            &&& scale == Some(x) ==> item.mesh_scale == (TripleView { x, y: x, z: x })
            &&& scale is None ==> item.mesh_scale == (TripleView { x: "1"@, y: "1"@, z: "1"@ })
        }),
{
    scales_are_taken_axis_by_axis(x, y, z);
}

/// A collision without a mesh is removed where it is a sphere, a box, a cylinder or a
/// capsule, the first of these that it has; any other is an error.
pub proof fn other_collisions_are_removed_or_refused(
    nodes: Seq<NodeView>,
    link: Seq<char>,
    index: int,
    coll: int,
    resolve: spec_fn(Seq<char>) -> Option<Seq<char>>,
)
    requires
        xml::child_of(nodes, coll, "geometry"@) matches Some(g) ==> xml::child_of(
            nodes,
            g,
            "mesh"@,
        ) is None,
    ensures
        ({
            let item = classified(nodes, link, index, coll, resolve);
            match xml::child_of(nodes, coll, "geometry"@) {
                None => item.action is Error && item.geometry_type == "unknown"@,
                Some(g) => {
                    let sphere = xml::child_of(nodes, g, "sphere"@) is Some;
                    let cuboid = xml::child_of(nodes, g, "box"@) is Some;
                    let cylinder = xml::child_of(nodes, g, "cylinder"@) is Some;
                    let capsule = xml::child_of(nodes, g, "capsule"@) is Some;
                    &&& sphere ==> item.action is RemoveAlreadySphere && item.geometry_type
                        == "sphere"@
                    &&& !sphere && cuboid ==> item.action is RemovePrimitive && item.geometry_type
                        == "box"@
                    &&& !sphere && !cuboid && cylinder ==> item.action is RemovePrimitive
                        && item.geometry_type == "cylinder"@
                    &&& !sphere && !cuboid && !cylinder && capsule ==> item.action is RemovePrimitive
                        && item.geometry_type == "capsule"@
                    &&& !sphere && !cuboid && !cylinder && !capsule ==> item.action is Error
                        && item.geometry_type == "unknown"@
                },
            }
        }),
        classified(nodes, link, index, coll, resolve).mesh_path is None,
{
}

/// The items of the links hold those of each link.
proof fn lemma_items_hold(
    nodes: Seq<NodeView>,
    links: Seq<int>,
    resolve: spec_fn(Seq<char>) -> Option<Seq<char>>,
    k: int,
    ci: int,
)
    requires
        0 <= k < links.len(),
        0 <= ci < link_items(nodes, links[k], resolve).len(),
    ensures
        items_of(nodes, links, resolve).contains(link_items(nodes, links[k], resolve)[ci]),
    decreases links.len(),
{
    let front = items_of(nodes, links.drop_last(), resolve);
    let last = link_items(nodes, links.last(), resolve);
    let x = link_items(nodes, links[k], resolve)[ci];
    if k < links.len() - 1 {
        lemma_items_hold(nodes, links.drop_last(), resolve, k, ci);
        let a = choose|a: int| 0 <= a < front.len() && front[a] == x;
        assert((front + last)[a] == x);
    } else {
        assert((front + last)[front.len() + ci] == x);
    }
}

/// The items of the links come from their collisions.
proof fn lemma_items_come_from(
    nodes: Seq<NodeView>,
    links: Seq<int>,
    resolve: spec_fn(Seq<char>) -> Option<Seq<char>>,
    a: int,
) -> (at: (int, int))
    requires
        0 <= a < items_of(nodes, links, resolve).len(),
    ensures
        0 <= at.0 < links.len(),
        0 <= at.1 < link_items(nodes, links[at.0], resolve).len(),
        items_of(nodes, links, resolve)[a] == link_items(nodes, links[at.0], resolve)[at.1],
    decreases links.len(),
{
    let front = items_of(nodes, links.drop_last(), resolve);
    if a < front.len() {
        lemma_items_come_from(nodes, links.drop_last(), resolve, a)
    } else {
        (links.len() - 1, a - front.len())
    }
}

/// Every collision of every link of a robot is in its report, under the name of its link
/// and its place among the collisions of that link.
pub proof fn every_collision_is_reported(
    nodes: Seq<NodeView>,
    report: ReportView,
    resolve: spec_fn(Seq<char>) -> Option<Seq<char>>,
    link: int,
    ci: int,
)
    requires
        xml::root_of(nodes) matches Some(root) && nodes[root].name == "robot"@
            && nodes[root].namespace is None && xml::lies_below(nodes, link, root),
        0 <= link < nodes.len(),
        nodes[link].name == "link"@,
        nodes[link].namespace is None,
        0 <= ci < xml::children_of(nodes, link, "collision"@).len(),
    ensures
        inspected_document(nodes, report, resolve).collisions.contains(
            classified(
                nodes,
                link_name_of(nodes[link]),
                ci,
                xml::children_of(nodes, link, "collision"@)[ci],
                resolve,
            ),
        ),
        inspected_document(nodes, report, resolve).errors == report.errors,
        xml::attribute_of(nodes[link], "name"@) matches Some(n) ==> link_name_of(nodes[link]) == n,
{
    reveal_strlit("link");
    let root = xml::root_of(nodes)->0;
    let keep = is_link(nodes, root);
    let links = links_of(nodes, root);
    xml::lemma_select(nodes.len(), keep);
    assert(keep(link));
    assert(links.contains(link));
    let k = choose|k: int| 0 <= k < links.len() && links[k] == link;
    lemma_items_hold(nodes, links, resolve, k, ci);
    let x = link_items(nodes, link, resolve)[ci];
    let new = items_of(nodes, links, resolve);
    let a = choose|a: int| 0 <= a < new.len() && new[a] == x;
    assert((report.collisions + new)[report.collisions.len() + a] == x);
}

/// A report holds the collisions of links only, and keeps what it held before.
pub proof fn only_collisions_are_reported(
    nodes: Seq<NodeView>,
    report: ReportView,
    resolve: spec_fn(Seq<char>) -> Option<Seq<char>>,
    a: int,
)
    requires
        xml::root_of(nodes) is Some,
        0 <= a < inspected_document(nodes, report, resolve).collisions.len(),
    ensures
        a < report.collisions.len() ==> inspected_document(nodes, report, resolve).collisions[a]
            == report.collisions[a],
        a >= report.collisions.len() ==> exists|link: int, ci: int|
            #![trigger xml::children_of(nodes, link, "collision"@)[ci]]
            0 <= link < nodes.len() && nodes[link].name == "link"@ && xml::lies_below(
                nodes,
                link,
                xml::root_of(nodes)->0,
            ) && 0 <= ci < xml::children_of(nodes, link, "collision"@).len() && inspected_document(
                nodes,
                report,
                resolve,
            ).collisions[a] == classified(
                nodes,
                link_name_of(nodes[link]),
                ci,
                xml::children_of(nodes, link, "collision"@)[ci],
                resolve,
            ),
{
    let root = xml::root_of(nodes)->0;
    let links = links_of(nodes, root);
    if a >= report.collisions.len() {
        let (k, ci) = lemma_items_come_from(nodes, links, resolve, a - report.collisions.len());
        let link = links[k];
        xml::lemma_select(nodes.len(), is_link(nodes, root));
        assert(links.contains(link));
        let c = xml::children_of(nodes, link, "collision"@)[ci];
        assert(link_items(nodes, link, resolve)[ci] == classified(
            nodes,
            link_name_of(nodes[link]),
            ci,
            c,
            resolve,
        ));
    }
}

/// Where a `package://` mesh is found: below the directory of the package's name, else
/// below the root, else the one file or directory with its name.
pub proof fn package_meshes_are_found_in_order(
    files: Map<Seq<char>, Seq<u8>>,
    keys: Seq<Seq<char>>,
    name: Seq<char>,
    rel: Seq<char>,
    urdf_rel: Seq<char>,
)
    requires
        !name.contains('/'),
    ensures
        ({
            let found = resolved_in(
                files,
                keys,
                "package://"@ + name + seq!['/'] + rel,
                urdf_rel,
            );
            let first = paths::lexical_join(name, rel);
            let second = paths::lexical_join(Seq::empty(), rel);
            let here = |p: Option<Seq<char>>| p is Some && vfs::exists_at(files, p->0);
            &&& here(first) ==> found == first
            &&& !here(first) && here(second) ==> found == second
            &&& !here(first) && !here(second) && found is Some ==> (keys.contains(found->0)
                || vfs::dir_keys(keys).contains(found->0)) && text::last_piece(found->0, '/')
                == text::last_piece(rel, '/')
        }),
{
    let f = "package://"@ + name + seq!['/'] + rel;
    let rest = name + seq!['/'] + rel;
    reveal_strlit("package://");
    assert(f.subrange(0, 10) =~= "package://"@);
    assert(f.skip(10) =~= rest);
    assert(paths::without_prefix(f, "package://"@) == Some(rest));
    text::lemma_first_char(rest, '/', 0);
    assert(rest[name.len() as int] == '/');
    assert forall|i: int| 0 <= i < name.len() implies rest[i] != '/' by {
        if rest[i] == '/' {
            assert(name[i] == '/');
            assert(name.contains('/'));
        }
    }
    assert(text::first_char(rest, '/', 0) == Some(name.len() as int));
    assert(rest.take(name.len() as int) =~= name);
    assert(rest.skip(name.len() as int + 1) =~= rel);
    assert(text::split_at_char(rest, '/') == Some((name, rel)));
    let base = text::last_piece(rel, '/');
    let a = keys.filter(ends_in(base));
    let b = vfs::dir_keys(keys).filter(ends_in(base));
    let m = a + b;
    if base.len() > 0 && m.len() == 1 {
        if a.len() == 1 {
            assert(m[0] == a[0]);
            assert(a.contains(a[0]));
            keys.lemma_filter_contains_rev(ends_in(base), a[0]);
            keys.lemma_filter_pred(ends_in(base), 0);
        } else {
            assert(m[0] == b[0]);
            assert(b.contains(b[0]));
            vfs::dir_keys(keys).lemma_filter_contains_rev(ends_in(base), b[0]);
            vfs::dir_keys(keys).lemma_filter_pred(ends_in(base), 0);
        }
    }
}

/// A mesh without a scheme is found from the directory of the URDF, or from the root where
/// its path is absolute; it is found exactly where something is there.
pub proof fn relative_meshes_are_found_from_the_urdf(
    files: Map<Seq<char>, Seq<u8>>,
    keys: Seq<Seq<char>>,
    filename: Seq<char>,
    urdf_rel: Seq<char>,
)
    requires
        !text::begins(filename, "package://"@),
        !text::begins(filename, "file://"@),
    ensures
        ({
            let found = resolved_in(files, keys, filename, urdf_rel);
            let at = paths::lexical_join(
                if filename.len() > 0 && filename[0] == '/' {
                    Seq::empty()
                } else {
                    paths::parent(urdf_rel)
                },
                filename,
            );
            &&& found is Some <==> at is Some && vfs::exists_at(files, at->0)
            &&& found is Some ==> found == at
        }),
{
}

/// A `file://` path is taken as it stands.
pub proof fn file_paths_are_taken_as_they_stand(
    files: Map<Seq<char>, Seq<u8>>,
    keys: Seq<Seq<char>>,
    path: Seq<char>,
    urdf_rel: Seq<char>,
)
    ensures
        resolved_in(files, keys, "file://"@ + path, urdf_rel) == Some(path),
{
    let f = "file://"@ + path;
    reveal_strlit("file://");
    reveal_strlit("package://");
    assert(f[0] == 'f');
    if text::begins(f, "package://"@) {
        assert(f.subrange(0, 10)[0] == 'p');
    }
    assert(f.subrange(0, 7) =~= "file://"@);
    assert(f.skip(7) =~= path);
}

/// A URDF is picked wherever it is the only one, or the only one with the name that was
/// asked for.
pub proof fn the_only_urdf_is_picked(urdfs: Seq<Seq<char>>, i: int, name: Seq<char>)
    requires
        0 <= i < urdfs.len(),
        name.len() > 0,
    ensures
        urdfs.len() == 1 ==> selected(urdfs, None) == Ok::<Seq<char>, ErrorView>(urdfs[0]),
        urdfs.len() > 1 ==> selected(urdfs, None) is Err,
        name_of(urdfs[i]) == name && (forall|j: int|
            0 <= j < urdfs.len() && j != i ==> name_of(#[trigger] urdfs[j]) != name) ==> selected(
            urdfs,
            Some(name),
        ) == Ok::<Seq<char>, ErrorView>(urdfs[i]),
        (forall|j: int| 0 <= j < urdfs.len() ==> name_of(#[trigger] urdfs[j]) != name) ==> selected(
            urdfs,
            Some(name),
        ) is Err,
{
    let m = named(urdfs, name);
    if forall|j: int| 0 <= j < urdfs.len() && j != i ==> name_of(#[trigger] urdfs[j]) != name {
        lemma_only_named(urdfs, i, name);
    }
    if forall|j: int| 0 <= j < urdfs.len() ==> name_of(#[trigger] urdfs[j]) != name {
        if m.len() > 0 {
            assert(m.contains(m[0]));
            urdfs.lemma_filter_contains_rev(has_name(name), m[0]);
            urdfs.lemma_filter_pred(has_name(name), 0);
        }
        assert(m.len() == 0);
    }
}

proof fn lemma_only_named(urdfs: Seq<Seq<char>>, i: int, name: Seq<char>)
    requires
        0 <= i < urdfs.len(),
        forall|j: int| 0 <= j < urdfs.len() && j != i ==> name_of(#[trigger] urdfs[j]) != name,
    ensures
        name_of(urdfs[i]) == name ==> named(urdfs, name) == seq![urdfs[i]],
        name_of(urdfs[i]) != name ==> named(urdfs, name).len() == 0,
    decreases urdfs.len(),
{
    let f = urdfs.drop_last();
    f.lemma_filter_push(urdfs.last(), has_name(name));
    assert(f.push(urdfs.last()) =~= urdfs);
    if i < f.len() {
        assert(name_of(urdfs[urdfs.len() - 1]) != name);
        lemma_only_named(f, i, name);
    } else {
        lemma_none_named(f, name);
        assert(named(urdfs, name) =~= if name_of(urdfs[i]) == name {
            seq![urdfs[i]]
        } else {
            Seq::empty()
        });
    }
}

proof fn lemma_none_named(urdfs: Seq<Seq<char>>, name: Seq<char>)
    requires
        forall|j: int| 0 <= j < urdfs.len() ==> name_of(#[trigger] urdfs[j]) != name,
    ensures
        named(urdfs, name).len() == 0,
{
    let m = named(urdfs, name);
    if m.len() > 0 {
        assert(m.contains(m[0]));
        urdfs.lemma_filter_contains_rev(has_name(name), m[0]);
        urdfs.lemma_filter_pred(has_name(name), 0);
    }
}

} // verus!
