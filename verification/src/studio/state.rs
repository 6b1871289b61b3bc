//! What the studio holds: the open object or robot, the packing parameters and
//! the running job, plus the actions that the panels trigger. Results `R` and
//! quality metrics `Q` are carried, not looked into.

use vstd::prelude::*;

use crate::assemble;
use crate::assemble::{RewriteStats, StatsView};
use crate::config;
use crate::config::{PackParams, ParamsView, Settings};
use crate::inspect;
use crate::inspect::{Action, CollisionItem, InspectionReport, ItemView};
use crate::pack;
use crate::studio::document;
use crate::studio::document::OpenedRobot;
use crate::studio::job;
use crate::studio::job::{JobControl, Phase};
use crate::text;
use crate::vfs;
use crate::vfs::MemPackage;
use crate::{EngineError, EngineErrorView, Error, ErrorView};

verus! {

/// Whether the studio works on an object or on a robot.
#[derive(Clone, Copy, Debug, PartialEq, Eq, Structural)]
pub enum Mode {
    Object,
    Robot,
}

/// The packing parameters of the form.
#[derive(Debug)]
pub struct Params {
    pub variant: String,
    pub num_spheres: usize,
    pub iterations: usize,
    pub random_seed: bool,
    pub seed: u64,
    pub device: String,
    /// Mesh preparation: merge overlapping closed bodies before packing.
    pub union_overlapping_bodies: bool,
    /// Mesh preparation: replace each body with its convex hull before merging.
    pub convex_hull: bool,
    /// Dotted keys and JSON values of the advanced overrides.
    pub advanced: Vec<(String, String)>,
}

/// The request that the form makes: without a seed when a random one is
/// wanted.
pub open spec fn request_of(p: Params) -> ParamsView {
    ParamsView {
        variant: p.variant@,
        num_spheres: p.num_spheres as int,
        iterations: p.iterations as int,
        seed: if p.random_seed {
            None
        } else {
            Some(p.seed as int)
        },
        advanced: text::pair_views(p.advanced@),
        union_overlapping_bodies: p.union_overlapping_bodies,
        convex_hull: p.convex_hull,
    }
}

/// A copy of a list of pairs of texts.
fn copy_pairs(v: &[(String, String)]) -> (out: Vec<(String, String)>)
    ensures
        text::pair_views(out@) == text::pair_views(v@),
{
    let mut out: Vec<(String, String)> = Vec::new();
    let mut i: usize = 0;
    while i < v.len()
        invariant
            i <= v@.len(),
            out@.len() == i,
            forall|j: int|
                0 <= j < i ==> (#[trigger] out@[j]).0@ == v@[j].0@ && out@[j].1@ == v@[j].1@,
        decreases v@.len() - i,
    {
        out.push((v[i].0.clone(), v[i].1.clone()));
        i = i + 1;
    }
    assert(text::pair_views(out@) =~= text::pair_views(v@));
    out
}

impl Params {
    /// The form's first values, with the overrides of the preset.
    pub fn new(advanced: Vec<(String, String)>) -> (out: Params)
        ensures
            request_of(out) == (ParamsView {
                variant: "MorphIt-B"@,
                num_spheres: 20,
                iterations: 200,
                seed: Some(42),
                advanced: text::pair_views(advanced@),
                union_overlapping_bodies: true,
                convex_hull: false,
            }),
            out.device@ == "auto"@,
    {
        Params {
            variant: String::from_str("MorphIt-B"),
            num_spheres: 20,
            iterations: 200,
            random_seed: false,
            seed: 42,
            device: String::from_str("auto"),
            union_overlapping_bodies: true,
            convex_hull: false,
            advanced,
        }
    }

    /// The request that the form makes.
    pub fn pack_params(&self) -> (out: PackParams)
        ensures
            out@ == request_of(*self),
    {
        PackParams {
            variant: self.variant.clone(),
            num_spheres: self.num_spheres,
            iterations: self.iterations,
            seed: if self.random_seed {
                None
            } else {
                Some(self.seed)
            },
            advanced: copy_pairs(&self.advanced),
            union_overlapping_bodies: self.union_overlapping_bodies,
            convex_hull: self.convex_hull,
        }
    }
}

/// The result of one collision of a robot.
#[derive(Debug)]
pub struct LinkResult<R> {
    pub link: String,
    pub index: usize,
    pub value: R,
}

/// The contents of a [`LinkResult`].
pub struct LinkResultView<R> {
    pub link: Seq<char>,
    pub index: int,
    pub value: R,
}

impl<R> View for LinkResult<R> {
    type V = LinkResultView<R>;

    open spec fn view(&self) -> LinkResultView<R> {
        LinkResultView { link: self.link@, index: self.index as int, value: self.value }
    }
}

/// The contents of a list of results.
pub open spec fn result_views<R>(v: Seq<LinkResult<R>>) -> Seq<LinkResultView<R>> {
    v.map_values(|r: LinkResult<R>| r@)
}

/// Where the result of `link[index]` is listed, at or after `i`.
pub open spec fn result_place<R>(
    v: Seq<LinkResultView<R>>,
    link: Seq<char>,
    index: int,
    i: int,
) -> Option<int>
    decreases v.len() - i,
{
    if 0 <= i < v.len() {
        if v[i].link == link && v[i].index == index {
            Some(i)
        } else {
            result_place(v, link, index, i + 1)
        }
    } else {
        None
    }
}

/// The results with a new one for `link[index]`.
pub open spec fn with_result<R>(
    v: Seq<LinkResultView<R>>,
    link: Seq<char>,
    index: int,
    value: R,
) -> Seq<LinkResultView<R>> {
    let r = LinkResultView { link, index, value };
    match result_place(v, link, index, 0) {
        Some(i) => v.update(i, r),
        None => v.push(r),
    }
}

/// The results without the one for `link[index]`.
pub open spec fn without_result<R>(v: Seq<LinkResultView<R>>, link: Seq<char>, index: int) -> Seq<
    LinkResultView<R>,
> {
    match result_place(v, link, index, 0) {
        Some(i) => v.remove(i),
        None => v,
    }
}

/// The links and collision indices of the results.
pub open spec fn result_keys<R>(v: Seq<LinkResultView<R>>) -> Seq<(Seq<char>, int)> {
    v.map_values(|r: LinkResultView<R>| (r.link, r.index))
}

/// The links and collision indices of the results.
fn list_keys<R>(v: &[LinkResult<R>]) -> (out: Vec<(String, usize)>)
    ensures
        assemble::key_pairs(out@) == result_keys(result_views(v@)),
{
    let mut out: Vec<(String, usize)> = Vec::new();
    let mut i: usize = 0;
    while i < v.len()
        invariant
            i <= v@.len(),
            out@.len() == i,
            forall|j: int|
                0 <= j < i ==> (#[trigger] out@[j]).0@ == v@[j].link@ && out@[j].1 == v@[j].index,
        decreases v@.len() - i,
    {
        out.push((v[i].link.clone(), v[i].index));
        i = i + 1;
    }
    assert(assemble::key_pairs(out@) =~= result_keys(result_views(v@)));
    out
}

/// Where the result of `link[index]` is listed.
pub fn find_result<R>(v: &[LinkResult<R>], link: &str, index: usize) -> (at: Option<usize>)
    ensures
        text::opt_int(at) == result_place(result_views(v@), link@, index as int, 0),
        at matches Some(i) ==> i < v@.len() && v@[i as int].link@ == link@ && v@[i as int].index
            == index,
{
    let ghost w = result_views(v@);
    let mut i: usize = 0;
    while i < v.len()
        invariant
            i <= v@.len(),
            w == result_views(v@),
            result_place(w, link@, index as int, 0) == result_place(
                w,
                link@,
                index as int,
                i as int,
            ),
        decreases v@.len() - i,
    {
        assert(w[i as int] == v@[i as int]@);
        if text::same(v[i].link.as_str(), link) && v[i].index == index {
            return Some(i);
        }
        i = i + 1;
    }
    None
}

/// Store the result of `link[index]`.
pub fn set_result<R>(v: &mut Vec<LinkResult<R>>, link: &str, index: usize, value: R)
    ensures
        result_views(final(v)@) == with_result(result_views(old(v)@), link@, index as int, value),
{
    let ghost w = result_views(v@);
    let r = LinkResult { link: String::from_str(link), index, value };
    let ghost rv = r@;
    match find_result(v, link, index) {
        Some(i) => {
            let _ = v.remove(i);
            v.insert(i, r);
            assert(result_views(v@) =~= w.update(i as int, rv));
        },
        None => {
            v.push(r);
            assert(result_views(v@) =~= w.push(rv));
        },
    }
}

/// Forget the result of `link[index]`.
pub fn drop_result<R>(v: &mut Vec<LinkResult<R>>, link: &str, index: usize)
    ensures
        result_views(final(v)@) == without_result(result_views(old(v)@), link@, index as int),
{
    let ghost w = result_views(v@);
    match find_result(v, link, index) {
        Some(i) => {
            let _ = v.remove(i);
            assert(result_views(v@) =~= w.remove(i as int));
        },
        None => {},
    }
}

/// The open object.
#[derive(Debug)]
pub struct ObjectDoc<R, Q> {
    pub name: String,
    /// The faces of its mesh.
    pub faces: usize,
    pub result: Option<R>,
    pub quality: Option<Q>,
    /// Export: weld the object to the world.
    pub anchored: bool,
    /// Export: the total mass in kilograms, as it is written.
    pub total_mass: String,
}

/// The open robot.
#[derive(Debug)]
pub struct RobotState<R, Q> {
    pub name: String,
    pub urdfs: Vec<String>,
    pub urdf: String,
    pub report: InspectionReport,
    /// Per collision: whether its mesh is loaded.
    pub loaded: Vec<bool>,
    pub results: Vec<LinkResult<R>>,
    /// Assembled spherical URDF and the summary line.
    pub assembled: Option<(String, String)>,
    pub quality: Option<Q>,
    pub selected: Option<usize>,
}

/// The job that was started last.
#[derive(Debug)]
pub struct JobWatch {
    pub mode: Mode,
    /// `None` for the object, the link and collision index for a robot's item.
    pub items: Vec<Option<(String, usize)>>,
    /// How the user steers it.
    pub control: JobControl,
    /// How many finished packs were picked up.
    pub seen: usize,
}

/// What the running job shows.
#[derive(Debug)]
pub struct Live {
    pub phase: Phase,
    pub item: usize,
    pub items: usize,
    pub device: String,
    pub iteration: usize,
    pub total_iterations: usize,
}

/// The studio.
#[derive(Debug)]
pub struct Studio<R, Q> {
    pub mode: Mode,
    pub params: Params,
    pub object: Option<ObjectDoc<R, Q>>,
    pub robot: Option<RobotState<R, Q>>,
    pub job: Option<JobWatch>,
    pub job_version: u64,
    pub live: Option<Live>,
    /// What is being loaded.
    pub loading: Option<String>,
    pub analyzing: bool,
    /// Status line; `true` for errors.
    pub message: Option<(String, bool)>,
    pub scene_dirty: bool,
    pub spheres_dirty: bool,
    pub results_version: u64,
    /// Start packing once the pending load has finished.
    pub pack_after_load: bool,
}

/// The contents of the status line.
pub open spec fn message_view(m: Option<(String, bool)>) -> Option<(Seq<char>, bool)> {
    match m {
        Some((t, e)) => Some((t@, e)),
        None => None,
    }
}

/// A robot that was loaded.
#[derive(Debug)]
pub struct LoadedRobot {
    pub name: String,
    pub robot: OpenedRobot,
    /// Per collision: whether its mesh is loaded.
    pub loaded: Vec<bool>,
    /// Problems loading meshes.
    pub mesh_errors: Vec<String>,
}

/// What a load produced.
#[derive(Debug)]
pub enum Loaded {
    /// A mesh, with its number of faces and the text of its volume.
    Object { name: String, faces: usize, volume: String },
    Robot(LoadedRobot),
    Failed(String),
    /// The user closed the dialog.
    Nothing,
}

/// The status line for a robot that was loaded.
pub open spec fn robot_message(
    name: Seq<char>,
    urdf: Seq<char>,
    items: Seq<ItemView>,
    errors: Seq<Seq<char>>,
) -> Seq<char> {
    let head = name + ": "@ + urdf + " ("@ + text::decimal(items.len()) + " collisions, "@
        + text::decimal(inspect::packed_items(items).len()) + " to pack)"@;
    if errors.len() > 0 {
        head + "; "@ + text::decimal(errors.len()) + " meshes failed: "@ + text::join(errors, "; "@)
    } else {
        head
    }
}

/// The contents of a key: `None` for the object, a link and a collision index
/// for a robot's item.
pub open spec fn key_view(k: Option<(String, usize)>) -> Option<(Seq<char>, int)> {
    match k {
        Some((l, i)) => Some((l@, i as int)),
        None => None,
    }
}

/// The contents of a list of keys.
pub open spec fn key_views(v: Seq<Option<(String, usize)>>) -> Seq<Option<(Seq<char>, int)>> {
    v.map_values(|k: Option<(String, usize)>| key_view(k))
}

/// The items without a result whose mesh is loaded, among the first `n`.
pub open spec fn unpacked<R>(
    items: Seq<ItemView>,
    loaded: Seq<bool>,
    results: Seq<LinkResultView<R>>,
    n: int,
) -> Seq<ItemView>
    decreases n,
{
    if n <= 0 {
        Seq::empty()
    } else {
        let front = unpacked(items, loaded, results, n - 1);
        let c = items[n - 1];
        if c.action is Pack && n - 1 < loaded.len() && loaded[n - 1] && result_place(
            results,
            c.link_name,
            c.collision_index,
            0,
        ) is None {
            front.push(c)
        } else {
            front
        }
    }
}

/// The items that a pack works on: the selected one if it can be packed, else
/// everything that is not packed yet.
pub open spec fn items_to_pack<R>(
    items: Seq<ItemView>,
    loaded: Seq<bool>,
    results: Seq<LinkResultView<R>>,
    selected: Option<usize>,
) -> Seq<ItemView> {
    match selected {
        Some(i) => if i < items.len() && items[i as int].action is Pack {
            seq![items[i as int]]
        } else {
            unpacked(items, loaded, results, items.len() as int)
        },
        None => unpacked(items, loaded, results, items.len() as int),
    }
}

/// The items that a pack works on.
fn choose_items<R>(
    items: &[CollisionItem],
    loaded: &[bool],
    results: &[LinkResult<R>],
    selected: Option<usize>,
) -> (out: Vec<CollisionItem>)
    ensures
        inspect::item_views(out@) == items_to_pack(
            inspect::item_views(items@),
            loaded@,
            result_views(results@),
            selected,
        ),
{
    let ghost v = inspect::item_views(items@);
    let ghost r = result_views(results@);
    let mut out: Vec<CollisionItem> = Vec::new();
    match selected {
        Some(i) => {
            if i < items.len() && items[i].action == Action::Pack {
                assert(v[i as int] == items@[i as int]@);
                out.push(items[i].clone());
                assert(inspect::item_views(out@) =~= seq![v[i as int]]);
                return out;
            }
            if i < items.len() {
                assert(v[i as int] == items@[i as int]@);
            }
        },
        None => {},
    }
    let mut n: usize = 0;
    assert(inspect::item_views(out@) =~= unpacked(v, loaded@, r, 0));
    while n < items.len()
        invariant
            n <= items@.len(),
            v == inspect::item_views(items@),
            r == result_views(results@),
            inspect::item_views(out@) == unpacked(v, loaded@, r, n as int),
        decreases items@.len() - n,
    {
        assert(v[n as int] == items@[n as int]@);
        if items[n].action == Action::Pack && n < loaded.len() && loaded[n] && find_result(
            results,
            items[n].link_name.as_str(),
            items[n].collision_index,
        ).is_none() {
            let ghost seen = inspect::item_views(out@);
            out.push(items[n].clone());
            assert(inspect::item_views(out@) =~= seen.push(v[n as int]));
        }
        n = n + 1;
    }
    out
}

/// The keys of the items.
pub open spec fn item_keys(items: Seq<ItemView>) -> Seq<Option<(Seq<char>, int)>> {
    items.map_values(|c: ItemView| Some((c.link_name, c.collision_index)))
}

/// The keys of the items.
fn keys_of(items: &[CollisionItem]) -> (out: Vec<Option<(String, usize)>>)
    ensures
        key_views(out@) == item_keys(inspect::item_views(items@)),
{
    let ghost v = inspect::item_views(items@);
    let mut out: Vec<Option<(String, usize)>> = Vec::new();
    let mut i: usize = 0;
    while i < items.len()
        invariant
            i <= items@.len(),
            v == inspect::item_views(items@),
            out@.len() == i,
            forall|j: int|
                0 <= j < i ==> key_view(#[trigger] out@[j]) == Some(
                    (v[j].link_name, v[j].collision_index),
                ),
        decreases items@.len() - i,
    {
        assert(v[i as int] == items@[i as int]@);
        out.push(Some((items[i].link_name.clone(), items[i].collision_index)));
        i = i + 1;
    }
    assert(key_views(out@) =~= item_keys(v));
    out
}

/// What to pack.
#[derive(Debug)]
pub enum JobSpec {
    /// The open object, recorded under this name.
    Object { name: String, settings: Settings },
    /// These items of the open robot.
    Robot { items: Vec<CollisionItem>, params: PackParams, device: String },
}

/// How the model of the open object is written.
#[derive(Debug)]
pub struct ModelRequest {
    pub name: String,
    /// Weld the object to the world.
    pub anchored: bool,
    /// The total mass in kilograms, as it is written.
    pub total_mass: String,
}

/// The contents of a [`ModelRequest`].
pub struct ModelRequestView {
    pub name: Seq<char>,
    pub anchored: bool,
    pub total_mass: Seq<char>,
}

impl View for ModelRequest {
    type V = ModelRequestView;

    open spec fn view(&self) -> ModelRequestView {
        ModelRequestView {
            name: self.name@,
            anchored: self.anchored,
            total_mass: self.total_mass@,
        }
    }
}

/// How the model of `o` is written.
pub open spec fn model_of<R, Q>(o: ObjectDoc<R, Q>) -> ModelRequestView {
    ModelRequestView { name: o.name@, anchored: o.anchored, total_mass: o.total_mass@ }
}

/// What an export writes.
#[derive(Clone, Copy, Debug, PartialEq, Eq, Structural)]
pub enum Export {
    ResultJson,
    Urdf,
    Mjcf,
    SphericalUrdf,
    LinkJson(usize),
}

/// Where the text of an export comes from.
#[derive(Debug)]
pub enum ExportSource {
    /// The result of the object, as JSON.
    ObjectResult,
    /// The object's URDF.
    ObjectUrdf(ModelRequest),
    /// The object's MJCF.
    ObjectMjcf(ModelRequest),
    /// This text.
    Text(String),
    /// The result at this place of the robot's results, as JSON.
    LinkResult(usize),
}

/// The contents of an [`ExportSource`].
pub enum SourceView {
    ObjectResult,
    ObjectUrdf(ModelRequestView),
    ObjectMjcf(ModelRequestView),
    Text(Seq<char>),
    LinkResult(int),
}

impl View for ExportSource {
    type V = SourceView;

    open spec fn view(&self) -> SourceView {
        match self {
            ExportSource::ObjectResult => SourceView::ObjectResult,
            ExportSource::ObjectUrdf(m) => SourceView::ObjectUrdf(m@),
            ExportSource::ObjectMjcf(m) => SourceView::ObjectMjcf(m@),
            ExportSource::Text(t) => SourceView::Text(t@),
            ExportSource::LinkResult(i) => SourceView::LinkResult(*i as int),
        }
    }
}

/// The file name and the source of an export, or why there is none.
pub open spec fn export_of<R, Q>(s: Studio<R, Q>, what: Export) -> Result<
    (Seq<char>, SourceView),
    Seq<char>,
> {
    match what {
        Export::SphericalUrdf => match s.robot {
            None => Err("no robot"@),
            Some(r) => match r.assembled {
                None => Err("assemble first"@),
                Some((t, _)) => Ok(
                    (
                        (match crate::paths::path_stem(r.urdf@) {
                            Some(n) => n,
                            None => "robot"@,
                        }) + "_spherical.urdf"@,
                        SourceView::Text(t@),
                    ),
                ),
            },
        },
        Export::LinkJson(i) => match s.robot {
            None => Err("no robot"@),
            Some(r) => {
                let items = r.report@.collisions;
                if i >= items.len() {
                    Err("no such item"@)
                } else {
                    let c = items[i as int];
                    match result_place(
                        result_views(r.results@),
                        c.link_name,
                        c.collision_index,
                        0,
                    ) {
                        None => Err("not packed"@),
                        Some(k) => Ok(
                            (
                                pack::result_name(c.link_name, c.collision_index as nat),
                                SourceView::LinkResult(k),
                            ),
                        ),
                    }
                }
            },
        },
        _ => match s.object {
            None => Err("no object"@),
            Some(o) => if o.result is None {
                Err("not packed"@)
            } else {
                match what {
                    Export::Urdf => Ok((o.name@ + ".urdf"@, SourceView::ObjectUrdf(model_of(o)))),
                    Export::Mjcf => Ok((o.name@ + ".xml"@, SourceView::ObjectMjcf(model_of(o)))),
                    _ => Ok((o.name@ + ".spheres.json"@, SourceView::ObjectResult)),
                }
            },
        },
    }
}

/// The status line for an assembled URDF.
pub open spec fn assembly_summary(s: StatsView) -> Seq<char> {
    let head = text::decimal(s.sphere_children_added) + " sphere links on "@ + text::decimal(
        s.links_with_collisions_replaced,
    ) + " links; "@ + text::decimal(s.primitive_collisions_removed) + " primitive and "@
        + text::decimal(s.sphere_collisions_removed) + " sphere collisions removed"@;
    if s.skipped_pack_items.len() > 0 {
        head + "; not packed: "@ + assemble::skipped_text(s.skipped_pack_items)
    } else {
        head
    }
}

/// The status line for an assembled URDF.
pub fn summarize(stats: &RewriteStats) -> (out: String)
    ensures
        out@ == assembly_summary(stats@),
{
    let mut out = String::new();
    text::push_decimal_u128(&mut out, stats.sphere_children_added);
    out.append(" sphere links on ");
    text::push_decimal(&mut out, stats.links_with_collisions_replaced);
    out.append(" links; ");
    text::push_decimal(&mut out, stats.primitive_collisions_removed);
    out.append(" primitive and ");
    text::push_decimal(&mut out, stats.sphere_collisions_removed);
    out.append(" sphere collisions removed");
    assert(stats@.skipped_pack_items.len() == stats.skipped_pack_items@.len());
    if stats.skipped_pack_items.len() > 0 {
        out.append("; not packed: ");
        out.append(stats.skipped_summary().as_str());
    }
    assert(out@ =~= assembly_summary(stats@));
    out
}

/// What an analysis works on.
#[derive(Debug)]
pub enum AnalysisPlan {
    /// The result of the object.
    Object,
    /// Places of collisions and of their results.
    Robot(Vec<(usize, usize)>),
}

/// The packed collisions among the first `n` whose mesh is loaded, each with
/// the place of its result.
pub open spec fn scored<R>(
    items: Seq<ItemView>,
    loaded: Seq<bool>,
    results: Seq<LinkResultView<R>>,
    n: int,
) -> Seq<(int, int)>
    decreases n,
{
    if n <= 0 {
        Seq::empty()
    } else {
        let front = scored(items, loaded, results, n - 1);
        let c = items[n - 1];
        match result_place(results, c.link_name, c.collision_index, 0) {
            Some(k) => if n - 1 < loaded.len() && loaded[n - 1] {
                front.push((n - 1, k))
            } else {
                front
            },
            None => front,
        }
    }
}

/// The contents of a list of places.
pub open spec fn place_views(v: Seq<(usize, usize)>) -> Seq<(int, int)> {
    v.map_values(|p: (usize, usize)| (p.0 as int, p.1 as int))
}

/// The packed collisions whose mesh is loaded.
fn choose_scored<R>(items: &[CollisionItem], loaded: &[bool], results: &[LinkResult<R>]) -> (out: Vec<
    (usize, usize),
>)
    ensures
        place_views(out@) == scored(
            inspect::item_views(items@),
            loaded@,
            result_views(results@),
            items@.len() as int,
        ),
{
    let ghost v = inspect::item_views(items@);
    let ghost r = result_views(results@);
    let mut out: Vec<(usize, usize)> = Vec::new();
    let mut n: usize = 0;
    assert(place_views(out@) =~= scored(v, loaded@, r, 0));
    while n < items.len()
        invariant
            n <= items@.len(),
            v == inspect::item_views(items@),
            r == result_views(results@),
            place_views(out@) == scored(v, loaded@, r, n as int),
        decreases items@.len() - n,
    {
        assert(v[n as int] == items@[n as int]@);
        if n < loaded.len() && loaded[n] {
            match find_result(results, items[n].link_name.as_str(), items[n].collision_index) {
                Some(k) => {
                    let ghost seen = place_views(out@);
                    out.push((n, k));
                    assert(place_views(out@) =~= seen.push((n as int, k as int)));
                },
                None => {},
            }
        }
        n = n + 1;
    }
    out
}

/// What an analysis produced.
#[derive(Debug)]
pub enum QualityOut<Q> {
    Object(Q),
    Robot(Q),
    Failed(String),
}

/// One finished pack of a job.
#[derive(Debug)]
pub struct Finished<R> {
    /// `None` for the object, the link and collision index for a robot's item.
    pub key: Option<(String, usize)>,
    pub value: R,
}

/// The contents of a [`Finished`].
pub struct FinishedView<R> {
    pub key: Option<(Seq<char>, int)>,
    pub value: R,
}

impl<R> View for Finished<R> {
    type V = FinishedView<R>;

    open spec fn view(&self) -> FinishedView<R> {
        FinishedView { key: key_view(self.key), value: self.value }
    }
}

/// The contents of a list of finished packs.
pub open spec fn finished_views<R>(v: Seq<Finished<R>>) -> Seq<FinishedView<R>> {
    v.map_values(|f: Finished<R>| f@)
}

/// The object's result after these packs.
pub open spec fn object_after<R>(result: Option<R>, f: Seq<FinishedView<R>>) -> Option<R>
    decreases f.len(),
{
    if f.len() == 0 {
        result
    } else if f.last().key is None {
        Some(f.last().value)
    } else {
        object_after(result, f.drop_last())
    }
}

/// The robot's results after these packs.
pub open spec fn results_after<R>(
    results: Seq<LinkResultView<R>>,
    f: Seq<FinishedView<R>>,
) -> Seq<LinkResultView<R>>
    decreases f.len(),
{
    if f.len() == 0 {
        results
    } else {
        let front = results_after(results, f.drop_last());
        match f.last().key {
            Some((link, index)) => with_result(front, link, index, f.last().value),
            None => front,
        }
    }
}

/// The packs that were not picked up yet.
pub open spec fn fresh<R>(f: Seq<FinishedView<R>>, seen: int) -> Seq<FinishedView<R>> {
    if seen <= f.len() {
        f.skip(seen)
    } else {
        Seq::empty()
    }
}

/// Drop the first `n` elements.
fn drop_front<T>(v: &mut Vec<T>, n: usize)
    ensures
        final(v)@ == (if n <= old(v)@.len() {
            old(v)@.skip(n as int)
        } else {
            Seq::empty()
        }),
{
    let ghost all = v@;
    let mut i: usize = 0;
    assert(v@ =~= all.skip(0));
    while i < n && v.len() > 0
        invariant
            i <= n,
            i <= all.len(),
            v@ == all.skip(i as int),
        decreases n - i,
    {
        let _ = v.remove(0);
        i = i + 1;
        assert(v@ =~= all.skip(i as int));
    }
}

/// Store the object's newest result.
fn take_object_result<R>(result: Option<R>, finished: Vec<Finished<R>>) -> (out: Option<R>)
    ensures
        out == object_after(result, finished_views(finished@)),
{
    let mut finished = finished;
    let ghost all = finished_views(finished@);
    let mut out = result;
    let mut searching = true;
    while searching && finished.len() > 0
        invariant
            finished@.len() <= all.len(),
            finished_views(finished@) == all.take(finished@.len() as int),
            object_after(result, all) == (if searching {
                object_after(result, all.take(finished@.len() as int))
            } else {
                out
            }),
            searching ==> out == result,
        decreases finished@.len(),
    {
        let ghost n = finished@.len();
        let ghost head = finished_views(finished@);
        let f = finished.pop().unwrap();
        assert(head[n - 1] == f@);
        assert(finished_views(finished@) =~= head.drop_last());
        assert(all.take(n - 1) =~= head.drop_last());
        if f.key.is_none() {
            out = Some(f.value);
            searching = false;
        }
    }
    assert(all.take(all.len() as int) =~= all);
    out
}

/// Store the robot's newest results.
fn take_robot_results<R>(results: &mut Vec<LinkResult<R>>, finished: Vec<Finished<R>>)
    ensures
        result_views(final(results)@) == results_after(
            result_views(old(results)@),
            finished_views(finished@),
        ),
{
    let mut finished = finished;
    let ghost all = finished_views(finished@);
    let ghost before = result_views(results@);
    let ghost mut i: int = 0;
    assert(finished_views(finished@) =~= all.skip(0));
    assert(results_after(before, all.take(0)) =~= before);
    while finished.len() > 0
        invariant
            0 <= i <= all.len(),
            finished_views(finished@) == all.skip(i),
            result_views(results@) == results_after(before, all.take(i)),
        decreases finished@.len(),
    {
        let ghost rest = finished_views(finished@);
        let ghost queue = finished@;
        let f = finished.remove(0);
        proof {
            assert(rest.len() == queue.len());
            assert forall|j: int| 0 <= j < finished@.len() implies (
            #[trigger] finished_views(finished@)[j]) == all.skip(i + 1)[j] by {
                assert(finished@[j] == queue[j + 1]);
                assert(rest[j + 1] == queue[j + 1]@);
                assert(all.skip(i)[j + 1] == all[i + (j + 1)]);
                assert(all.skip(i + 1)[j] == all[(i + 1) + j]);
            }
            assert(rest.len() > 0);
            assert(rest[0] == f@);
            assert(rest[0] == all[i]);
            assert(finished_views(finished@) =~= all.skip(i + 1));
            assert(all.take(i + 1).drop_last() =~= all.take(i));
            i = i + 1;
        }
        match f.key {
            Some(k) => {
                set_result(results, k.0.as_str(), k.1, f.value);
            },
            None => {},
        }
    }
    assert(finished_views(finished@).len() == 0);
    assert(all.take(i) =~= all);
}

/// What a job reports.
#[derive(Debug)]
pub struct JobStatus<R> {
    pub phase: Phase,
    pub item: usize,
    pub items: usize,
    pub device: String,
    pub iteration: usize,
    pub total_iterations: usize,
    pub error: Option<String>,
    pub finished: Vec<Finished<R>>,
}

/// What a job packs, for the status line.
pub open spec fn job_label(mode: Mode, object: Option<Seq<char>>, items: nat) -> Seq<char> {
    match mode {
        Mode::Object => match object {
            Some(n) => n,
            None => "object"@,
        },
        Mode::Robot => text::decimal(items) + " collision meshes"@,
    }
}

/// The status line that a job's phase brings.
pub open spec fn job_message<R>(
    mode: Mode,
    object: Option<Seq<char>>,
    st: JobStatus<R>,
    before: Option<(Seq<char>, bool)>,
) -> Option<(Seq<char>, bool)> {
    match st.phase {
        Phase::Done => Some(
            (
                "Packed "@ + job_label(mode, object, st.items as nat) + " in "@ + text::decimal(
                    st.iteration as nat,
                ) + " iterations on "@ + st.device@ + "."@,
                false,
            ),
        ),
        Phase::Cancelled => Some(("Cancelled."@, false)),
        Phase::Failed => Some(
            (
                match st.error {
                    Some(e) => e@,
                    None => "failed"@,
                },
                true,
            ),
        ),
        _ => before,
    }
}

/// Where the spheres of a group come from.
#[derive(Clone, Copy, Debug, PartialEq, Eq, Structural)]
pub enum SphereSource {
    /// The running job.
    Live,
    /// The object's result.
    Object,
    /// The result at this place of the robot's results.
    Link(usize),
}

/// The signature of spheres that come from the running job.
pub open spec fn live_signature(version: u64) -> u64 {
    (version << 1u64) | 1
}

/// The signature of spheres that come from a stored result.
pub open spec fn stored_signature(version: u64) -> u64 {
    version << 1u64
}

/// Spheres of the running job and of a stored result never share a signature.
pub proof fn live_and_stored_spheres_differ(job_version: u64, results_version: u64)
    ensures
        live_signature(job_version) != stored_signature(results_version),
{
    assert((job_version << 1u64) | 1 != results_version << 1u64) by (bit_vector);
}

/// The first `n` items' links, each once, in order of their first item.
pub open spec fn distinct_links(items: Seq<ItemView>, n: int) -> Seq<Seq<char>>
    decreases n,
{
    if n <= 0 {
        Seq::empty()
    } else {
        let front = distinct_links(items, n - 1);
        if front.contains(items[n - 1].link_name) {
            front
        } else {
            front.push(items[n - 1].link_name)
        }
    }
}

/// A sphere group's step on the way through the hues of `steps` links.
#[derive(Debug)]
pub struct GroupStep {
    pub key: Option<(String, usize)>,
    /// The place of the item's link.
    pub step: usize,
    pub steps: usize,
}

/// Whether `g` is the step of `c` among `links`.
pub open spec fn is_step(g: GroupStep, c: ItemView, links: Seq<Seq<char>>) -> bool {
    &&& key_view(g.key) == Some((c.link_name, c.collision_index))
    &&& g.steps == links.len()
    &&& g.step < links.len()
    &&& links[g.step as int] == c.link_name
}

/// The links of the items, each once.
fn list_links(items: &[CollisionItem]) -> (out: Vec<String>)
    ensures
        text::texts(out@) == distinct_links(inspect::item_views(items@), items@.len() as int),
        forall|i: int| 0 <= i < items@.len() ==> text::texts(out@).contains((#[trigger] items@[i]).link_name@),
{
    let ghost v = inspect::item_views(items@);
    let mut out: Vec<String> = Vec::new();
    let mut n: usize = 0;
    assert(text::texts(out@) =~= distinct_links(v, 0));
    while n < items.len()
        invariant
            n <= items@.len(),
            v == inspect::item_views(items@),
            text::texts(out@) == distinct_links(v, n as int),
            forall|i: int|
                0 <= i < n ==> text::texts(out@).contains((#[trigger] items@[i]).link_name@),
        decreases items@.len() - n,
    {
        assert(v[n as int] == items@[n as int]@);
        let ghost seen = text::texts(out@);
        let link = items[n].link_name.as_str();
        match place_of(&out, link) {
            Some(k) => {
                assert(seen[k as int] == link@);
            },
            None => {
                out.push(String::from_str(link));
                assert(text::texts(out@) =~= seen.push(link@));
                assert(text::texts(out@)[seen.len() as int] == link@);
                assert forall|i: int| 0 <= i < n implies text::texts(out@).contains(
                    (#[trigger] items@[i]).link_name@,
                ) by {
                    let k = choose|k: int|
                        0 <= k < seen.len() && seen[k] == items@[i].link_name@;
                    assert(text::texts(out@)[k] == items@[i].link_name@);
                }
            },
        }
        n = n + 1;
    }
    out
}

/// Where `s` is listed.
fn place_of(v: &[String], s: &str) -> (at: Option<usize>)
    ensures
        match at {
            Some(i) => i < v@.len() && v@[i as int]@ == s@,
            None => !text::texts(v@).contains(s@),
        },
{
    let mut i: usize = 0;
    while i < v.len()
        invariant
            i <= v@.len(),
            forall|j: int| 0 <= j < i ==> (#[trigger] v@[j])@ != s@,
        decreases v@.len() - i,
    {
        if text::same(v[i].as_str(), s) {
            return Some(i);
        }
        i = i + 1;
    }
    assert forall|j: int| 0 <= j < v@.len() implies (#[trigger] text::texts(v@)[j]) != s@ by {
        assert(v@[j]@ != s@);
    }
    None
}

/// The steps of the items' groups through the hues of their links.
pub fn group_steps(items: &[CollisionItem]) -> (out: Vec<GroupStep>)
    ensures
        out@.len() == items@.len(),
        forall|i: int|
            0 <= i < items@.len() ==> is_step(
                #[trigger] out@[i],
                items@[i]@,
                distinct_links(inspect::item_views(items@), items@.len() as int),
            ),
{
    let links = list_links(items);
    let ghost l = text::texts(links@);
    let mut out: Vec<GroupStep> = Vec::new();
    let mut i: usize = 0;
    while i < items.len()
        invariant
            i <= items@.len(),
            out@.len() == i,
            l == text::texts(links@),
            forall|j: int|
                0 <= j < items@.len() ==> l.contains((#[trigger] items@[j]).link_name@),
            forall|j: int| 0 <= j < i ==> is_step(#[trigger] out@[j], items@[j]@, l),
        decreases items@.len() - i,
    {
        let link = items[i].link_name.as_str();
        assert(l.contains(items@[i as int].link_name@));
        let step: usize = match place_of(&links, link) {
            Some(k) => k,
            None => 0,
        };
        assert(l[step as int] == link@);
        out.push(
            GroupStep {
                key: Some((items[i].link_name.clone(), items[i].collision_index)),
                step,
                steps: links.len(),
            },
        );
        i = i + 1;
    }
    out
}

/// No collision has two results.
pub open spec fn distinct_results<R>(v: Seq<LinkResultView<R>>) -> bool {
    forall|i: int, j: int|
        0 <= i < j < v.len() ==> (#[trigger] v[i]).link != (#[trigger] v[j]).link || v[i].index
            != v[j].index
}

/// Where [`result_place`] finds a result, and that there is none before it.
proof fn lemma_result_place<R>(v: Seq<LinkResultView<R>>, link: Seq<char>, index: int, from: int)
    requires
        0 <= from <= v.len(),
    ensures
        match result_place(v, link, index, from) {
            Some(k) => from <= k < v.len() && v[k].link == link && v[k].index == index && forall|
                j: int,
            |
                from <= j < k ==> (#[trigger] v[j]).link != link || v[j].index != index,
            None => forall|j: int|
                from <= j < v.len() ==> (#[trigger] v[j]).link != link || v[j].index != index,
        },
    decreases v.len() - from,
{
    if from < v.len() {
        lemma_result_place(v, link, index, from + 1);
    }
}

/// Storing a result keeps the results distinct.
proof fn lemma_with_result_distinct<R>(
    v: Seq<LinkResultView<R>>,
    link: Seq<char>,
    index: int,
    value: R,
)
    requires
        distinct_results(v),
    ensures
        distinct_results(with_result(v, link, index, value)),
{
    lemma_result_place(v, link, index, 0);
}

/// After every report, also one under a version that was seen before, the studio is
/// running a job exactly when the report says that it is at work.
pub proof fn reports_tell_whether_a_job_runs<R, Q>(
    s: Studio<R, Q>,
    new: Studio<R, Q>,
    version: u64,
    st: JobStatus<R>,
)
    requires
        s.job is Some,
        s.job_polled(new, version, st),
    ensures
        new.has_job() == job::is_active(st.phase),
{
}

/// The spheres of a collision are those of its result, and there are none where it has
/// no result.
pub proof fn results_give_their_spheres<R>(
    v: Seq<LinkResultView<R>>,
    placed: Seq<Seq<assemble::SphereView>>,
    link: Seq<char>,
    index: int,
)
    requires
        distinct_results(v),
        placed.len() == v.len(),
    ensures
        (assemble::placed_source(result_keys(v), placed).found)(link, index) == Ok::<
            Option<Seq<assemble::SphereView>>,
            ErrorView,
        >(
            match result_place(v, link, index, 0) {
                Some(k) => Some(placed[k]),
                None => None,
            },
        ),
{
    lemma_result_place(v, link, index, 0);
    lemma_placed_result(v, placed, link, index, v.len() as int);
}

/// Among the first `n` results, the one of `link[index]` gives its spheres.
proof fn lemma_placed_result<R>(
    v: Seq<LinkResultView<R>>,
    placed: Seq<Seq<assemble::SphereView>>,
    link: Seq<char>,
    index: int,
    n: int,
)
    requires
        distinct_results(v),
        0 <= n <= v.len(),
    ensures
        assemble::placed_at(result_keys(v), placed, link, index, n) == (match result_place(
            v,
            link,
            index,
            0,
        ) {
            Some(k) => if k < n {
                Some(placed[k])
            } else {
                None
            },
            None => None,
        }),
    decreases n,
{
    lemma_result_place(v, link, index, 0);
    if n > 0 {
        lemma_placed_result(v, placed, link, index, n - 1);
        assert(result_keys(v)[n - 1] == (v[n - 1].link, v[n - 1].index));
        match result_place(v, link, index, 0) {
            Some(k) => {
                if k < n - 1 {
                    assert(v[k].link != v[n - 1].link || v[k].index != v[n - 1].index);
                }
            },
            None => {},
        }
    }
}

/// Picking up packs keeps the results distinct.
proof fn lemma_results_after_distinct<R>(
    results: Seq<LinkResultView<R>>,
    f: Seq<FinishedView<R>>,
)
    requires
        distinct_results(results),
    ensures
        distinct_results(results_after(results, f)),
    decreases f.len(),
{
    if f.len() > 0 {
        lemma_results_after_distinct(results, f.drop_last());
        let front = results_after(results, f.drop_last());
        match f.last().key {
            Some((link, index)) => lemma_with_result_distinct(front, link, index, f.last().value),
            None => {},
        }
    }
}

/// A stored result is the one found for its collision.
pub proof fn a_stored_result_is_found<R>(
    v: Seq<LinkResultView<R>>,
    link: Seq<char>,
    index: int,
    value: R,
)
    ensures
        ({
            let w = with_result(v, link, index, value);
            result_place(w, link, index, 0) matches Some(k) && 0 <= k < w.len() && w[k].value
                == value
        }),
{
    let w = with_result(v, link, index, value);
    lemma_result_place(v, link, index, 0);
    lemma_result_place(w, link, index, 0);
    match result_place(v, link, index, 0) {
        Some(i) => {
            assert(w[i].link == link && w[i].index == index);
        },
        None => {
            assert(w[v.len() as int].link == link && w[v.len() as int].index == index);
        },
    }
}

/// Storing a result leaves what is found for every other collision.
pub proof fn other_results_stay<R>(
    v: Seq<LinkResultView<R>>,
    link: Seq<char>,
    index: int,
    value: R,
    other: Seq<char>,
    other_index: int,
)
    requires
        other != link || other_index != index,
    ensures
        ({
            let w = with_result(v, link, index, value);
            match result_place(v, other, other_index, 0) {
                Some(k) => result_place(w, other, other_index, 0) == Some(k) && w[k] == v[k],
                None => result_place(w, other, other_index, 0) is None,
            }
        }),
{
    let w = with_result(v, link, index, value);
    lemma_result_place(v, link, index, 0);
    lemma_result_place(v, other, other_index, 0);
    lemma_result_place(w, other, other_index, 0);
    match result_place(v, other, other_index, 0) {
        Some(k) => {
            assert(w[k] == v[k]);
            let m = result_place(w, other, other_index, 0)->0;
            if m < k {
                assert(w[m] == v[m] || (w[m].link == link && w[m].index == index));
            }
        },
        None => {
            match result_place(w, other, other_index, 0) {
                Some(m) => {
                    assert(w[m].link == link && w[m].index == index || w[m] == v[m]);
                },
                None => {},
            }
        },
    }
}

/// A result that was forgotten is not found again.
pub proof fn a_forgotten_result_is_gone<R>(
    v: Seq<LinkResultView<R>>,
    link: Seq<char>,
    index: int,
)
    requires
        distinct_results(v),
    ensures
        result_place(without_result(v, link, index), link, index, 0) is None,
        distinct_results(without_result(v, link, index)),
{
    let w = without_result(v, link, index);
    lemma_result_place(v, link, index, 0);
    lemma_result_place(w, link, index, 0);
    match result_place(v, link, index, 0) {
        Some(i) => {
            assert forall|j: int| 0 <= j < w.len() implies (#[trigger] w[j]).link != link
                || w[j].index != index by {
                if j < i {
                    assert(w[j] == v[j]);
                } else {
                    assert(w[j] == v[j + 1]);
                }
            }
        },
        None => {},
    }
}

/// The status line after a save has ended, where `before` was shown.
pub open spec fn save_note(
    outcome: Result<Option<String>, String>,
    before: Option<(Seq<char>, bool)>,
) -> Option<(Seq<char>, bool)> {
    match outcome {
        Ok(Some(path)) => Some(("Saved "@ + path@, false)),
        Ok(None) => before,
        Err(e) => Some((e@, true)),
    }
}

impl<R, Q> Studio<R, Q> {
    /// Whether a job is at work.
    pub open spec fn has_job(&self) -> bool {
        match self.job {
            Some(j) => job::is_active(j.control.phase),
            None => false,
        }
    }

    /// The selected row is one of the report, and no collision has two
    /// results.
    pub open spec fn well_formed(&self) -> bool {
        match self.robot {
            Some(r) => {
                &&& distinct_results(result_views(r.results@))
                &&& match r.selected {
                    Some(i) => i < r.report.collisions@.len(),
                    None => true,
                }
            },
            None => true,
        }
    }

    /// An empty studio.
    pub fn new(params: Params) -> (out: Self)
        ensures
            out.mode == Mode::Object,
            out.params == params,
            out.object is None,
            out.robot is None,
            out.job is None,
            out.live is None,
            out.loading is None,
            out.message is None,
            !out.analyzing,
            !out.scene_dirty,
            !out.spheres_dirty,
            out.job_version == 0,
            out.results_version == 1,
            !out.pack_after_load,
            out.well_formed(),
    {
        Studio {
            mode: Mode::Object,
            params,
            object: None,
            robot: None,
            job: None,
            job_version: 0,
            live: None,
            loading: None,
            analyzing: false,
            message: None,
            scene_dirty: false,
            spheres_dirty: false,
            results_version: 1,
            pack_after_load: false,
        }
    }

    /// Show a status line.
    pub fn say(&mut self, text: String, error: bool)
        ensures
            message_view(final(self).message) == Some((text@, error)),
            *final(self) == (Studio { message: final(self).message, ..*old(self) }),
    {
        self.message = Some((text, error));
    }

    /// Whether a job is at work.
    pub fn job_running(&self) -> (yes: bool)
        ensures
            yes == self.has_job(),
    {
        match &self.job {
            Some(j) => j.control.is_running(),
            None => false,
        }
    }

    /// Whether something is being loaded or packed.
    pub fn busy(&self) -> (yes: bool)
        ensures
            yes == (self.loading is Some || self.has_job()),
    {
        self.loading.is_some() || self.job_running()
    }

    /// Start loading something; `what` is shown meanwhile.
    pub fn load(&mut self, what: &str)
        ensures
            text::opt_text(final(self).loading) == Some(what@),
            message_view(final(self).message) == Some(("Loading "@ + what@ + "\u{2026}"@, false)),
            *final(self) == (Studio {
                loading: final(self).loading,
                message: final(self).message,
                ..*old(self)
            }),
    {
        let mut m = String::from_str("Loading ");
        m.append(what);
        m.append("\u{2026}");
        self.message = Some((m, false));
        self.loading = Some(String::from_str(what));
    }

    /// Work on the other kind of document.
    pub fn set_mode(&mut self, mode: Mode)
        ensures
            *final(self) == (if old(self).mode != mode {
                Studio { mode, scene_dirty: true, ..*old(self) }
            } else {
                *old(self)
            }),
    {
        if self.mode != mode {
            self.mode = mode;
            self.scene_dirty = true;
        }
    }

    /// What is held after a load is taken over.
    pub open spec fn opened_as(self, new: Studio<R, Q>, loaded: Loaded) -> bool {
        &&& new.live is None
        &&& new.scene_dirty
        &&& new.params == self.params
        &&& new.job == self.job
        &&& new.job_version == self.job_version
        &&& new.loading == self.loading
        &&& new.analyzing == self.analyzing
        &&& new.spheres_dirty == self.spheres_dirty
        &&& new.results_version == self.results_version
        &&& new.pack_after_load == self.pack_after_load
        &&& match loaded {
                Loaded::Object { name, faces, volume } => {
                    &&& new.mode == Mode::Object
                    &&& new.robot == self.robot
                    &&& new.object matches Some(o) && o.name@ == name@ && o.faces == faces
                        && o.result is None && o.quality is None && !o.anchored && o.total_mass@
                        == "1"@
                    &&& message_view(new.message) == Some(
                        (
                            name@ + ": "@ + text::decimal(faces as nat) + " faces, volume "@
                                + volume@,
                            false,
                        ),
                    )
                },
                Loaded::Robot(d) => {
                    &&& new.mode == Mode::Robot
                    &&& new.object == self.object
                    &&& new.robot matches Some(r) && {
                        &&& r.name@ == d.name@
                        &&& r.urdf == d.robot.urdf
                        &&& r.urdfs == d.robot.urdfs
                        &&& r.report == d.robot.report
                        &&& r.loaded == d.loaded
                        &&& r.results@.len() == 0
                        &&& r.assembled is None
                        &&& r.quality is None
                        &&& r.selected is None
                    }
                    &&& message_view(new.message) == Some(
                        (
                            robot_message(
                                d.name@,
                                d.robot.urdf@,
                                d.robot.report@.collisions,
                                text::texts(d.mesh_errors@),
                            ),
                            d.mesh_errors@.len() > 0,
                        ),
                    )
                },
                Loaded::Failed(e) => {
                    &&& new.mode == self.mode
                    &&& new.object == self.object
                    &&& new.robot == self.robot
                    &&& message_view(new.message) == Some((e@, true))
                },
                Loaded::Nothing => {
                    &&& new.mode == self.mode
                    &&& new.object == self.object
                    &&& new.robot == self.robot
                    &&& new.message is None
                },
            }
    }

    /// Take over what a load produced.
    pub fn opened(&mut self, loaded: Loaded)
        requires
            old(self).well_formed(),
        ensures
            final(self).well_formed(),
            old(self).opened_as(*final(self), loaded),
    {
        match loaded {
            Loaded::Object { name, faces, volume } => {
                let mut m = name.clone();
                m.append(": ");
                text::push_decimal(&mut m, faces);
                m.append(" faces, volume ");
                m.append(volume.as_str());
                self.message = Some((m, false));
                self.object = Some(
                    ObjectDoc {
                        name,
                        faces,
                        result: None,
                        quality: None,
                        anchored: false,
                        total_mass: String::from_str("1"),
                    },
                );
                self.mode = Mode::Object;
            },
            Loaded::Robot(d) => {
                let packs = d.robot.report.to_pack();
                assert(inspect::item_views(packs@).len() == packs@.len());
                assert(d.robot.report@.collisions.len() == d.robot.report.collisions@.len());
                assert(text::texts(d.mesh_errors@).len() == d.mesh_errors@.len());
                let mut m = d.name.clone();
                m.append(": ");
                m.append(d.robot.urdf.as_str());
                m.append(" (");
                text::push_decimal(&mut m, d.robot.report.collisions.len());
                m.append(" collisions, ");
                text::push_decimal(&mut m, packs.len());
                m.append(" to pack)");
                let failed = d.mesh_errors.len() > 0;
                if failed {
                    m.append("; ");
                    text::push_decimal(&mut m, d.mesh_errors.len());
                    m.append(" meshes failed: ");
                    m.append(text::join_with(&d.mesh_errors, "; ").as_str());
                }
                self.message = Some((m, failed));
                let results: Vec<LinkResult<R>> = Vec::new();
                self.robot = Some(
                    RobotState {
                        name: d.name,
                        urdfs: d.robot.urdfs,
                        urdf: d.robot.urdf,
                        report: d.robot.report,
                        loaded: d.loaded,
                        results,
                        assembled: None,
                        quality: None,
                        selected: None,
                    },
                );
                self.mode = Mode::Robot;
            },
            Loaded::Failed(e) => {
                self.message = Some((e, true));
            },
            Loaded::Nothing => {
                self.message = None;
            },
        }
        self.live = None;
        self.scene_dirty = true;
    }

    /// The file name and the source of an export, or why there is none.
    pub fn export(&self, what: Export) -> (res: Result<(String, ExportSource), String>)
        ensures
            match res {
                Ok((n, s)) => export_of(*self, what) == Ok::<(Seq<char>, SourceView), Seq<char>>(
                    (n@, s@),
                ),
                Err(m) => export_of(*self, what) == Err::<(Seq<char>, SourceView), Seq<char>>(m@),
            },
    {
        match what {
            Export::SphericalUrdf => match &self.robot {
                None => Err(String::from_str("no robot")),
                Some(r) => match &r.assembled {
                    None => Err(String::from_str("assemble first")),
                    Some(a) => {
                        let mut name = match crate::paths::file_stem_of(r.urdf.as_str()) {
                            Some(n) => n,
                            None => String::from_str("robot"),
                        };
                        name.append("_spherical.urdf");
                        Ok((name, ExportSource::Text(a.0.clone())))
                    },
                },
            },
            Export::LinkJson(i) => match &self.robot {
                None => Err(String::from_str("no robot")),
                Some(r) => {
                    assert(r.report@.collisions.len() == r.report.collisions@.len());
                    if i >= r.report.collisions.len() {
                        return Err(String::from_str("no such item"));
                    }
                    let c = &r.report.collisions[i];
                    assert(r.report@.collisions[i as int] == c@);
                    match find_result(&r.results, c.link_name.as_str(), c.collision_index) {
                        None => Err(String::from_str("not packed")),
                        Some(k) => Ok(
                            (
                                pack::json_filename(c.link_name.as_str(), c.collision_index),
                                ExportSource::LinkResult(k),
                            ),
                        ),
                    }
                },
            },
            _ => match &self.object {
                None => Err(String::from_str("no object")),
                Some(o) => {
                    if o.result.is_none() {
                        return Err(String::from_str("not packed"));
                    }
                    let mut name = o.name.clone();
                    let model = ModelRequest {
                        name: o.name.clone(),
                        anchored: o.anchored,
                        total_mass: o.total_mass.clone(),
                    };
                    match what {
                        Export::Urdf => {
                            name.append(".urdf");
                            Ok((name, ExportSource::ObjectUrdf(model)))
                        },
                        Export::Mjcf => {
                            name.append(".xml");
                            Ok((name, ExportSource::ObjectMjcf(model)))
                        },
                        _ => {
                            name.append(".spheres.json");
                            Ok((name, ExportSource::ObjectResult))
                        },
                    }
                },
            },
        }
    }
}

impl<R, Q> Studio<R, Q> {
    /// What loading is in progress.
    pub fn loading(&self) -> (what: Option<&str>)
        ensures
            text::opt_str(what) == text::opt_text(self.loading),
    {
        match &self.loading {
            Some(w) => Some(w.as_str()),
            None => None,
        }
    }

    /// Take over what the pending load produced; whether to start packing it.
    pub fn load_done(&mut self, loaded: Loaded) -> (pack: bool)
        requires
            old(self).well_formed(),
        ensures
            final(self).well_formed(),
            pack == old(self).pack_after_load,
            (Studio { loading: None, pack_after_load: false, ..*old(self) }).opened_as(
                *final(self),
                loaded,
            ),
    {
        let pack = self.pack_after_load;
        self.loading = None;
        self.pack_after_load = false;
        self.opened(loaded);
        pack
    }

    /// The robot item that the running job is packing.
    pub open spec fn live_item(&self) -> Option<(Seq<char>, int)> {
        match (self.job, self.live) {
            (Some(j), Some(l)) => if self.has_job() && j.mode == Mode::Robot && l.item
                < j.items@.len() {
                key_view(j.items@[l.item as int])
            } else {
                None
            },
            _ => None,
        }
    }

    /// The robot item that the running job is packing.
    pub fn live_key(&self) -> (key: Option<(String, usize)>)
        ensures
            key_view(key) == self.live_item(),
    {
        if !self.job_running() {
            return None;
        }
        match &self.job {
            Some(j) => match &self.live {
                Some(l) => if j.mode == Mode::Robot && l.item < j.items.len() {
                    match &j.items[l.item] {
                        Some(k) => Some((k.0.clone(), k.1)),
                        None => None,
                    }
                } else {
                    None
                },
                None => None,
            },
            None => None,
        }
    }

    /// Whether the running job shows the spheres of the group `key`.
    pub open spec fn shows_live(&self, key: Option<(Seq<char>, int)>) -> bool {
        match (self.job, self.live) {
            (Some(j), Some(l)) => self.has_job() && j.mode == self.mode && l.item < j.items@.len()
                && key_view(j.items@[l.item as int]) == key && (l.phase is Running || l.phase
                is Paused),
            _ => false,
        }
    }

    /// Where the spheres of the group `key` come from, with a signature.
    pub open spec fn spheres_of(&self, key: Option<(Seq<char>, int)>) -> Option<
        (u64, SphereSource),
    > {
        if self.shows_live(key) {
            Some((live_signature(self.job_version), SphereSource::Live))
        } else {
            match key {
                None => match self.object {
                    Some(o) => if o.result is Some {
                        Some((stored_signature(self.results_version), SphereSource::Object))
                    } else {
                        None
                    },
                    None => None,
                },
                Some((link, index)) => match self.robot {
                    Some(r) => match result_place(result_views(r.results@), link, index, 0) {
                        Some(k) => Some(
                            (stored_signature(self.results_version), SphereSource::Link(k as usize)),
                        ),
                        None => None,
                    },
                    None => None,
                },
            }
        }
    }

    /// Where the spheres of a group come from, with a signature of their
    /// source.
    pub fn spheres_for(&self, key: Option<(&str, usize)>) -> (out: Option<(u64, SphereSource)>)
        ensures
            out == self.spheres_of(
                match key {
                    Some((l, i)) => Some((l@, i as int)),
                    None => None,
                },
            ),
    {
        let running = self.job_running();
        let live = match &self.job {
            Some(j) => match &self.live {
                Some(l) => if running && j.mode == self.mode && l.item < j.items.len() && (l.phase
                    == Phase::Running || l.phase == Phase::Paused) {
                    match (&j.items[l.item], key) {
                        (Some(k), Some(w)) => text::same(k.0.as_str(), w.0) && k.1 == w.1,
                        (None, None) => true,
                        _ => false,
                    }
                } else {
                    false
                },
                None => false,
            },
            None => false,
        };
        if live {
            return Some(((self.job_version << 1u64) | 1, SphereSource::Live));
        }
        let signature: u64 = self.results_version << 1u64;
        match key {
            None => match &self.object {
                Some(o) => if o.result.is_some() {
                    Some((signature, SphereSource::Object))
                } else {
                    None
                },
                None => None,
            },
            Some(w) => match &self.robot {
                Some(r) => match find_result(&r.results, w.0, w.1) {
                    Some(k) => Some((signature, SphereSource::Link(k))),
                    None => None,
                },
                None => None,
            },
        }
    }

    /// Whether `spec` asks for a pack of the open object.
    pub open spec fn asks_for_object(self, spec: JobSpec) -> bool {
        spec matches JobSpec::Object { name, settings } && {
            &&& name@ == self.object->0.name@
            &&& settings.is_for(request_of(self.params), self.params.device@, ""@)
            &&& settings.output_filename@ == self.object->0.name@ + ".json"@
        }
    }

    /// Whether `new` is this studio after a pack of the object was started.
    pub open spec fn packs_object(self, new: Studio<R, Q>) -> bool {
        &&& new.object == Some(
            ObjectDoc { result: None::<R>, quality: None::<Q>, ..self.object->0 },
        )
        &&& new.robot == self.robot
        &&& key_views(new.job->0.items@) == seq![None::<(Seq<char>, int)>]
    }

    /// Whether `new` is this studio after the optimizer took the settings of an
    /// object's pack, or refused them.
    pub open spec fn object_pack_step(
        self,
        new: Studio<R, Q>,
        refused: Option<EngineErrorView>,
    ) -> bool {
        match self.object {
            None => new == self,
            Some(_) => match refused {
                Some(e) => {
                    &&& message_view(new.message) == Some((e.message, true))
                    &&& new == (Studio { message: new.message, ..self })
                },
                None => self.job_started(new, Mode::Object) && self.packs_object(new),
            },
        }
    }

    /// Whether `new` is this studio after a pack of a robot's items was
    /// started.
    pub open spec fn packs_robot(
        self,
        new: Studio<R, Q>,
        spec: JobSpec,
        wanted: Seq<ItemView>,
    ) -> bool {
        &&& spec matches JobSpec::Robot { items, params, device } && {
            &&& inspect::item_views(items@) == wanted
            &&& params@ == request_of(self.params)
            &&& device@ == self.params.device@
        }
        &&& new.robot == Some(
            RobotState {
                assembled: None::<(String, String)>,
                quality: None::<Q>,
                ..self.robot->0
            },
        )
        &&& new.object == self.object
        &&& key_views(new.job->0.items@) == item_keys(wanted)
    }

    /// Whether `new` is this studio with a job that was just started.
    pub open spec fn job_started(self, new: Studio<R, Q>, mode: Mode) -> bool {
        &&& new.job is Some
        &&& new.job->0.mode == mode
        &&& new.job->0.seen == 0
        &&& new.job->0.control == job::fresh_control(new.job->0.items@.len() as usize)
        &&& new.live is None
        &&& message_view(new.message) == Some(("Packing\u{2026}"@, false))
        &&& new == (Studio {
            object: new.object,
            robot: new.robot,
            job: new.job,
            live: new.live,
            message: new.message,
            ..self
        })
    }

    /// The items that a pack of the open robot works on.
    pub open spec fn wanted_items(self) -> Seq<ItemView> {
        let r = self.robot->0;
        items_to_pack(r.report@.collisions, r.loaded@, result_views(r.results@), r.selected)
    }

    /// Whether `new` and `started` are what a wish to pack leads to: a robot's job is
    /// started, and for an object nothing changes until its settings are taken.
    pub open spec fn pack_step(self, new: Studio<R, Q>, started: Option<JobSpec>) -> bool {
        match config::refusal(
            self.params.variant@,
            self.params.num_spheres as int,
            self.params.iterations as int,
        ) {
            Some(e) => {
                &&& started is None
                &&& message_view(new.message) == Some((e.message(), true))
                &&& new == (Studio { message: new.message, ..self })
            },
            None => match self.mode {
                Mode::Object => match self.object {
                    None => started is None && new == self,
                    Some(_) => {
                        &&& started matches Some(spec) && self.asks_for_object(spec)
                        &&& new == self
                    },
                },
                Mode::Robot => match self.robot {
                    None => started is None && new == self,
                    Some(_) => if self.wanted_items().len() == 0 {
                        &&& started is None
                        &&& message_view(new.message) == Some(
                            ("Every link is packed. Select a row to re-pack it."@, false),
                        )
                        &&& new == (Studio { message: new.message, ..self })
                    } else {
                        started is Some && self.job_started(new, Mode::Robot) && self.packs_robot(
                            new,
                            started->0,
                            self.wanted_items(),
                        )
                    },
                },
            },
        }
    }

    /// Start to pack: the object, the selected collision, or every collision
    /// that is not packed yet. The pack of an object begins once the optimizer has
    /// taken its settings, with [`Studio::begin_object_pack`].
    pub fn start_pack(&mut self) -> (started: Option<JobSpec>)
        requires
            old(self).well_formed(),
        ensures
            final(self).well_formed(),
            old(self).pack_step(*final(self), started),
    {
        let params = self.params.pack_params();
        match params.validate() {
            Err(e) => {
                self.message = Some((e.message(), true));
                return None;
            },
            Ok(()) => {},
        }
        let device = self.params.device.clone();
        match self.mode {
            Mode::Object => match &self.object {
                None => None,
                Some(o) => {
                    let mut file = o.name.clone();
                    file.append(".json");
                    let settings = params.config(device.as_str(), "", file.as_str());
                    Some(JobSpec::Object { name: o.name.clone(), settings })
                },
            },
            Mode::Robot => match &mut self.robot {
                None => None,
                Some(r) => {
                    let items = choose_items(
                        &r.report.collisions,
                        &r.loaded,
                        &r.results,
                        r.selected,
                    );
                    assert(inspect::item_views(items@).len() == items@.len());
                    if items.len() == 0 {
                        self.message = Some(
                            (
                                String::from_str(
                                    "Every link is packed. Select a row to re-pack it.",
                                ),
                                false,
                            ),
                        );
                        return None;
                    }
                    r.assembled = None;
                    r.quality = None;
                    let keys = keys_of(&items);
                    self.watch_job(Mode::Robot, keys);
                    Some(JobSpec::Robot { items, params, device })
                },
            },
        }
    }

    /// Go on with the pack of the object that [`Studio::start_pack`] asked for: its
    /// results are dropped and the job starts once the optimizer has taken the
    /// settings. Where it refuses them, its message is shown and nothing else changes.
    pub fn begin_object_pack(&mut self, verdict: Result<(), EngineError>)
        requires
            old(self).well_formed(),
        ensures
            final(self).well_formed(),
            old(self).object_pack_step(
                *final(self),
                match verdict {
                    Ok(()) => None,
                    Err(e) => Some(e@),
                },
            ),
    {
        match &mut self.object {
            None => {},
            Some(o) => match verdict {
                Err(e) => {
                    self.message = Some((config::config_refused(&e).message(), true));
                },
                Ok(()) => {
                    o.result = None;
                    o.quality = None;
                    let mut keys: Vec<Option<(String, usize)>> = Vec::new();
                    keys.push(None);
                    assert(key_views(keys@) =~= seq![None::<(Seq<char>, int)>]);
                    self.watch_job(Mode::Object, keys);
                },
            },
        }
    }

    /// Watch a job that was just started.
    fn watch_job(&mut self, mode: Mode, items: Vec<Option<(String, usize)>>)
        ensures
            final(self).object == old(self).object,
            final(self).robot == old(self).robot,
            final(self).job matches Some(j) && j.items == items,
            old(self).job_started(*final(self), mode),
    {
        let control = JobControl::new(items.len());
        self.live = None;
        self.job = Some(JobWatch { mode, items, control, seen: 0 });
        self.message = Some((String::from_str("Packing\u{2026}"), false));
    }

    /// Pause the job, or go on with it.
    pub fn toggle_pause(&mut self)
        ensures
            *final(self) == (match old(self).job {
                Some(j) => Studio {
                    job: Some(
                        JobWatch {
                            control: JobControl { pause: !j.control.pause, ..j.control },
                            ..j
                        },
                    ),
                    ..*old(self)
                },
                None => *old(self),
            }),
    {
        match &mut self.job {
            Some(j) => {
                j.control.toggle_pause();
            },
            None => {},
        }
    }

    /// Whether the job is asked to pause.
    pub fn paused(&self) -> (yes: bool)
        ensures
            yes == (self.job matches Some(j) && j.control.pause),
    {
        match &self.job {
            Some(j) => j.control.pause,
            None => false,
        }
    }

    /// Give the job up.
    pub fn cancel(&mut self)
        ensures
            *final(self) == (match old(self).job {
                Some(j) => Studio {
                    job: Some(
                        JobWatch {
                            control: JobControl { cancel: true, pause: false, ..j.control },
                            ..j
                        },
                    ),
                    ..*old(self)
                },
                None => *old(self),
            }),
    {
        match &mut self.job {
            Some(j) => {
                j.control.cancel_job();
            },
            None => {},
        }
    }

    /// Finalize the item that is being packed.
    pub fn finish_now(&mut self)
        ensures
            *final(self) == (match old(self).job {
                Some(j) => Studio {
                    job: Some(
                        JobWatch { control: JobControl { finish_now: true, ..j.control }, ..j },
                    ),
                    ..*old(self)
                },
                None => *old(self),
            }),
    {
        match &mut self.job {
            Some(j) => {
                j.control.finish_item();
            },
            None => {},
        }
    }

    /// Forget the results: the object's, that of the selected collision, or
    /// every one of the robot.
    pub fn clear_results(&mut self)
        requires
            old(self).well_formed(),
        ensures
            final(self).well_formed(),
            final(self).spheres_dirty,
            final(self).results_version == old(self).results_version.wrapping_add(1),
            *final(self) == (Studio {
                object: final(self).object,
                robot: final(self).robot,
                results_version: final(self).results_version,
                spheres_dirty: true,
                ..*old(self)
            }),
            match old(self).mode {
                Mode::Object => final(self).robot == old(self).robot && final(self).object == (
                match old(self).object {
                    Some(o) => Some(ObjectDoc { result: None::<R>, quality: None::<Q>, ..o }),
                    None => None,
                }),
                Mode::Robot => final(self).object == old(self).object && match old(self).robot {
                    Some(r) => {
                        &&& final(self).robot matches Some(n)
                        &&& n == (RobotState {
                            results: n.results,
                            assembled: None::<(String, String)>,
                            quality: None::<Q>,
                            ..r
                        })
                        &&& result_views(n.results@) == (match r.selected {
                            Some(i) => without_result(
                                result_views(r.results@),
                                r.report@.collisions[i as int].link_name,
                                r.report@.collisions[i as int].collision_index,
                            ),
                            None => Seq::empty(),
                        })
                    },
                    None => final(self).robot is None,
                },
            },
    {
        match self.mode {
            Mode::Object => match &mut self.object {
                Some(o) => {
                    o.result = None;
                    o.quality = None;
                },
                None => {},
            },
            Mode::Robot => match &mut self.robot {
                Some(r) => {
                    match r.selected {
                        Some(i) => {
                            let c = &r.report.collisions[i];
                            assert(r.report@.collisions[i as int] == c@);
                            proof {
                                a_forgotten_result_is_gone(
                                    result_views(r.results@),
                                    c@.link_name,
                                    c@.collision_index,
                                );
                            }
                            drop_result(&mut r.results, c.link_name.as_str(), c.collision_index);
                        },
                        None => {
                            r.results.clear();
                            assert(result_views(r.results@) =~= Seq::empty());
                        },
                    }
                    r.assembled = None;
                    r.quality = None;
                },
                None => {},
            },
        }
        self.results_version = self.results_version.wrapping_add(1);
        self.spheres_dirty = true;
    }

    /// Whether `new` is this studio after the URDF of the open robot was assembled, or
    /// could not be.
    pub open spec fn assembly_taken(
        self,
        new: Studio<R, Q>,
        outcome: Result<(Seq<char>, StatsView), ErrorView>,
    ) -> bool {
        match self.robot {
            None => new == self,
            Some(r) => match outcome {
                Ok((urdf, stats)) => {
                    &&& new.robot matches Some(n)
                    &&& n.assembled matches Some((t, s)) && t@ == urdf && s@ == assembly_summary(
                        stats,
                    )
                    &&& n == (RobotState { assembled: n.assembled, ..r })
                    &&& message_view(new.message) == Some((assembly_summary(stats), false))
                    &&& new == (Studio { robot: new.robot, message: new.message, ..self })
                },
                Err(e) => {
                    &&& message_view(new.message) == Some((e.message(), true))
                    &&& new == (Studio { message: new.message, ..self })
                },
            },
        }
    }

    /// Take over the assembled URDF of the open robot.
    pub fn assembled(&mut self, outcome: Result<(String, RewriteStats), Error>)
        requires
            old(self).well_formed(),
        ensures
            final(self).well_formed(),
            old(self).assembly_taken(
                *final(self),
                match outcome {
                    Ok((urdf, stats)) => Ok((urdf@, stats@)),
                    Err(e) => Err(e@),
                },
            ),
    {
        match &mut self.robot {
            None => {},
            Some(r) => match outcome {
                Ok((urdf, stats)) => {
                    let summary = summarize(&stats);
                    r.assembled = Some((urdf, summary.clone()));
                    self.message = Some((summary, false));
                },
                Err(e) => {
                    self.message = Some((e.message(), true));
                },
            },
        }
    }

    /// What the results of the open robot give, where `placed` are their spheres in the
    /// frames of their links, result by result.
    pub open spec fn result_source(
        self,
        placed: Seq<Seq<assemble::SphereView>>,
    ) -> assemble::SourceView {
        assemble::placed_source(result_keys(result_views(self.robot->0.results@)), placed)
    }

    /// Assemble the URDF of the open robot, which lies in `pkg`, from the results.
    /// `placed` are their spheres in the frames of their links, result by result.
    /// Whether it can be made: not where collisions of the report overlap, and then
    /// nothing changes.
    pub fn assemble(
        &mut self,
        pkg: &MemPackage,
        placed: &[Vec<assemble::Sphere>],
        base_color: &str,
        link_colors: &[String],
    ) -> (made: bool)
        requires
            old(self).well_formed(),
            old(self).robot matches Some(r) ==> placed@.len() == r.results@.len(),
        ensures
            final(self).well_formed(),
            match old(self).robot {
                None => made && *final(self) == *old(self),
                Some(r) => {
                    let s = vfs::text_at(pkg@, r.urdf@);
                    let source = old(self).result_source(assemble::sphere_lists(placed@));
                    let colors = text::texts(link_colors@);
                    &&& made == assemble::can_rewrite_urdf(
                        s,
                        r.report@,
                        source,
                        base_color@,
                        colors,
                    )
                    &&& made ==> old(self).assembly_taken(
                        *final(self),
                        assemble::rewritten_urdf(s, r.report@, source, base_color@, colors),
                    )
                    &&& !made ==> *final(self) == *old(self)
                },
            },
    {
        let out = match &self.robot {
            None => {
                return true;
            },
            Some(r) => {
                let keys = list_keys(&r.results);
                assert(assemble::key_pairs(keys@).len() == keys@.len());
                assert(result_keys(result_views(r.results@)).len() == r.results@.len());
                let source = assemble::gather_spheres(&keys, placed);
                assemble::try_rewrite_urdf_text(
                    pkg.read_text(r.urdf.as_str()).as_str(),
                    &r.report,
                    &source,
                    base_color,
                    link_colors,
                )
            },
        };
        match out {
            Some(outcome) => {
                self.assembled(outcome);
                true
            },
            None => false,
        }
    }

    /// Whether an analysis is at work.
    pub fn quality_running(&self) -> (yes: bool)
        ensures
            yes == self.analyzing,
    {
        self.analyzing
    }

    /// Start an analysis of what is packed.
    pub fn analyze(&mut self) -> (plan: Option<AnalysisPlan>)
        requires
            old(self).well_formed(),
        ensures
            final(self).well_formed(),
            *final(self) == (Studio {
                analyzing: final(self).analyzing,
                message: final(self).message,
                ..*old(self)
            }),
            plan is Some ==> final(self).analyzing && message_view(final(self).message) == Some(
                ("Analyzing\u{2026}"@, false),
            ),
            plan is None ==> final(self).analyzing == old(self).analyzing,
            match old(self).mode {
                Mode::Object => match old(self).object {
                    Some(o) => if o.result is Some {
                        plan == Some(AnalysisPlan::Object)
                    } else {
                        plan is None && *final(self) == *old(self)
                    },
                    None => plan is None && *final(self) == *old(self),
                },
                Mode::Robot => match old(self).robot {
                    Some(r) => {
                        let work = scored(
                            r.report@.collisions,
                            r.loaded@,
                            result_views(r.results@),
                            r.report@.collisions.len() as int,
                        );
                        if work.len() == 0 {
                            &&& plan is None
                            &&& message_view(final(self).message) == Some(
                                ("Nothing packed yet."@, false),
                            )
                        } else {
                            plan matches Some(AnalysisPlan::Robot(w)) && place_views(w@) == work
                        }
                    },
                    None => plan is None && *final(self) == *old(self),
                },
            },
    {
        let plan = match self.mode {
            Mode::Object => match &self.object {
                Some(o) => if o.result.is_some() {
                    AnalysisPlan::Object
                } else {
                    return None;
                },
                None => {
                    return None;
                },
            },
            Mode::Robot => match &self.robot {
                Some(r) => {
                    let work = choose_scored(&r.report.collisions, &r.loaded, &r.results);
                    assert(place_views(work@).len() == work@.len());
                    assert(r.report@.collisions.len() == r.report.collisions@.len());
                    if work.len() == 0 {
                        self.message = Some((String::from_str("Nothing packed yet."), false));
                        return None;
                    }
                    AnalysisPlan::Robot(work)
                },
                None => {
                    return None;
                },
            },
        };
        self.analyzing = true;
        self.message = Some((String::from_str("Analyzing\u{2026}"), false));
        Some(plan)
    }

    /// Whether `new` is this studio after an analysis was taken over.
    pub open spec fn analyzed_as(self, new: Studio<R, Q>, out: QualityOut<Q>) -> bool {
        &&& new == (Studio {
            analyzing: false,
            object: new.object,
            robot: new.robot,
            message: new.message,
            ..self
        })
        &&& message_view(new.message) == (match out {
            QualityOut::Failed(e) => Some((e@, true)),
            _ => Some(("Analysis done."@, false)),
        })
        &&& new.object == (match (out, self.object) {
            (QualityOut::Object(q), Some(o)) => Some(ObjectDoc { quality: Some(q), ..o }),
            _ => self.object,
        })
        &&& new.robot == (match (out, self.robot) {
            (QualityOut::Robot(q), Some(r)) => Some(RobotState { quality: Some(q), ..r }),
            _ => self.robot,
        })
    }

    /// Take over what an analysis produced.
    pub fn analyzed(&mut self, out: QualityOut<Q>)
        requires
            old(self).well_formed(),
        ensures
            final(self).well_formed(),
            old(self).analyzed_as(*final(self), out),
    {
        self.analyzing = false;
        match out {
            QualityOut::Object(q) => {
                match &mut self.object {
                    Some(o) => {
                        o.quality = Some(q);
                    },
                    None => {},
                }
                self.message = Some((String::from_str("Analysis done."), false));
            },
            QualityOut::Robot(q) => {
                match &mut self.robot {
                    Some(r) => {
                        r.quality = Some(q);
                    },
                    None => {},
                }
                self.message = Some((String::from_str("Analysis done."), false));
            },
            QualityOut::Failed(e) => {
                self.message = Some((e, true));
            },
        }
    }

    /// A save has ended: with the path it wrote to, or given up by the user.
    pub fn saved(&mut self, outcome: Result<Option<String>, String>)
        ensures
            message_view(final(self).message) == save_note(
                outcome,
                message_view(old(self).message),
            ),
            *final(self) == (Studio { message: final(self).message, ..*old(self) }),
    {
        match outcome {
            Ok(Some(path)) => {
                let mut m = String::from_str("Saved ");
                m.append(path.as_str());
                self.message = Some((m, false));
            },
            Ok(None) => {},
            Err(e) => {
                self.message = Some((e, true));
            },
        }
    }

    /// The name of the open object.
    pub open spec fn object_name(&self) -> Option<Seq<char>> {
        match self.object {
            Some(o) => Some(o.name@),
            None => None,
        }
    }

    /// Whether `new` is this studio after the job's report under `version` was
    /// picked up.
    pub open spec fn job_polled(self, new: Studio<R, Q>, version: u64, st: JobStatus<R>) -> bool {
        match self.job {
            None => new == self,
            Some(j) => if version == self.job_version {
                new == (Studio {
                    job: Some(
                        JobWatch {
                            control: JobControl { phase: st.phase, item: st.item, ..j.control },
                            ..j
                        },
                    ),
                    ..self
                })
            } else {
                let added = fresh(finished_views(st.finished@), j.seen as int);
                &&& new == (Studio {
                    object: new.object,
                    robot: new.robot,
                    job: Some(
                        JobWatch {
                            seen: st.finished@.len() as usize,
                            control: JobControl { phase: st.phase, item: st.item, ..j.control },
                            ..j
                        },
                    ),
                    job_version: version,
                    live: new.live,
                    message: new.message,
                    results_version: self.results_version.wrapping_add(added.len() as u64),
                    spheres_dirty: true,
                    ..self
                })
                &&& new.live matches Some(l) && l.phase == st.phase && l.item == st.item && l.items
                    == st.items && l.device@ == st.device@ && l.iteration == st.iteration
                    && l.total_iterations == st.total_iterations
                &&& message_view(new.message) == job_message(
                    j.mode,
                    self.object_name(),
                    st,
                    message_view(self.message),
                )
                &&& new.object == (match self.object {
                    Some(o) => if j.mode == Mode::Object {
                        Some(ObjectDoc { result: object_after(o.result, added), ..o })
                    } else {
                        Some(o)
                    },
                    None => None,
                })
                &&& match self.robot {
                    Some(r) => if j.mode == Mode::Robot {
                        &&& new.robot matches Some(n)
                        &&& n == (RobotState { results: n.results, ..r })
                        &&& result_views(n.results@) == results_after(
                            result_views(r.results@),
                            added,
                        )
                    } else {
                        new.robot == self.robot
                    },
                    None => new.robot is None,
                }
            },
        }
    }

    /// Pick up what the job reports under `version`. Where it stands is always taken
    /// over; the rest only when the version is not the one that was seen last.
    pub fn poll_job(&mut self, version: u64, st: JobStatus<R>)
        requires
            old(self).well_formed(),
        ensures
            final(self).well_formed(),
            old(self).job_polled(*final(self), version, st),
    {
        if version == self.job_version {
            match &mut self.job {
                Some(j) => {
                    j.control.phase = st.phase;
                    j.control.item = st.item;
                },
                None => {},
            }
            return;
        }
        let (mode, seen) = match &self.job {
            None => {
                return;
            },
            Some(j) => (j.mode, j.seen),
        };
        self.job_version = version;
        let JobStatus { phase, item, items, device, iteration, total_iterations, error, finished } =
            st;
        let mut finished = finished;
        let total: usize = finished.len();
        let ghost all = finished_views(finished@);
        drop_front(&mut finished, seen);
        assert(finished_views(finished@) =~= fresh(all, seen as int));
        let new: usize = finished.len();
        assert(fresh(all, seen as int).len() == new);
        match mode {
            Mode::Object => match &mut self.object {
                Some(o) => {
                    let before = o.result.take();
                    o.result = take_object_result(before, finished);
                },
                None => {},
            },
            Mode::Robot => match &mut self.robot {
                Some(r) => {
                    proof {
                        lemma_results_after_distinct(
                            result_views(r.results@),
                            finished_views(finished@),
                        );
                    }
                    take_robot_results(&mut r.results, finished);
                },
                None => {},
            },
        }
        self.results_version = self.results_version.wrapping_add(new as u64);
        match &mut self.job {
            Some(j) => {
                j.seen = total;
                j.control.phase = phase;
                j.control.item = item;
            },
            None => {},
        }
        match phase {
            Phase::Done => {
                let mut m = String::from_str("Packed ");
                match mode {
                    Mode::Object => match &self.object {
                        Some(o) => {
                            m.append(o.name.as_str());
                        },
                        None => {
                            m.append("object");
                        },
                    },
                    Mode::Robot => {
                        text::push_decimal(&mut m, items);
                        m.append(" collision meshes");
                    },
                }
                m.append(" in ");
                text::push_decimal(&mut m, iteration);
                m.append(" iterations on ");
                m.append(device.as_str());
                m.append(".");
                assert(m@ =~= "Packed "@ + job_label(mode, old(self).object_name(), items as nat)
                    + " in "@ + text::decimal(iteration as nat) + " iterations on "@ + device@
                    + "."@);
                self.message = Some((m, false));
            },
            Phase::Cancelled => {
                self.message = Some((String::from_str("Cancelled."), false));
            },
            Phase::Failed => {
                self.message = Some(
                    (
                        match error {
                            Some(e) => e,
                            None => String::from_str("failed"),
                        },
                        true,
                    ),
                );
            },
            _ => {},
        }
        self.live = Some(Live { phase, item, items, device, iteration, total_iterations });
        self.spheres_dirty = true;
    }
}

/// The first result of a collision is where its result is listed.
pub proof fn lemma_first_result<R>(
    v: Seq<LinkResultView<R>>,
    link: Seq<char>,
    index: int,
    from: int,
    k: int,
)
    requires
        0 <= from <= k <= v.len(),
        forall|i: int| from <= i < k ==> (#[trigger] v[i]).link != link || v[i].index != index,
    ensures
        result_place(v, link, index, from) == result_place(v, link, index, k),
    decreases k - from,
{
    if from < k {
        assert(v[from].link != link || v[from].index != index);
        lemma_first_result(v, link, index, from + 1, k);
    }
}

/// Whether there is a result for `link[index]`.
pub open spec fn has_result<R>(v: Seq<LinkResultView<R>>, link: Seq<char>, index: int) -> bool {
    exists|k: int| 0 <= k < v.len() && (#[trigger] v[k]).link == link && v[k].index == index
}

proof fn lemma_has_result<R>(v: Seq<LinkResultView<R>>, link: Seq<char>, index: int, i: int)
    requires
        0 <= i <= v.len(),
    ensures
        match result_place(v, link, index, i) {
            Some(k) => i <= k < v.len() && v[k].link == link && v[k].index == index,
            None => forall|k: int|
                i <= k < v.len() ==> (#[trigger] v[k]).link != link || v[k].index != index,
        },
    decreases v.len() - i,
{
    if i < v.len() {
        lemma_has_result(v, link, index, i + 1);
    }
}

/// Everything that can be packed and has no result is packed: collisions that the report
/// marks, whose mesh is loaded, and no others.
pub proof fn what_is_not_packed_yet_is_packed<R>(
    items: Seq<ItemView>,
    loaded: Seq<bool>,
    results: Seq<LinkResultView<R>>,
    n: int,
    c: ItemView,
)
    requires
        0 <= n <= items.len(),
    ensures
        unpacked(items, loaded, results, n).contains(c) <==> exists|i: int|
            0 <= i < n && i < loaded.len() && loaded[i] && (#[trigger] items[i]) == c
                && c.action is Pack && !has_result(results, c.link_name, c.collision_index),
    decreases n,
{
    if n > 0 {
        what_is_not_packed_yet_is_packed(items, loaded, results, n - 1, c);
        let front = unpacked(items, loaded, results, n - 1);
        let all = unpacked(items, loaded, results, n);
        let last = items[n - 1];
        lemma_has_result(results, last.link_name, last.collision_index, 0);
        let taken = last.action is Pack && n - 1 < loaded.len() && loaded[n - 1] && !has_result(
            results,
            last.link_name,
            last.collision_index,
        );
        assert(taken ==> all == front.push(last));
        assert(!taken ==> all == front);
        if taken {
            assert(all[front.len() as int] == last);
            if front.contains(c) {
                let k = choose|k: int| 0 <= k < front.len() && front[k] == c;
                assert(all[k] == c);
            }
            if all.contains(c) && c != last {
                let k = choose|k: int| 0 <= k < all.len() && all[k] == c;
                assert(front[k] == c);
            }
        }
        if all.contains(c) && c == last && taken {
            assert(items[n - 1] == c);
        }
    }
}

/// A selected collision that can be packed is packed alone.
pub proof fn the_selected_collision_is_packed_alone<R>(
    items: Seq<ItemView>,
    loaded: Seq<bool>,
    results: Seq<LinkResultView<R>>,
    i: usize,
)
    requires
        i < items.len(),
    ensures
        items[i as int].action is Pack ==> items_to_pack(items, loaded, results, Some(i)) == seq![
            items[i as int],
        ],
        !(items[i as int].action is Pack) ==> items_to_pack(items, loaded, results, Some(i))
            == items_to_pack(items, loaded, results, None),
{
}

/// A collision is scored where it has a result and its mesh is loaded, with that result.
pub proof fn results_with_a_mesh_are_scored<R>(
    items: Seq<ItemView>,
    loaded: Seq<bool>,
    results: Seq<LinkResultView<R>>,
    n: int,
    i: int,
)
    requires
        0 <= i < n <= items.len(),
        i < loaded.len(),
        loaded[i],
        has_result(results, items[i].link_name, items[i].collision_index),
    ensures
        exists|m: int|
            0 <= m < scored(items, loaded, results, n).len() && (#[trigger] scored(
                items,
                loaded,
                results,
                n,
            )[m]).0 == i && 0 <= scored(items, loaded, results, n)[m].1 < results.len()
                && results[scored(items, loaded, results, n)[m].1].link == items[i].link_name
                && results[scored(items, loaded, results, n)[m].1].index
                == items[i].collision_index,
    decreases n,
{
    let front = scored(items, loaded, results, n - 1);
    let all = scored(items, loaded, results, n);
    lemma_has_result(results, items[n - 1].link_name, items[n - 1].collision_index, 0);
    if i == n - 1 {
        assert(all[front.len() as int].0 == i);
    } else {
        results_with_a_mesh_are_scored(items, loaded, results, n - 1, i);
        let m = choose|m: int|
            0 <= m < front.len() && (#[trigger] front[m]).0 == i && 0 <= front[m].1 < results.len()
                && results[front[m].1].link == items[i].link_name && results[front[m].1].index
                == items[i].collision_index;
        assert(all[m] == front[m]);
    }
}

/// The last pack of an object counts, and packs of a robot leave it alone.
pub proof fn the_last_pack_counts<R>(result: Option<R>, f: Seq<FinishedView<R>>, x: FinishedView<R>)
    ensures
        x.key is None ==> object_after(result, f.push(x)) == Some(x.value),
        x.key is Some ==> object_after(result, f.push(x)) == object_after(result, f),
        object_after(result, Seq::<FinishedView<R>>::empty()) == result,
{
    assert(f.push(x).drop_last() =~= f);
}

/// A pack that ends gives the result of its collision, which replaces an older one.
pub proof fn finished_packs_are_stored<R>(
    results: Seq<LinkResultView<R>>,
    f: Seq<FinishedView<R>>,
    link: Seq<char>,
    index: int,
    value: R,
)
    ensures
        ({
            let x = FinishedView { key: Some((link, index)), value };
            let all = results_after(results, f.push(x));
            result_place(all, link, index, 0) matches Some(k) && all[k].value == value && all[k].link
                == link && all[k].index == index
        }),
{
    let x = FinishedView { key: Some((link, index)), value };
    assert(f.push(x).drop_last() =~= f);
    let front = results_after(results, f);
    let all = with_result(front, link, index, value);
    lemma_has_result(front, link, index, 0);
    match result_place(front, link, index, 0) {
        Some(k) => {
            lemma_has_result(all, link, index, 0);
            assert(all[k].link == link && all[k].index == index);
            let m = result_place(all, link, index, 0)->0;
            if m < k {
                assert(front[m] == all[m]);
                lemma_before_place(front, link, index, 0, m);
            } else if m > k {
                lemma_before_place(all, link, index, 0, k);
            }
        },
        None => {
            let n = front.len() as int;
            assert forall|i: int| 0 <= i < n implies (#[trigger] all[i]).link != link || all[i].index
                != index by {
                assert(front[i] == all[i]);
            }
            lemma_first_result(all, link, index, 0, n);
        },
    }
}

proof fn lemma_before_place<R>(
    v: Seq<LinkResultView<R>>,
    link: Seq<char>,
    index: int,
    from: int,
    k: int,
)
    requires
        0 <= from <= k < v.len(),
        v[k].link == link,
        v[k].index == index,
    ensures
        result_place(v, link, index, from) matches Some(m) && m <= k,
    decreases k - from,
{
    if from < k {
        lemma_before_place(v, link, index, from + 1, k);
    }
}

/// Packs that were picked up are not picked up again, and no new one is passed over.
pub proof fn packs_are_picked_up_once<R>(f: Seq<FinishedView<R>>, seen: int)
    requires
        0 <= seen <= f.len(),
    ensures
        f.take(seen) + fresh(f, seen) == f,
{
    assert(f.take(seen) + fresh(f, seen) =~= f);
}

/// The status line tells how a job ended: a failure is an error, and a running job leaves it
/// as it was.
pub proof fn jobs_tell_how_they_ended<R>(
    mode: Mode,
    object: Option<Seq<char>>,
    st: JobStatus<R>,
    before: Option<(Seq<char>, bool)>,
)
    ensures
        st.phase is Failed ==> (job_message(mode, object, st, before) matches Some((m, e)) && e && (
        st.error matches Some(x) ==> m == x@)),
        st.phase is Done || st.phase is Cancelled ==> (job_message(mode, object, st, before)
            matches Some((_, e)) && !e),
        !(st.phase is Done || st.phase is Cancelled || st.phase is Failed) ==> job_message(
            mode,
            object,
            st,
            before,
        ) == before,
{
}

/// Every link of the items is listed, and each once.
pub proof fn links_are_listed_once(items: Seq<ItemView>, n: int)
    requires
        0 <= n <= items.len(),
    ensures
        distinct_links(items, n).no_duplicates(),
        forall|i: int|
            0 <= i < n ==> distinct_links(items, n).contains((#[trigger] items[i]).link_name),
        forall|l: Seq<char>| #[trigger]
            distinct_links(items, n).contains(l) ==> exists|i: int|
                0 <= i < n && (#[trigger] items[i]).link_name == l,
    decreases n,
{
    if n > 0 {
        links_are_listed_once(items, n - 1);
        let front = distinct_links(items, n - 1);
        let all = distinct_links(items, n);
        let last = items[n - 1].link_name;
        if !front.contains(last) {
            assert(all == front.push(last));
            assert(all[front.len() as int] == last);
            assert forall|i: int| 0 <= i < n implies all.contains((#[trigger] items[i]).link_name) by {
                if i < n - 1 {
                    assert(front.contains(items[i].link_name));
                    let k = choose|k: int|
                        0 <= k < front.len() && front[k] == items[i].link_name;
                    assert(all[k] == items[i].link_name);
                }
            }
        }
        assert forall|l: Seq<char>| #[trigger] all.contains(l) implies exists|i: int|
            0 <= i < n && (#[trigger] items[i]).link_name == l by {
            if l == last {
                assert(items[n - 1].link_name == l);
            } else {
                let k = choose|k: int| 0 <= k < all.len() && all[k] == l;
                assert(front[k] == l);
                assert(front.contains(l));
            }
        }
    }
}

/// The request of a form has the form's values, and a seed only where one is wanted.
pub proof fn forms_make_their_request(p: Params)
    ensures
        ({
            let r = request_of(p);
            &&& r.variant == p.variant@
            &&& r.num_spheres == p.num_spheres
            &&& r.iterations == p.iterations
            &&& p.random_seed ==> r.seed is None
            &&& !p.random_seed ==> r.seed == Some(p.seed as int)
            &&& r.union_overlapping_bodies == p.union_overlapping_bodies
            &&& r.convex_hull == p.convex_hull
        }),
{
}

/// A robot is exported once it is assembled, as the text that was assembled; an object once
/// it is packed, under its own name.
pub proof fn exports_are_what_was_made<R, Q>(s: Studio<R, Q>)
    ensures
        s.robot is None ==> export_of(s, Export::SphericalUrdf) is Err,
        s.robot matches Some(r) ==> (r.assembled is None ==> export_of(
            s,
            Export::SphericalUrdf,
        ) is Err) && (r.assembled matches Some((t, _)) ==> (export_of(s, Export::SphericalUrdf)
            matches Ok((_, source)) && source == SourceView::Text(t@))),
        s.object is None ==> export_of(s, Export::Urdf) is Err && export_of(s, Export::Mjcf) is Err,
        s.object matches Some(o) ==> (o.result is None ==> export_of(s, Export::Urdf) is Err
            && export_of(s, Export::Mjcf) is Err) && (o.result is Some ==> (export_of(
            s,
            Export::Urdf,
        ) matches Ok((name, source)) && name == o.name@ + ".urdf"@ && (source
            matches SourceView::ObjectUrdf(m) && m.name == o.name@ && m.anchored == o.anchored
            && m.total_mass == o.total_mass@)) && (export_of(s, Export::Mjcf) matches Ok(
            (name, source),
        ) && name == o.name@ + ".xml"@ && (source matches SourceView::ObjectMjcf(m) && m.name
            == o.name@ && m.anchored == o.anchored && m.total_mass == o.total_mass@))),
{
}

} // verus!
