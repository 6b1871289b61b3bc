//! Robot mode: a session holds an uploaded (or bundled) URDF package; its
//! collision meshes are packed one link at a time, followed live, then
//! assembled into a spherical URDF and scored.

use vstd::prelude::*;

use crate::assemble;
use crate::assemble::RewriteStats;
use crate::color;
use crate::config::{PackParams, ParamsView};
use crate::inspect;
use crate::inspect::{Action, CollisionItem, InspectionReport, ItemView, MeshSearch, ReportView};
use crate::numeral;
use crate::pack;
use crate::pack::MeshPrep;
use crate::paths;
use crate::py_repr;
use crate::server::error;
use crate::server::error::{ApiError, ApiErrorView};
use crate::server::files;
use crate::server::forms;
use crate::server::forms::{Form, FormView, Upload, UploadView};
use crate::server::object_mode;
use crate::server::object_mode::{Counts, CountsView, MeshFormat};
use crate::server::sessions;
use crate::server::sessions::{SessionStore, SessionView};
use crate::text;

verus! {

/// The parameters of a query, each name once.
#[derive(Debug)]
pub struct QueryParams {
    pub pairs: Vec<(String, String)>,
}

impl View for QueryParams {
    type V = Seq<(Seq<char>, Seq<char>)>;

    open spec fn view(&self) -> Seq<(Seq<char>, Seq<char>)> {
        text::pair_views(self.pairs@)
    }
}

/// The value of the first parameter called `name` at or after `i`.
pub open spec fn param_from(q: Seq<(Seq<char>, Seq<char>)>, name: Seq<char>, i: int) -> Option<
    Seq<char>,
>
    decreases q.len() - i,
{
    if 0 <= i < q.len() {
        if q[i].0 == name {
            Some(q[i].1)
        } else {
            param_from(q, name, i + 1)
        }
    } else {
        None
    }
}

/// The parameter `name`; a 422 when it is missing.
pub open spec fn param(q: Seq<(Seq<char>, Seq<char>)>, name: Seq<char>) -> Result<
    Seq<char>,
    ApiErrorView,
> {
    match param_from(q, name, 0) {
        Some(v) => Ok(v),
        None => Err(error::missing_reply("query"@, name)),
    }
}

/// The boolean parameter `name`.
pub open spec fn param_flag(q: Seq<(Seq<char>, Seq<char>)>, name: Seq<char>, default: bool) -> Result<
    bool,
    ApiErrorView,
> {
    match param_from(q, name, 0) {
        Some(v) => if v.len() == 0 {
            Ok(default)
        } else {
            forms::bool_value("query"@, name, v)
        },
        None => Ok(default),
    }
}

impl QueryParams {
    /// The parameter `name`.
    pub fn get(&self, name: &str) -> (out: Option<&str>)
        ensures
            text::opt_str(out) == param_from(self@, name@, 0),
    {
        let mut i: usize = 0;
        while i < self.pairs.len()
            invariant
                i <= self.pairs@.len(),
                param_from(self@, name@, 0) == param_from(self@, name@, i as int),
            decreases self.pairs@.len() - i,
        {
            if text::same(self.pairs[i].0.as_str(), name) {
                return Some(self.pairs[i].1.as_str());
            }
            i = i + 1;
        }
        None
    }

    /// The parameter `name`; a 422 when it is missing.
    pub fn required(&self, name: &str) -> (res: Result<&str, ApiError>)
        ensures
            match res {
                Ok(v) => param(self@, name@) == Ok::<Seq<char>, ApiErrorView>(v@),
                Err(e) => param(self@, name@) == Err::<Seq<char>, ApiErrorView>(e@),
            },
    {
        match self.get(name) {
            Some(v) => Ok(v),
            None => Err(ApiError::missing("query", name)),
        }
    }

    /// Optional boolean parameter (422 when it is neither true nor false).
    pub fn flag(&self, name: &str, default: bool) -> (res: Result<bool, ApiError>)
        ensures
            match res {
                Ok(b) => param_flag(self@, name@, default) == Ok::<bool, ApiErrorView>(b),
                Err(e) => param_flag(self@, name@, default) == Err::<bool, ApiErrorView>(e@),
            },
    {
        match self.get(name) {
            Some(v) => if v.is_empty() {
                Ok(default)
            } else {
                forms::parse_bool("query", name, v)
            },
            None => Ok(default),
        }
    }
}

/// The reply of endpoints that need an inspected robot.
pub open spec fn no_report() -> Seq<char> {
    "session has no inspection report"@
}

/// The reply of endpoints that need an inspected robot, with advice.
pub open spec fn no_report_inspect() -> Seq<char> {
    "session has no inspection report; call /inspect first"@
}

/// The sessions after a request for the session `id` came in: a sweep, and the
/// session's TTL starts again.
pub open spec fn entered(v: Seq<SessionView>, ttl: int, id: Seq<char>, now: int) -> Seq<SessionView> {
    sessions::touched(sessions::swept(v, now, ttl), id, now)
}

/// The directories of the sessions that the sweep drops.
pub open spec fn dropped(v: Seq<SessionView>, root: Seq<char>, ttl: int, now: int) -> Seq<Seq<char>> {
    v.filter(sessions::drops(now, ttl)).map_values(|s: SessionView| sessions::base_of(root, s.id))
}

/// The report of the session `id`, or the reply that says why there is none.
pub open spec fn report_of(v: Seq<SessionView>, id: Seq<char>, detail: Seq<char>) -> Result<
    ReportView,
    ApiErrorView,
> {
    match sessions::find(v, id) {
        None => Err(sessions::gone_reply(id)),
        Some(s) => match s.report {
            Some(r) => Ok(r),
            None => Err(error::reply(400, detail)),
        },
    }
}

/// Sweep, look the session `id` up and refresh its TTL; the directories to
/// delete.
pub fn enter(store: &mut SessionStore, id: &str, now: u128) -> (out: (
    Vec<String>,
    Result<(), ApiError>,
))
    ensures
        final(store).root() == old(store).root(),
        final(store).ttl() == old(store).ttl(),
        final(store).all() == entered(old(store).all(), old(store).ttl(), id@, now as int),
        text::texts(out.0@) == dropped(
            old(store).all(),
            old(store).root(),
            old(store).ttl(),
            now as int,
        ),
        match out.1 {
            Ok(()) => sessions::find(
                sessions::swept(old(store).all(), now as int, old(store).ttl()),
                id@,
            ) is Some,
            Err(e) => sessions::find(
                sessions::swept(old(store).all(), now as int, old(store).ttl()),
                id@,
            ) is None && e@ == sessions::gone_reply(id@),
        },
{
    let gone = store.gc(now);
    proof {
        sessions::a_sweep_leaves_what_is_live(
            old(store).all(),
            now as int,
            old(store).ttl(),
            id@,
        );
    }
    let res = store.get(id, now);
    (gone, res)
}

/// The report of the session `id`.
fn peek_report<'a>(store: &'a SessionStore, id: &str, detail: &str) -> (res: Result<
    &'a InspectionReport,
    ApiError,
>)
    ensures
        match res {
            Ok(r) => report_of(store.all(), id@, detail@) == Ok::<ReportView, ApiErrorView>(r@),
            Err(e) => report_of(store.all(), id@, detail@) == Err::<ReportView, ApiErrorView>(e@),
        },
{
    match store.peek(id) {
        Some(s) => s.require_report(detail),
        None => Err(gone(id)),
    }
}

/// The 404 for a session that is not there.
fn gone(id: &str) -> (out: ApiError)
    ensures
        out@ == sessions::gone_reply(id@),
{
    let mut m = String::from_str("session ");
    m.append(py_repr(id).as_str());
    m.append(" not found or expired");
    ApiError::not_found(m.as_str())
}

/// The first item of `link` with this index, at or after `i`.
pub open spec fn item_from(items: Seq<ItemView>, link: Seq<char>, index: int, i: int) -> Option<ItemView>
    decreases items.len() - i,
{
    if 0 <= i < items.len() {
        if items[i].link_name == link && items[i].collision_index == index {
            Some(items[i])
        } else {
            item_from(items, link, index, i + 1)
        }
    } else {
        None
    }
}

/// The first item of `link` with this index.
fn find_item(items: &[CollisionItem], link: &str, index: i128) -> (out: Option<CollisionItem>)
    ensures
        match out {
            Some(c) => item_from(inspect::item_views(items@), link@, index as int, 0) == Some(c@),
            None => item_from(inspect::item_views(items@), link@, index as int, 0) is None,
        },
{
    let ghost v = inspect::item_views(items@);
    let mut i: usize = 0;
    while i < items.len()
        invariant
            i <= items@.len(),
            v == inspect::item_views(items@),
            item_from(v, link@, index as int, 0) == item_from(v, link@, index as int, i as int),
        decreases items@.len() - i,
    {
        assert(v[i as int] == items@[i as int]@);
        if text::same(items[i].link_name.as_str(), link) && items[i].collision_index as i128
            == index {
            return Some(items[i].clone());
        }
        i = i + 1;
    }
    None
}

/// `link[index]`.
pub open spec fn label(link: Seq<char>, index: int) -> Seq<char> {
    link + "["@ + text::signed(index) + "]"@
}

/// Append `link[index]`.
fn push_label(out: &mut String, link: &str, index: i64)
    ensures
        final(out)@ == old(out)@ + label(link@, index as int),
{
    let ghost before = out@;
    out.append(link);
    out.append("[");
    text::push_signed(out, index);
    out.append("]");
    assert(out@ =~= before + label(link@, index as int));
}

/// Append `link[index]`.
fn push_index_label(out: &mut String, link: &str, index: usize)
    ensures
        final(out)@ == old(out)@ + label(link@, index as int),
{
    let ghost before = out@;
    out.append(link);
    out.append("[");
    text::push_decimal(out, index);
    out.append("]");
    assert(out@ =~= before + label(link@, index as int));
}

/// The 404 reply for a collision that is not in the report.
pub open spec fn no_item_reply(link: Seq<char>, index: int) -> ApiErrorView {
    error::reply(404, "no collision item: "@ + label(link, index))
}

/// The name of an action.
pub open spec fn action_name(a: Action) -> Seq<char> {
    match a {
        Action::Pack => "pack"@,
        Action::RemovePrimitive => "remove-primitive"@,
        Action::RemoveAlreadySphere => "remove-already-sphere"@,
        Action::Error => "error"@,
    }
}

/// The name of an action.
pub fn action_text(a: Action) -> (out: String)
    ensures
        out@ == action_name(a),
{
    match a {
        Action::Pack => String::from_str("pack"),
        Action::RemovePrimitive => String::from_str("remove-primitive"),
        Action::RemoveAlreadySphere => String::from_str("remove-already-sphere"),
        Action::Error => String::from_str("error"),
    }
}

/// What a request to pack one link asks for.
#[derive(Debug)]
pub struct PackLinkRequest {
    pub id: String,
    pub item: CollisionItem,
    pub params: PackParams,
}

/// The contents of a [`PackLinkRequest`].
#[verifier::ext_equal]
pub struct PackLinkView {
    pub id: Seq<char>,
    pub item: ItemView,
    pub params: ParamsView,
}

impl View for PackLinkRequest {
    type V = PackLinkView;

    open spec fn view(&self) -> PackLinkView {
        PackLinkView { id: self.id@, item: self.item@, params: self.params@ }
    }
}

/// What a pack-link form gives before its session is looked up.
pub struct LinkFieldsView {
    pub id: Seq<char>,
    pub link: Seq<char>,
    pub index: int,
    pub counts: CountsView,
}

/// What a pack-link form gives before its session is looked up.
#[derive(Debug)]
struct LinkFields {
    id: String,
    link: String,
    index: i64,
    counts: Counts,
}

impl View for LinkFields {
    type V = LinkFieldsView;

    closed spec fn view(&self) -> LinkFieldsView {
        LinkFieldsView {
            id: self.id@,
            link: self.link@,
            index: self.index as int,
            counts: self.counts@,
        }
    }
}

/// What a pack-link form gives before its session is looked up.
pub open spec fn link_fields(form: FormView) -> Result<LinkFieldsView, ApiErrorView> {
    match form.required("session_id"@) {
        Err(e) => Err(e),
        Ok(id) => match form.required("link_name"@) {
            Err(e) => Err(e),
            Ok(link) => match form.required_integer("collision_index"@) {
                Err(e) => Err(e),
                Ok(index) => match object_mode::counts_of(form) {
                    Err(e) => Err(e),
                    Ok(counts) => Ok(LinkFieldsView { id, link, index, counts }),
                },
            },
        },
    }
}

/// What a pack-link form gives before its session is looked up.
fn read_link_fields(form: &Form) -> (res: Result<LinkFields, ApiError>)
    ensures
        match res {
            Ok(f) => link_fields(form@) == Ok::<LinkFieldsView, ApiErrorView>(f@),
            Err(e) => link_fields(form@) == Err::<LinkFieldsView, ApiErrorView>(e@),
        },
{
    let id = match form.required_text("session_id") {
        Ok(v) => String::from_str(v),
        Err(e) => return Err(e),
    };
    let link = match form.required_text("link_name") {
        Ok(v) => String::from_str(v),
        Err(e) => return Err(e),
    };
    let index: i64 = match form.required_int("collision_index") {
        Ok(n) => n,
        Err(e) => return Err(e),
    };
    match object_mode::read_counts(form) {
        Ok(counts) => Ok(LinkFields { id, link, index, counts }),
        Err(e) => Err(e),
    }
}

/// What a pack-link request asks for, given the report of its session.
pub open spec fn link_request(form: FormView, f: LinkFieldsView, report: ReportView) -> Result<
    PackLinkView,
    ApiErrorView,
> {
    match object_mode::params_of(form, f.counts) {
        Err(e) => Err(e),
        Ok(p) => match item_from(report.collisions, f.link, f.index, 0) {
            None => Err(no_item_reply(f.link, f.index)),
            Some(item) => if !(item.action is Pack) {
                Err(
                    error::reply(
                        400,
                        "item "@ + label(f.link, f.index) + " has action "@ + crate::repr(
                            action_name(item.action),
                        ) + ", not 'pack'"@,
                    ),
                )
            } else {
                match object_mode::finished_params(form, f.counts, p) {
                    Err(e) => Err(e),
                    Ok(params) => Ok(PackLinkView { id: f.id, item, params }),
                }
            },
        },
    }
}

/// What a pack-link request asks for, given the report of its session.
fn read_link_request(form: &Form, f: &LinkFields, report: &InspectionReport) -> (res: Result<
    PackLinkRequest,
    ApiError,
>)
    ensures
        match res {
            Ok(r) => link_request(form@, f@, report@) == Ok::<PackLinkView, ApiErrorView>(r@),
            Err(e) => link_request(form@, f@, report@) == Err::<PackLinkView, ApiErrorView>(e@),
        },
{
    let params = match object_mode::read_params(form, &f.counts) {
        Ok(p) => p,
        Err(e) => return Err(e),
    };
    let item = match find_item(&report.collisions, f.link.as_str(), f.index as i128) {
        Some(c) => c,
        None => {
            let mut m = String::from_str("no collision item: ");
            push_label(&mut m, f.link.as_str(), f.index);
            return Err(ApiError::not_found(m.as_str()));
        },
    };
    if item.action != Action::Pack {
        let mut m = String::from_str("item ");
        push_label(&mut m, f.link.as_str(), f.index);
        m.append(" has action ");
        m.append(py_repr(action_text(item.action).as_str()).as_str());
        m.append(", not 'pack'");
        return Err(ApiError::bad_request(m.as_str()));
    }
    match object_mode::finish_params(form, &f.counts, params) {
        Ok(params) => Ok(PackLinkRequest { id: f.id.clone(), item, params }),
        Err(e) => Err(e),
    }
}

/// What `POST /api/robot/pack-link` answers: what to pack, or the reply that
/// refuses. `v` are the sessions after the sweep and the lookup.
pub open spec fn pack_link_request(form: FormView, f: LinkFieldsView, v: Seq<SessionView>) -> Result<
    PackLinkView,
    ApiErrorView,
> {
    match report_of(v, f.id, no_report_inspect()) {
        Err(e) => Err(e),
        Ok(report) => link_request(form, f, report),
    }
}

/// `POST /api/robot/pack-link`: pack one collision of the session's robot.
/// The directories to delete, and what to pack.
pub fn pack_link(store: &mut SessionStore, form: &Form, now: u128) -> (out: (
    Vec<String>,
    Result<PackLinkRequest, ApiError>,
))
    ensures
        final(store).root() == old(store).root(),
        final(store).ttl() == old(store).ttl(),
        match link_fields(form@) {
            Err(e) => {
                &&& final(store).all() == old(store).all()
                &&& out.0@.len() == 0
                &&& out.1 matches Err(x) && x@ == e
            },
            Ok(f) => {
                &&& final(store).all() == entered(
                    old(store).all(),
                    old(store).ttl(),
                    f.id,
                    now as int,
                )
                &&& text::texts(out.0@) == dropped(
                    old(store).all(),
                    old(store).root(),
                    old(store).ttl(),
                    now as int,
                )
                &&& match out.1 {
                    Ok(r) => pack_link_request(form@, f, final(store).all()) == Ok::<
                        PackLinkView,
                        ApiErrorView,
                    >(r@),
                    Err(e) => pack_link_request(form@, f, final(store).all()) == Err::<
                        PackLinkView,
                        ApiErrorView,
                    >(e@),
                }
            },
        },
{
    let f = match read_link_fields(form) {
        Ok(f) => f,
        Err(e) => return (Vec::new(), Err(e)),
    };
    let (dirs, _) = enter(store, f.id.as_str(), now);
    let report = match peek_report(
        store,
        f.id.as_str(),
        "session has no inspection report; call /inspect first",
    ) {
        Ok(r) => r,
        Err(e) => return (dirs, Err(e)),
    };
    let res = read_link_request(form, &f, report);
    (dirs, res)
}

/// What a request to assemble asks for.
#[derive(Debug)]
pub struct AssembleRequest {
    pub id: String,
    pub base_color: [u8; 4],
    /// The share by which link colors vary, as text; it must be in `[0, 1]`.
    pub variation: String,
    /// Where the spherical URDF is written.
    pub output: String,
    /// Where the sphere JSONs lie.
    pub spheres: String,
}

/// The contents of an [`AssembleRequest`].
#[verifier::ext_equal]
pub struct AssembleView {
    pub id: Seq<char>,
    pub base_color: (int, int, int),
    pub variation: Seq<char>,
    pub output: Seq<char>,
    pub spheres: Seq<char>,
}

impl View for AssembleRequest {
    type V = AssembleView;

    open spec fn view(&self) -> AssembleView {
        AssembleView {
            id: self.id@,
            base_color: (
                self.base_color@[0] as int,
                self.base_color@[1] as int,
                self.base_color@[2] as int,
            ),
            variation: self.variation@,
            output: self.output@,
            spheres: self.spheres@,
        }
    }
}

/// The session and the color variation that an assemble form names.
pub open spec fn assemble_fields(form: FormView) -> Result<(Seq<char>, Seq<char>), ApiErrorView> {
    match form.required("session_id"@) {
        Err(e) => Err(e),
        Ok(id) => match form.number_or("color_variation"@, "0.3"@) {
            Err(e) => Err(e),
            Ok(variation) => Ok((id, variation)),
        },
    }
}

/// What `POST /api/robot/assemble` answers: what to assemble, or the reply
/// that refuses. `v` are the sessions after the sweep and the lookup.
pub open spec fn assemble_request(
    form: FormView,
    id: Seq<char>,
    variation: Seq<char>,
    v: Seq<SessionView>,
) -> Result<AssembleView, ApiErrorView> {
    match report_of(v, id, no_report()) {
        Err(e) => Err(e),
        Ok(report) => {
            let out_dir = sessions::find(v, id)->0.output_dir;
            Ok(
                AssembleView {
                    id,
                    base_color: color::color_or_default(
                        Some(form.value_or("base_color"@, "#3399ff"@)),
                    ),
                    variation,
                    output: inspect::path_join(
                        out_dir,
                        files::stem_or(Some(report.urdf_path), "robot"@) + "_spherical.urdf"@,
                    ),
                    spheres: inspect::path_join(out_dir, "spheres"@),
                },
            )
        },
    }
}

/// `POST /api/robot/assemble`: the spherical URDF of everything packed.
pub fn assemble(store: &mut SessionStore, form: &Form, now: u128) -> (out: (
    Vec<String>,
    Result<AssembleRequest, ApiError>,
))
    ensures
        final(store).root() == old(store).root(),
        final(store).ttl() == old(store).ttl(),
        match assemble_fields(form@) {
            Err(e) => {
                &&& final(store).all() == old(store).all()
                &&& out.0@.len() == 0
                &&& out.1 matches Err(x) && x@ == e
            },
            Ok((id, variation)) => {
                &&& final(store).all() == entered(old(store).all(), old(store).ttl(), id, now as int)
                &&& text::texts(out.0@) == dropped(
                    old(store).all(),
                    old(store).root(),
                    old(store).ttl(),
                    now as int,
                )
                &&& match out.1 {
                    Ok(r) => r.base_color@[3] == 255 && assemble_request(
                        form@,
                        id,
                        variation,
                        final(store).all(),
                    ) == Ok::<AssembleView, ApiErrorView>(r@),
                    Err(e) => assemble_request(form@, id, variation, final(store).all()) == Err::<
                        AssembleView,
                        ApiErrorView,
                    >(e@),
                }
            },
        },
{
    let id = match form.required_text("session_id") {
        Ok(v) => v,
        Err(e) => return (Vec::new(), Err(e)),
    };
    let base_color = color::safe_color_rgba(Some(form.text_or("base_color", "#3399ff")));
    let variation = match form.float_or("color_variation", "0.3") {
        Ok(v) => v,
        Err(e) => return (Vec::new(), Err(e)),
    };
    let (dirs, _) = enter(store, id, now);
    let session = match store.peek(id) {
        Some(s) => s,
        None => return (dirs, Err(gone(id))),
    };
    let report = match session.require_report("session has no inspection report") {
        Ok(r) => r,
        Err(e) => return (dirs, Err(e)),
    };
    let mut name = files::file_stem(Some(report.urdf_path.as_str()), "robot");
    name.append("_spherical.urdf");
    let output = inspect::join_path(session.output_dir.as_str(), name.as_str());
    let spheres = pack::spheres_dir(session.output_dir.as_str());
    (dirs, Ok(AssembleRequest { id: String::from_str(id), base_color, variation, output, spheres }))
}

/// The reply to a color variation outside `[0, 1]`; `inside` tells whether the
/// number that was sent lies in it.
pub fn variation_in_range(inside: bool) -> (res: Result<(), ApiError>)
    ensures
        match res {
            Ok(()) => inside,
            Err(e) => !inside && e@ == error::reply(400, "color_variation must be in [0, 1]"@),
        },
{
    if inside {
        Ok(())
    } else {
        Err(ApiError::bad_request("color_variation must be in [0, 1]"))
    }
}

/// The lines of a skip report.
pub open spec fn skip_lines(stats: assemble::StatsView) -> Seq<char> {
    text::join(
        stats.skipped_pack_items.map_values(
            |s: (Seq<char>, int, Seq<char>)| assemble::skip_line(s),
        ),
        "; "@,
    )
}

/// Refuse an assembled URDF in which a collision was not packed.
pub fn all_packed(stats: &RewriteStats) -> (res: Result<(), ApiError>)
    ensures
        match res {
            Ok(()) => stats@.skipped_pack_items.len() == 0,
            Err(e) => stats@.skipped_pack_items.len() > 0 && e@ == error::reply(
                400,
                "Some collisions weren't packed: "@ + skip_lines(stats@),
            ),
        },
{
    if stats.skipped_pack_items.len() == 0 {
        Ok(())
    } else {
        let mut m = String::from_str("Some collisions weren't packed: ");
        m.append(stats.skipped_summary().as_str());
        Err(ApiError::bad_request(m.as_str()))
    }
}

/// What a query for the prepared mesh of a collision gives.
pub struct PreparedQueryView {
    pub id: Seq<char>,
    pub link: Seq<char>,
    pub index: int,
    pub prep: MeshPrep,
    pub format: MeshFormat,
}

/// What a query for the prepared mesh of a collision gives.
#[derive(Debug)]
struct PreparedQuery {
    id: String,
    link: String,
    index: usize,
    prep: MeshPrep,
    format: MeshFormat,
}

impl View for PreparedQuery {
    type V = PreparedQueryView;

    closed spec fn view(&self) -> PreparedQueryView {
        PreparedQueryView {
            id: self.id@,
            link: self.link@,
            index: self.index as int,
            prep: self.prep,
            format: self.format,
        }
    }
}

/// What a query for the prepared mesh of a collision gives.
pub open spec fn prepared_query(q: Seq<(Seq<char>, Seq<char>)>) -> Result<
    PreparedQueryView,
    ApiErrorView,
> {
    match (param(q, "session_id"@), param(q, "link_name"@), param(q, "collision_index"@)) {
        (Err(e), _, _) => Err(e),
        (Ok(_), Err(e), _) => Err(e),
        (Ok(_), Ok(_), Err(e)) => Err(e),
        (Ok(id), Ok(link), Ok(raw)) => match numeral::index(text::trim(raw)) {
            None => Err(forms::int_reply("query"@, "collision_index"@, raw)),
            Some(index) => match (
                param_flag(q, "union_overlapping_bodies"@, true),
                param_flag(q, "convex_hull"@, false),
            ) {
                (Err(e), _) => Err(e),
                (Ok(_), Err(e)) => Err(e),
                (Ok(union_overlapping_bodies), Ok(convex_hull)) => {
                    let format = match param_from(q, "format"@, 0) {
                        Some(v) => v,
                        None => "obj"@,
                    };
                    match object_mode::format_value("query"@, format) {
                        Err(e) => Err(e),
                        Ok(format) => Ok(
                            PreparedQueryView {
                                id,
                                link,
                                index,
                                prep: MeshPrep { union_overlapping_bodies, convex_hull },
                                format,
                            },
                        ),
                    }
                },
            },
        },
    }
}

/// What a query for the prepared mesh of a collision gives.
fn read_prepared_query(q: &QueryParams) -> (res: Result<PreparedQuery, ApiError>)
    ensures
        match res {
            Ok(p) => prepared_query(q@) == Ok::<PreparedQueryView, ApiErrorView>(p@),
            Err(e) => prepared_query(q@) == Err::<PreparedQueryView, ApiErrorView>(e@),
        },
{
    let id = match q.required("session_id") {
        Ok(v) => String::from_str(v),
        Err(e) => return Err(e),
    };
    let link = match q.required("link_name") {
        Ok(v) => String::from_str(v),
        Err(e) => return Err(e),
    };
    let raw = match q.required("collision_index") {
        Ok(v) => v,
        Err(e) => return Err(e),
    };
    let index: usize = match numeral::parse_index(text::trimmed(raw).as_str()) {
        Some(n) => n,
        None => return Err(forms::int_error("query", "collision_index", raw)),
    };
    let union_overlapping_bodies = match q.flag("union_overlapping_bodies", true) {
        Ok(b) => b,
        Err(e) => return Err(e),
    };
    let convex_hull = match q.flag("convex_hull", false) {
        Ok(b) => b,
        Err(e) => return Err(e),
    };
    let name = match q.get("format") {
        Some(v) => v,
        None => "obj",
    };
    match object_mode::parse_format("query", name) {
        Ok(format) => Ok(
            PreparedQuery {
                id,
                link,
                index,
                prep: MeshPrep { union_overlapping_bodies, convex_hull },
                format,
            },
        ),
        Err(e) => Err(e),
    }
}

/// A collision mesh to prepare.
#[derive(Debug)]
pub struct PreparedRequest {
    pub mesh_path: String,
    pub prep: MeshPrep,
    pub format: MeshFormat,
    /// The stem of the download's name.
    pub stem: String,
}

/// The contents of a [`PreparedRequest`].
#[verifier::ext_equal]
pub struct PreparedView {
    pub mesh_path: Seq<char>,
    pub prep: MeshPrep,
    pub format: MeshFormat,
    pub stem: Seq<char>,
}

impl View for PreparedRequest {
    type V = PreparedView;

    open spec fn view(&self) -> PreparedView {
        PreparedView {
            mesh_path: self.mesh_path@,
            prep: self.prep,
            format: self.format,
            stem: self.stem@,
        }
    }
}

/// What `GET /api/robot/prepared-mesh` answers: the mesh to prepare, or the
/// reply that refuses. `v` are the sessions after the sweep and the lookup.
pub open spec fn prepared_request(p: PreparedQueryView, v: Seq<SessionView>) -> Result<
    PreparedView,
    ApiErrorView,
> {
    match report_of(v, p.id, no_report_inspect()) {
        Err(e) => Err(e),
        Ok(report) => match item_from(report.collisions, p.link, p.index, 0) {
            None => Err(no_item_reply(p.link, p.index)),
            Some(item) => if !(item.action is Pack) {
                Err(
                    error::reply(
                        400,
                        "item "@ + label(p.link, p.index)
                            + " is not a mesh collision that MorphIt packs"@,
                    ),
                )
            } else {
                match item.mesh_path {
                    None => Err(
                        error::reply(
                            400,
                            "item "@ + label(p.link, p.index) + " has no mesh file"@,
                        ),
                    ),
                    Some(mesh_path) => Ok(
                        PreparedView {
                            mesh_path,
                            prep: p.prep,
                            format: p.format,
                            stem: p.link + "_"@ + text::decimal(p.index as nat),
                        },
                    ),
                }
            },
        },
    }
}

/// The mesh to prepare, given the report of the session.
fn read_prepared(p: &PreparedQuery, report: &InspectionReport) -> (res: Result<
    PreparedRequest,
    ApiError,
>)
    ensures
        forall|v: Seq<SessionView>|
            report_of(v, p@.id, no_report_inspect()) == Ok::<ReportView, ApiErrorView>(report@)
                ==> (#[trigger] prepared_request(p@, v)) == match res {
                Ok(r) => Ok::<PreparedView, ApiErrorView>(r@),
                Err(e) => Err::<PreparedView, ApiErrorView>(e@),
            },
{
    let item = match find_item(&report.collisions, p.link.as_str(), p.index as i128) {
        Some(c) => c,
        None => {
            let mut m = String::from_str("no collision item: ");
            push_index_label(&mut m, p.link.as_str(), p.index);
            return Err(ApiError::not_found(m.as_str()));
        },
    };
    let mut m = String::from_str("item ");
    push_index_label(&mut m, p.link.as_str(), p.index);
    if item.action != Action::Pack {
        m.append(" is not a mesh collision that MorphIt packs");
        return Err(ApiError::bad_request(m.as_str()));
    }
    match item.mesh_path {
        None => {
            m.append(" has no mesh file");
            Err(ApiError::bad_request(m.as_str()))
        },
        Some(mesh_path) => {
            let mut stem = p.link.clone();
            stem.append("_");
            text::push_decimal(&mut stem, p.index);
            Ok(PreparedRequest { mesh_path, prep: p.prep, format: p.format, stem })
        },
    }
}

/// `GET /api/robot/prepared-mesh?session_id=&link_name=&collision_index=`
/// `&union_overlapping_bodies=&convex_hull=&format=`: the prepared mesh of one
/// `pack` collision of a robot session.
pub fn robot_prepared_mesh(store: &mut SessionStore, q: &QueryParams, now: u128) -> (out: (
    Vec<String>,
    Result<PreparedRequest, ApiError>,
))
    ensures
        final(store).root() == old(store).root(),
        final(store).ttl() == old(store).ttl(),
        match prepared_query(q@) {
            Err(e) => {
                &&& final(store).all() == old(store).all()
                &&& out.0@.len() == 0
                &&& out.1 matches Err(x) && x@ == e
            },
            Ok(p) => {
                &&& final(store).all() == entered(
                    old(store).all(),
                    old(store).ttl(),
                    p.id,
                    now as int,
                )
                &&& text::texts(out.0@) == dropped(
                    old(store).all(),
                    old(store).root(),
                    old(store).ttl(),
                    now as int,
                )
                &&& prepared_request(p, final(store).all()) == match out.1 {
                    Ok(r) => Ok::<PreparedView, ApiErrorView>(r@),
                    Err(e) => Err::<PreparedView, ApiErrorView>(e@),
                }
            },
        },
{
    let p = match read_prepared_query(q) {
        Ok(p) => p,
        Err(e) => return (Vec::new(), Err(e)),
    };
    let (dirs, _) = enter(store, p.id.as_str(), now);
    let report = match peek_report(
        store,
        p.id.as_str(),
        "session has no inspection report; call /inspect first",
    ) {
        Ok(r) => r,
        Err(e) => return (dirs, Err(e)),
    };
    let res = read_prepared(&p, report);
    (dirs, res)
}

/// What a request for mesh statistics is answered with.
#[derive(Debug)]
pub enum StatsAnswer {
    /// This body, computed before.
    Cached(String),
    /// The statistics of these items, to be computed.
    Compute(Vec<CollisionItem>),
}

/// The contents of a [`StatsAnswer`].
pub enum StatsAnswerView {
    Cached(Seq<char>),
    Compute(Seq<ItemView>),
}

impl View for StatsAnswer {
    type V = StatsAnswerView;

    open spec fn view(&self) -> StatsAnswerView {
        match self {
            StatsAnswer::Cached(b) => StatsAnswerView::Cached(b@),
            StatsAnswer::Compute(v) => StatsAnswerView::Compute(inspect::item_views(v@)),
        }
    }
}

/// What `GET /api/robot/mesh-stats` answers. `v` are the sessions after the
/// sweep and the lookup.
pub open spec fn stats_answer(id: Seq<char>, v: Seq<SessionView>) -> Result<
    StatsAnswerView,
    ApiErrorView,
> {
    match report_of(v, id, no_report_inspect()) {
        Err(e) => Err(e),
        Ok(report) => match sessions::find(v, id)->0.mesh_stats {
            Some(body) => Ok(StatsAnswerView::Cached(body)),
            None => Ok(StatsAnswerView::Compute(inspect::packed_items(report.collisions))),
        },
    }
}

/// `GET /api/robot/mesh-stats?session_id=`: area and volume of every pack
/// item's (prepared) mesh, cached per session.
pub fn mesh_stats(store: &mut SessionStore, q: &QueryParams, now: u128) -> (out: (
    Vec<String>,
    Result<StatsAnswer, ApiError>,
))
    ensures
        final(store).root() == old(store).root(),
        final(store).ttl() == old(store).ttl(),
        match param(q@, "session_id"@) {
            Err(e) => {
                &&& final(store).all() == old(store).all()
                &&& out.0@.len() == 0
                &&& out.1 matches Err(x) && x@ == e
            },
            Ok(id) => {
                &&& final(store).all() == entered(old(store).all(), old(store).ttl(), id, now as int)
                &&& text::texts(out.0@) == dropped(
                    old(store).all(),
                    old(store).root(),
                    old(store).ttl(),
                    now as int,
                )
                &&& stats_answer(id, final(store).all()) == match out.1 {
                    Ok(r) => Ok::<StatsAnswerView, ApiErrorView>(r@),
                    Err(e) => Err::<StatsAnswerView, ApiErrorView>(e@),
                }
            },
        },
{
    let id = match q.required("session_id") {
        Ok(v) => v,
        Err(e) => return (Vec::new(), Err(e)),
    };
    let (dirs, _) = enter(store, id, now);
    let session = match store.peek(id) {
        Some(s) => s,
        None => return (dirs, Err(gone(id))),
    };
    let report = match session.require_report(
        "session has no inspection report; call /inspect first",
    ) {
        Ok(r) => r,
        Err(e) => return (dirs, Err(e)),
    };
    match &session.mesh_stats {
        Some(body) => (dirs, Ok(StatsAnswer::Cached(body.clone()))),
        None => (dirs, Ok(StatsAnswer::Compute(report.to_pack()))),
    }
}

/// A packed link and the sphere JSON it is saved as.
#[derive(Debug)]
pub struct ScoredLink {
    pub item: CollisionItem,
    pub json_path: String,
}

/// The contents of a list of packed links.
pub open spec fn scored_views(v: Seq<ScoredLink>) -> Seq<(ItemView, Seq<char>)> {
    v.map_values(|l: ScoredLink| (l.item@, l.json_path@))
}

/// An item with the path of its sphere JSON.
pub open spec fn with_json(dir: Seq<char>) -> spec_fn(ItemView) -> (ItemView, Seq<char>) {
    |c: ItemView|
        (
            c,
            inspect::path_join(dir, pack::result_name(c.link_name, c.collision_index as nat)),
        )
}

/// What `POST /api/robot/analyze` may score. `v` are the sessions after the
/// sweep and the lookup.
pub open spec fn score_candidates(id: Seq<char>, v: Seq<SessionView>) -> Result<
    Seq<(ItemView, Seq<char>)>,
    ApiErrorView,
> {
    match report_of(v, id, no_report()) {
        Err(e) => Err(e),
        Ok(report) => {
            let items = inspect::packed_items(report.collisions);
            if items.len() == 0 {
                Err(error::reply(400, "nothing was packed in this session"@))
            } else {
                let dir = inspect::path_join(sessions::find(v, id)->0.output_dir, "spheres"@);
                Ok(items.map_values(with_json(dir)))
            }
        },
    }
}

/// `POST /api/robot/analyze`: the links that may be scored, with their sphere
/// JSONs.
pub fn analyze(store: &mut SessionStore, form: &Form, now: u128) -> (out: (
    Vec<String>,
    Result<Vec<ScoredLink>, ApiError>,
))
    ensures
        final(store).root() == old(store).root(),
        final(store).ttl() == old(store).ttl(),
        match form@.required("session_id"@) {
            Err(e) => {
                &&& final(store).all() == old(store).all()
                &&& out.0@.len() == 0
                &&& out.1 matches Err(x) && x@ == e
            },
            Ok(id) => {
                &&& final(store).all() == entered(old(store).all(), old(store).ttl(), id, now as int)
                &&& text::texts(out.0@) == dropped(
                    old(store).all(),
                    old(store).root(),
                    old(store).ttl(),
                    now as int,
                )
                &&& score_candidates(id, final(store).all()) == match out.1 {
                    Ok(r) => Ok::<Seq<(ItemView, Seq<char>)>, ApiErrorView>(scored_views(r@)),
                    Err(e) => Err::<Seq<(ItemView, Seq<char>)>, ApiErrorView>(e@),
                }
            },
        },
{
    let id = match form.required_text("session_id") {
        Ok(v) => v,
        Err(e) => return (Vec::new(), Err(e)),
    };
    let (dirs, _) = enter(store, id, now);
    let session = match store.peek(id) {
        Some(s) => s,
        None => return (dirs, Err(gone(id))),
    };
    let report = match session.require_report("session has no inspection report") {
        Ok(r) => r,
        Err(e) => return (dirs, Err(e)),
    };
    let dir = pack::spheres_dir(session.output_dir.as_str());
    let items = report.to_pack();
    assert(inspect::item_views(items@).len() == items@.len());
    if items.len() == 0 {
        return (dirs, Err(ApiError::bad_request("nothing was packed in this session")));
    }
    let links = list_links(&items, dir.as_str());
    (dirs, Ok(links))
}

/// The items with the paths of their sphere JSONs.
fn list_links(items: &[CollisionItem], dir: &str) -> (out: Vec<ScoredLink>)
    ensures
        scored_views(out@) == inspect::item_views(items@).map_values(with_json(dir@)),
{
    let ghost v = inspect::item_views(items@);
    let mut out: Vec<ScoredLink> = Vec::new();
    let mut i: usize = 0;
    while i < items.len()
        invariant
            i <= items@.len(),
            v == inspect::item_views(items@),
            out@.len() == i,
            forall|j: int|
                0 <= j < i ==> ((#[trigger] out@[j]).item@, out@[j].json_path@) == with_json(dir@)(
                    v[j],
                ),
        decreases items@.len() - i,
    {
        let name = pack::json_filename(items[i].link_name.as_str(), items[i].collision_index);
        let json_path = inspect::join_path(dir, name.as_str());
        let item = items[i].clone();
        assert(v[i as int] == items@[i as int]@);
        assert((item@, json_path@) == with_json(dir@)(v[i as int]));
        out.push(ScoredLink { item, json_path });
        i = i + 1;
    }
    assert(scored_views(out@) =~= v.map_values(with_json(dir@)));
    out
}

/// The links whose sphere JSON is there.
pub open spec fn present_only(links: Seq<(ItemView, Seq<char>)>, present: Seq<bool>) -> Seq<
    (ItemView, Seq<char>),
>
    decreases links.len(),
{
    if links.len() == 0 {
        Seq::empty()
    } else {
        let front = present_only(links.drop_last(), present);
        let n = links.len() - 1;
        if n < present.len() && present[n] {
            front.push(links.last())
        } else {
            front
        }
    }
}

/// The links to score, where `present` says which sphere JSONs are there; a
/// 400 when none is.
pub fn links_to_score(links: Vec<ScoredLink>, present: &[bool]) -> (res: Result<
    Vec<ScoredLink>,
    ApiError,
>)
    ensures
        match res {
            Ok(v) => v@.len() > 0 && scored_views(v@) == present_only(
                scored_views(links@),
                present@,
            ),
            Err(e) => present_only(scored_views(links@), present@).len() == 0 && e@
                == error::reply(
                400,
                "No packed links found in this session. Run MorphIt first, then analyze."@,
            ),
        },
{
    let ghost all = scored_views(links@);
    let mut out: Vec<ScoredLink> = Vec::new();
    let mut i: usize = 0;
    assert(scored_views(out@) =~= present_only(all.take(0), present@));
    while i < links.len()
        invariant
            i <= links@.len(),
            all == scored_views(links@),
            scored_views(out@) == present_only(all.take(i as int), present@),
        decreases links@.len() - i,
    {
        proof {
            assert(all.take(i + 1).drop_last() =~= all.take(i as int));
            assert(all.take(i + 1).last() == all[i as int]);
        }
        if i < present.len() && present[i] {
            let ghost seen = scored_views(out@);
            out.push(
                ScoredLink {
                    item: links[i].item.clone(),
                    json_path: links[i].json_path.clone(),
                },
            );
            assert(scored_views(out@) =~= seen.push(all[i as int]));
        }
        i = i + 1;
    }
    assert(all.take(i as int) =~= all);
    if out.len() == 0 {
        Err(
            ApiError::bad_request(
                "No packed links found in this session. Run MorphIt first, then analyze.",
            ),
        )
    } else {
        Ok(out)
    }
}

/// The reply for quality metrics that are not finite.
pub fn non_finite_error(link: &str, index: usize) -> (out: ApiError)
    ensures
        out@ == error::reply(
            500,
            "non-finite quality metrics for "@ + label(link@, index as int),
        ),
{
    let mut m = String::from_str("non-finite quality metrics for ");
    push_index_label(&mut m, link, index);
    ApiError::internal(m.as_str())
}

/// Where a requested file may lie.
#[derive(Debug)]
pub enum FileTarget {
    /// Where this search finds it.
    Search(MeshSearch),
    /// At this path.
    At(String),
}

/// The contents of a [`FileTarget`].
pub enum TargetView {
    Search(inspect::SearchView),
    At(Seq<char>),
}

impl View for FileTarget {
    type V = TargetView;

    open spec fn view(&self) -> TargetView {
        match self {
            FileTarget::Search(s) => TargetView::Search(s@),
            FileTarget::At(p) => TargetView::At(p@),
        }
    }
}

/// Where the file `path` of a session may lie.
pub open spec fn file_target(s: SessionView, path: Seq<char>) -> Result<TargetView, ApiErrorView> {
    if text::begins(path, "package://"@) {
        let urdf = match s.report {
            Some(r) => r.urdf_path,
            None => s.work_dir,
        };
        Ok(TargetView::Search(inspect::search_for(path, s.work_dir, urdf)))
    } else if paths::absolute(path) {
        Ok(TargetView::At(path))
    } else {
        match paths::normalized(path) {
            Ok(parts) => Ok(TargetView::At(paths::joined(s.work_dir, parts))),
            Err(e) => Err(error::error_reply(e)),
        }
    }
}

/// What `GET /api/robot/file` looks for. `v` are the sessions after the sweep
/// and the lookup.
pub open spec fn file_request(id: Seq<char>, path: Seq<char>, v: Seq<SessionView>) -> Result<
    TargetView,
    ApiErrorView,
> {
    match sessions::find(v, id) {
        None => Err(sessions::gone_reply(id)),
        Some(s) => file_target(s, path),
    }
}

/// The session and the path that a file query names.
pub open spec fn file_fields(q: Seq<(Seq<char>, Seq<char>)>) -> Result<
    (Seq<char>, Seq<char>),
    ApiErrorView,
> {
    match (param(q, "session_id"@), param(q, "path"@)) {
        (Err(e), _) => Err(e),
        (Ok(_), Err(e)) => Err(e),
        (Ok(id), Ok(path)) => Ok((id, path)),
    }
}

/// `GET /api/robot/file?session_id=&path=`: a file of the session's package,
/// by `package://` URI, session-relative path, or absolute path inside the
/// session.
pub fn file(store: &mut SessionStore, q: &QueryParams, now: u128) -> (out: (
    Vec<String>,
    Result<FileTarget, ApiError>,
))
    ensures
        final(store).root() == old(store).root(),
        final(store).ttl() == old(store).ttl(),
        match file_fields(q@) {
            Err(e) => {
                &&& final(store).all() == old(store).all()
                &&& out.0@.len() == 0
                &&& out.1 matches Err(x) && x@ == e
            },
            Ok((id, path)) => {
                &&& final(store).all() == entered(old(store).all(), old(store).ttl(), id, now as int)
                &&& text::texts(out.0@) == dropped(
                    old(store).all(),
                    old(store).root(),
                    old(store).ttl(),
                    now as int,
                )
                &&& file_request(id, path, final(store).all()) == match out.1 {
                    Ok(r) => Ok::<TargetView, ApiErrorView>(r@),
                    Err(e) => Err::<TargetView, ApiErrorView>(e@),
                }
            },
        },
{
    let id = match q.required("session_id") {
        Ok(v) => v,
        Err(e) => return (Vec::new(), Err(e)),
    };
    let path = match q.required("path") {
        Ok(v) => v,
        Err(e) => return (Vec::new(), Err(e)),
    };
    let (dirs, _) = enter(store, id, now);
    let session = match store.peek(id) {
        Some(s) => s,
        None => return (dirs, Err(gone(id))),
    };
    let cs = text::to_chars(path);
    if text::starts_with(&cs, "package://") {
        let search = match &session.report {
            Some(r) => inspect::resolve_mesh_path(
                path,
                session.work_dir.as_str(),
                r.urdf_path.as_str(),
            ),
            None => inspect::resolve_mesh_path(
                path,
                session.work_dir.as_str(),
                session.work_dir.as_str(),
            ),
        };
        return (dirs, Ok(FileTarget::Search(search)));
    }
    if cs.len() > 0 && cs[0] == '/' {
        return (dirs, Ok(FileTarget::At(String::from_str(path))));
    }
    match paths::safe_join(session.work_dir.as_str(), path) {
        Ok(p) => (dirs, Ok(FileTarget::At(p))),
        Err(e) => (dirs, Err(ApiError::from_error(&e))),
    }
}

/// Why the file `path` is not served, if it is not: the search did not resolve
/// it, it is not there, or it lies outside the session.
pub open spec fn file_refusal(path: Seq<char>, resolved: bool, there: bool, inside: bool) -> Option<
    ApiErrorView,
> {
    if !resolved {
        Some(error::reply(404, "could not resolve "@ + crate::repr(path)))
    } else if !there {
        Some(error::reply(404, "file not found: "@ + crate::repr(path)))
    } else if !inside {
        Some(error::reply(403, "path escapes session sandbox"@))
    } else {
        None
    }
}

/// Whether the file `path` is served: a 404 when the search did not resolve it
/// or it is not there, a 403 when it lies outside the session.
pub fn serve_file(path: &str, resolved: bool, there: bool, inside: bool) -> (res: Result<
    (),
    ApiError,
>)
    ensures
        match res {
            Ok(()) => file_refusal(path@, resolved, there, inside) is None,
            Err(e) => file_refusal(path@, resolved, there, inside) == Some(e@),
        },
{
    if !resolved {
        let mut m = String::from_str("could not resolve ");
        m.append(py_repr(path).as_str());
        Err(ApiError::not_found(m.as_str()))
    } else if !there {
        let mut m = String::from_str("file not found: ");
        m.append(py_repr(path).as_str());
        Err(ApiError::not_found(m.as_str()))
    } else if !inside {
        Err(ApiError::forbidden("path escapes session sandbox"))
    } else {
        Ok(())
    }
}

/// Why an upload is refused.
#[derive(Debug)]
pub struct UploadRefusal {
    /// Whether the new session is forgotten at once.
    pub forget: bool,
    pub error: ApiError,
}

/// Where the files of an upload are written, and how large they are together;
/// or the refusal, and whether the new session is forgotten at once.
pub open spec fn upload_plan(work_dir: Seq<char>, uploads: Seq<UploadView>) -> Result<
    (Seq<Seq<char>>, nat),
    (bool, ApiErrorView),
>
    decreases uploads.len(),
{
    if uploads.len() == 0 {
        Ok((Seq::empty(), 0))
    } else {
        match upload_plan(work_dir, uploads.drop_last()) {
            Err(e) => Err(e),
            Ok((targets, total)) => {
                let f = uploads.last();
                let rel = match f.filename {
                    Some(n) => n,
                    None => Seq::empty(),
                };
                match paths::normalized(rel) {
                    Err(e) => Err((false, error::error_reply(e))),
                    Ok(parts) => if f.data.len() > files::MAX_ROBOT_PER_FILE_BYTES {
                        Err(
                            (
                                true,
                                error::large_reply(
                                    f.data.len(),
                                    files::MAX_ROBOT_PER_FILE_BYTES as nat,
                                    "File "@ + crate::repr(rel),
                                ),
                            ),
                        )
                    } else if total + f.data.len() > files::MAX_ROBOT_FOLDER_BYTES {
                        Err(
                            (
                                true,
                                error::large_reply(
                                    total + f.data.len(),
                                    files::MAX_ROBOT_FOLDER_BYTES as nat,
                                    "Folder"@,
                                ),
                            ),
                        )
                    } else {
                        Ok(
                            (
                                targets.push(paths::joined(work_dir, parts)),
                                total + f.data.len(),
                            ),
                        )
                    },
                }
            },
        }
    }
}

proof fn lemma_refused_upload(work_dir: Seq<char>, uploads: Seq<UploadView>, n: int)
    requires
        0 <= n <= uploads.len(),
        upload_plan(work_dir, uploads.take(n)) is Err,
    ensures
        upload_plan(work_dir, uploads) == upload_plan(work_dir, uploads.take(n)),
    decreases uploads.len() - n,
{
    if n < uploads.len() {
        assert(uploads.take(n + 1).drop_last() =~= uploads.take(n));
        lemma_refused_upload(work_dir, uploads, n + 1);
    } else {
        assert(uploads.take(n) =~= uploads);
    }
}

/// The contents of a list of uploads.
pub open spec fn upload_views(v: Seq<&Upload>) -> Seq<UploadView> {
    v.map_values(|u: &Upload| u@)
}

/// `POST /api/robot/inspect`: where the files of the package are written.
/// Their names are the paths inside the package.
pub fn plan_upload(work_dir: &str, uploads: &[&Upload]) -> (res: Result<Vec<String>, UploadRefusal>)
    ensures
        match res {
            Ok(targets) => upload_plan(work_dir@, upload_views(uploads@)) matches Ok((t, _)) && t
                == text::texts(targets@),
            Err(e) => upload_plan(work_dir@, upload_views(uploads@)) == Err::<
                (Seq<Seq<char>>, nat),
                (bool, ApiErrorView),
            >((e.forget, e.error@)),
        },
{
    let ghost v = upload_views(uploads@);
    let mut out: Vec<String> = Vec::new();
    let mut total: usize = 0;
    let mut i: usize = 0;
    assert(text::texts(out@) =~= Seq::<Seq<char>>::empty());
    assert(v.take(0) =~= Seq::<UploadView>::empty());
    while i < uploads.len()
        invariant
            i <= uploads@.len(),
            v == upload_views(uploads@),
            total <= files::MAX_ROBOT_FOLDER_BYTES,
            upload_plan(work_dir@, v.take(i as int)) == Ok::<
                (Seq<Seq<char>>, nat),
                (bool, ApiErrorView),
            >((text::texts(out@), total as nat)),
        decreases uploads@.len() - i,
    {
        let f = uploads[i];
        proof {
            assert(v.take(i + 1).drop_last() =~= v.take(i as int));
            assert(v.take(i + 1).last() == f@);
            if upload_plan(work_dir@, v.take(i + 1)) is Err {
                lemma_refused_upload(work_dir@, v, i + 1);
            }
        }
        let rel = match &f.filename {
            Some(n) => n.as_str(),
            None => "",
        };
        proof {
            reveal_strlit("");
            assert(""@ =~= Seq::<char>::empty());
        }
        let target = match paths::safe_join(work_dir, rel) {
            Ok(t) => t,
            Err(e) => return Err(
                UploadRefusal { forget: false, error: ApiError::from_error(&e) },
            ),
        };
        let size: usize = f.data.len();
        if size > files::MAX_ROBOT_PER_FILE_BYTES {
            let mut kind = String::from_str("File ");
            kind.append(py_repr(rel).as_str());
            return Err(
                UploadRefusal {
                    forget: true,
                    error: ApiError::too_large(
                        size,
                        files::MAX_ROBOT_PER_FILE_BYTES,
                        kind.as_str(),
                    ),
                },
            );
        }
        let sum: usize = total + size;
        if sum > files::MAX_ROBOT_FOLDER_BYTES {
            return Err(
                UploadRefusal {
                    forget: true,
                    error: ApiError::too_large(sum, files::MAX_ROBOT_FOLDER_BYTES, "Folder"),
                },
            );
        }
        let ghost seen = text::texts(out@);
        let ghost t = target@;
        out.push(target);
        assert(text::texts(out@) =~= seen.push(t));
        total = sum;
        i = i + 1;
    }
    assert(v.take(i as int) =~= v);
    Ok(out)
}

/// An accepted upload has one target per file, every file is within the file
/// limit, and all of them together within the folder limit.
pub proof fn accepted_uploads_are_within_limits(work_dir: Seq<char>, uploads: Seq<UploadView>)
    ensures
        upload_plan(work_dir, uploads) matches Ok((targets, total)) ==> {
            &&& targets.len() == uploads.len()
            &&& total <= files::MAX_ROBOT_FOLDER_BYTES
            &&& forall|i: int|
                0 <= i < uploads.len() ==> (#[trigger] uploads[i]).data.len()
                    <= files::MAX_ROBOT_PER_FILE_BYTES
        },
    decreases uploads.len(),
{
    if uploads.len() > 0 {
        accepted_uploads_are_within_limits(work_dir, uploads.drop_last());
        if upload_plan(work_dir, uploads) is Ok {
            assert forall|i: int| 0 <= i < uploads.len() implies (#[trigger] uploads[i]).data.len()
                <= files::MAX_ROBOT_PER_FILE_BYTES by {
                if i < uploads.len() - 1 {
                    assert(uploads.drop_last()[i] == uploads[i]);
                }
            }
        }
    }
}

/// Every file of an accepted upload is written below the work directory.
pub proof fn accepted_uploads_stay_in_the_work_directory(
    work_dir: Seq<char>,
    uploads: Seq<UploadView>,
    i: int,
)
    requires
        upload_plan(work_dir, uploads) is Ok,
        0 <= i < uploads.len(),
    ensures
        paths::below(upload_plan(work_dir, uploads)->Ok_0.0[i], work_dir),
    decreases uploads.len(),
{
    accepted_uploads_are_within_limits(work_dir, uploads.drop_last());
    let (before, _) = upload_plan(work_dir, uploads.drop_last())->Ok_0;
    if i < uploads.len() - 1 {
        accepted_uploads_stay_in_the_work_directory(work_dir, uploads.drop_last(), i);
        assert(upload_plan(work_dir, uploads)->Ok_0.0[i] == before[i]);
    } else {
        let f = uploads.last();
        let rel = match f.filename {
            Some(n) => n,
            None => Seq::empty(),
        };
        paths::joined_paths_stay_below(work_dir, rel);
    }
}

/// A parameter has the first value that the query gives for it.
pub proof fn parameters_have_their_first_value(
    q: Seq<(Seq<char>, Seq<char>)>,
    name: Seq<char>,
    k: int,
    default: bool,
)
    requires
        0 <= k <= q.len(),
        forall|i: int| 0 <= i < k ==> (#[trigger] q[i]).0 != name,
    ensures
        k < q.len() && q[k].0 == name ==> param(q, name) == Ok::<Seq<char>, ApiErrorView>(q[k].1),
        k < q.len() && q[k].0 == name && q[k].1.len() > 0 ==> param_flag(q, name, default)
            == forms::bool_value("query"@, name, q[k].1),
        k == q.len() ==> (param(q, name) matches Err(e) && e.status == 422) && param_flag(
            q,
            name,
            default,
        ) == Ok::<bool, ApiErrorView>(default),
{
    lemma_param_from(q, name, 0, k);
}

proof fn lemma_param_from(q: Seq<(Seq<char>, Seq<char>)>, name: Seq<char>, from: int, k: int)
    requires
        0 <= from <= k <= q.len(),
        forall|i: int| from <= i < k ==> (#[trigger] q[i]).0 != name,
    ensures
        param_from(q, name, from) == param_from(q, name, k),
    decreases k - from,
{
    if from < k {
        assert(q[from].0 != name);
        lemma_param_from(q, name, from + 1, k);
    }
}

proof fn lemma_item_from(items: Seq<ItemView>, link: Seq<char>, index: int, i: int)
    requires
        0 <= i <= items.len(),
    ensures
        match item_from(items, link, index, i) {
            Some(c) => items.contains(c) && c.link_name == link && c.collision_index == index,
            None => forall|k: int|
                i <= k < items.len() ==> (#[trigger] items[k]).link_name != link
                    || items[k].collision_index != index,
        },
    decreases items.len() - i,
{
    if i < items.len() {
        assert(items.contains(items[i]));
        lemma_item_from(items, link, index, i + 1);
    }
}

/// A request to pack a link packs the collision that its form names, which the report of its
/// session marks for packing, with the parameters of the form.
pub proof fn the_named_collision_is_packed(
    form: FormView,
    v: Seq<SessionView>,
    report: ReportView,
    n: int,
    s: Seq<char>,
)
    requires
        link_fields(form) is Ok,
        sessions::find(v, link_fields(form)->Ok_0.id) matches Some(x) && x.report == Some(report),
    ensures
        pack_link_request(form, link_fields(form)->Ok_0, v) matches Ok(r) ==> {
            &&& form.value("session_id"@) == Some(r.id)
            &&& form.value("link_name"@) == Some(r.item.link_name)
            &&& form.integer("collision_index"@) == Ok::<Option<int>, ApiErrorView>(
                Some(r.item.collision_index),
            )
            &&& report.collisions.contains(r.item)
            &&& r.item.action is Pack
            &&& object_mode::has_counts(form, r.params, n)
            &&& object_mode::has_choices(form, r.params, s)
            &&& form.integer("seed"@) == Ok::<Option<int>, ApiErrorView>(r.params.seed)
        },
{
    let f = link_fields(form)->Ok_0;
    lemma_item_from(report.collisions, f.link, f.index, 0);
    object_mode::finished_parameters_are_those_of_the_form(form, f.counts, n, s);
}

/// Requests for a session that is gone are answered with a 404, and those for a session
/// without a report with a 400.
pub proof fn requests_need_an_inspected_session(
    v: Seq<SessionView>,
    id: Seq<char>,
    detail: Seq<char>,
    report: ReportView,
)
    ensures
        sessions::find(v, id) is None ==> (report_of(v, id, detail) matches Err(e) && e.status
            == 404),
        sessions::find(v, id) matches Some(s) ==> (s.report is None ==> (report_of(v, id, detail)
            matches Err(e) && e.status == 400)) && (s.report == Some(report) ==> report_of(
            v,
            id,
            detail,
        ) == Ok::<ReportView, ApiErrorView>(report)),
{
}

/// A collision that the report does not hold is not found, and one that is not packed is
/// refused.
pub proof fn other_collisions_are_refused(form: FormView, f: LinkFieldsView, report: ReportView)
    requires
        object_mode::params_of(form, f.counts) is Ok,
    ensures
        (forall|i: int|
            0 <= i < report.collisions.len() ==> (#[trigger] report.collisions[i]).link_name
                != f.link || report.collisions[i].collision_index != f.index) ==> (link_request(
            form,
            f,
            report,
        ) matches Err(e) && e.status == 404),
        item_from(report.collisions, f.link, f.index, 0) matches Some(c) && !(c.action is Pack)
            ==> (link_request(form, f, report) matches Err(e) && e.status == 400),
{
    lemma_item_from(report.collisions, f.link, f.index, 0);
    if let Some(c) = item_from(report.collisions, f.link, f.index, 0) {
        let i = choose|i: int| 0 <= i < report.collisions.len() && report.collisions[i] == c;
        assert(report.collisions[i].link_name == f.link);
    }
}

/// A robot is assembled into a URDF named after its own, beside the spheres of its session,
/// with the color and the variation of the form.
pub proof fn robots_are_assembled_in_their_session(
    form: FormView,
    v: Seq<SessionView>,
    id: Seq<char>,
    variation: Seq<char>,
    stem: Seq<char>,
    c: Seq<char>,
)
    requires
        sessions::find(v, id) matches Some(s) && s.report is Some && s.output_dir.len() > 0
            && s.output_dir.last() != '/',
        paths::path_stem(sessions::find(v, id)->0.report->0.urdf_path) == Some(stem),
        stem.len() > 0,
        stem[0] != '/',
    ensures
        assemble_request(form, id, variation, v) matches Ok(a) && a.id == id && a.variation
            == variation && a.output == sessions::find(v, id)->0.output_dir + seq!['/'] + stem
            + "_spherical.urdf"@ && a.spheres == sessions::find(v, id)->0.output_dir + "/spheres"@
            && (form.value("base_color"@) == Some(c) ==> a.base_color == color::color_or_default(
            Some(c),
        )),
{
    let dir = sessions::find(v, id)->0.output_dir;
    reveal_strlit("spheres");
    reveal_strlit("/spheres");
    assert("/spheres"@ =~= seq!['/'] + "spheres"@);
    let name = stem + "_spherical.urdf"@;
    assert(name[0] == stem[0]);
    assert(inspect::path_join(dir, name) =~= dir + seq!['/'] + stem + "_spherical.urdf"@);
    assert(inspect::path_join(dir, "spheres"@) =~= dir + "/spheres"@);
}

/// The session and the variation of an assembly are those of its form.
pub proof fn assemblies_are_asked_for_field_by_field(form: FormView)
    ensures
        assemble_fields(form) matches Ok((id, variation)) ==> form.value("session_id"@) == Some(id)
            && form.number_or("color_variation"@, "0.3"@) == Ok::<Seq<char>, ApiErrorView>(
            variation,
        ),
        form.value("session_id"@) is None ==> (assemble_fields(form) matches Err(e) && e.status
            == 422),
{
}

/// A query for a prepared mesh asks for the collision, the flags and the format that it
/// names.
pub proof fn prepared_meshes_are_asked_for_field_by_field(
    q: Seq<(Seq<char>, Seq<char>)>,
    v: Seq<char>,
)
    ensures
        prepared_query(q) matches Ok(p) ==> {
            &&& param(q, "session_id"@) == Ok::<Seq<char>, ApiErrorView>(p.id)
            &&& param(q, "link_name"@) == Ok::<Seq<char>, ApiErrorView>(p.link)
            &&& param(q, "collision_index"@) == Ok::<Seq<char>, ApiErrorView>(v)
                ==> numeral::index(text::trim(v)) == Some(p.index)
            &&& param_flag(q, "union_overlapping_bodies"@, true) == Ok::<bool, ApiErrorView>(
                p.prep.union_overlapping_bodies,
            )
            &&& param_flag(q, "convex_hull"@, false) == Ok::<bool, ApiErrorView>(p.prep.convex_hull)
            &&& param_from(q, "format"@, 0) is None ==> p.format is Obj
            &&& param_from(q, "format"@, 0) == Some(v) ==> (p.format is Stl
                <==> numeral::ascii_lowercase(v) == seq!['s', 't', 'l'])
        },
{
    object_mode::formats_are_named_in_any_case("obj"@);
    object_mode::formats_are_named_in_any_case(v);
    reveal_strlit("obj");
    assert("obj"@ =~= seq!['o', 'b', 'j']);
    assert(numeral::ascii_lowercase("obj"@) =~= seq!['o', 'b', 'j']);
}

/// The mesh that is prepared is that of the collision that the query names.
pub proof fn the_named_mesh_is_prepared(
    p: PreparedQueryView,
    v: Seq<SessionView>,
    report: ReportView,
)
    requires
        sessions::find(v, p.id) matches Some(s) && s.report == Some(report),
    ensures
        prepared_request(p, v) matches Ok(r) ==> {
            &&& r.prep == p.prep
            &&& r.format == p.format
            &&& r.stem == p.link + seq!['_'] + text::decimal(p.index as nat)
            &&& exists|i: int|
                0 <= i < report.collisions.len() && (#[trigger] report.collisions[i]).link_name
                    == p.link && report.collisions[i].collision_index == p.index
                    && report.collisions[i].action is Pack && report.collisions[i].mesh_path
                    == Some(r.mesh_path)
        },
{
    lemma_item_from(report.collisions, p.link, p.index, 0);
    reveal_strlit("_");
    assert("_"@ =~= seq!['_']);
    if prepared_request(p, v) is Ok {
        let c = item_from(report.collisions, p.link, p.index, 0)->0;
        let i = choose|i: int| 0 <= i < report.collisions.len() && report.collisions[i] == c;
        assert(report.collisions[i].link_name == p.link);
    }
}

/// Statistics that were computed once are answered from the session.
pub proof fn statistics_are_computed_once(
    id: Seq<char>,
    v: Seq<SessionView>,
    body: Seq<char>,
)
    requires
        sessions::find(v, id) matches Some(s) && s.report is Some,
    ensures
        sessions::find(v, id)->0.mesh_stats == Some(body) ==> stats_answer(id, v) == Ok::<
            StatsAnswerView,
            ApiErrorView,
        >(StatsAnswerView::Cached(body)),
        sessions::find(v, id)->0.mesh_stats is None ==> (stats_answer(id, v) matches Ok(
            StatsAnswerView::Compute(items),
        ) && forall|c: ItemView| #[trigger]
            items.contains(c) <==> sessions::find(v, id)->0.report->0.collisions.contains(c)
                && c.action is Pack),
{
    let all = sessions::find(v, id)->0.report->0.collisions;
    lemma_packed_items(all);
}

proof fn lemma_packed_items(all: Seq<ItemView>)
    ensures
        forall|c: ItemView| #[trigger]
            inspect::packed_items(all).contains(c) <==> all.contains(c) && c.action is Pack,
{
    let got = inspect::packed_items(all);
    assert forall|c: ItemView| #[trigger] got.contains(c) <==> all.contains(c) && c.action is Pack by {
        let keep = |c: ItemView| c.action is Pack;
        if got.contains(c) {
            all.lemma_filter_contains_rev(keep, c);
            let k = choose|k: int| 0 <= k < got.len() && got[k] == c;
            all.lemma_filter_pred(keep, k);
        }
        if all.contains(c) && c.action is Pack {
            let k = choose|k: int| 0 <= k < all.len() && all[k] == c;
            all.lemma_filter_contains(keep, k);
        }
    }
}

/// What may be scored are the packed collisions of the report, each with the file of its
/// spheres in the session's directory.
pub proof fn packed_collisions_are_scored(
    id: Seq<char>,
    v: Seq<SessionView>,
    k: int,
)
    requires
        sessions::find(v, id) matches Some(s) && s.report is Some,
    ensures
        score_candidates(id, v) matches Ok(links) ==> links.len() > 0 && (0 <= k < links.len() ==> {
            let c = links[k].0;
            &&& sessions::find(v, id)->0.report->0.collisions.contains(c)
            &&& c.action is Pack
            &&& links[k].1 == inspect::path_join(
                inspect::path_join(sessions::find(v, id)->0.output_dir, "spheres"@),
                c.link_name + "_"@ + text::decimal(c.collision_index as nat) + ".json"@,
            )
        }),
        score_candidates(id, v) is Err <==> forall|i: int|
            0 <= i < sessions::find(v, id)->0.report->0.collisions.len() ==> !((
            #[trigger] sessions::find(v, id)->0.report->0.collisions[i]).action is Pack),
{
    let all = sessions::find(v, id)->0.report->0.collisions;
    lemma_packed_items(all);
    let items = inspect::packed_items(all);
    if items.len() > 0 {
        assert(items.contains(items[0]));
        let i = choose|i: int| 0 <= i < all.len() && all[i] == items[0];
        assert(all[i].action is Pack);
        if 0 <= k < items.len() {
            assert(items.contains(items[k]));
        }
    } else {
        assert forall|i: int| 0 <= i < all.len() implies !((#[trigger] all[i]).action is Pack) by {
            if all[i].action is Pack {
                assert(all.contains(all[i]));
                assert(items.contains(all[i]));
            }
        }
    }
}

/// A link is scored where the file of its spheres is there.
pub proof fn links_with_spheres_are_scored(
    links: Seq<(ItemView, Seq<char>)>,
    present: Seq<bool>,
    i: int,
)
    requires
        0 <= i < links.len() <= present.len(),
        present[i],
    ensures
        present_only(links, present).contains(links[i]),
    decreases links.len(),
{
    let f = links.drop_last();
    let front = present_only(f, present);
    let all = present_only(links, present);
    if i == links.len() - 1 {
        assert(all[front.len() as int] == links[i]);
    } else {
        links_with_spheres_are_scored(f, present, i);
        assert(f[i] == links[i]);
        let k = choose|k: int| 0 <= k < front.len() && front[k] == links[i];
        assert(all[k] == links[i]);
    }
}

/// A link whose spheres are not there is not scored.
pub proof fn links_without_spheres_are_not_scored(
    links: Seq<(ItemView, Seq<char>)>,
    present: Seq<bool>,
    x: (ItemView, Seq<char>),
)
    requires
        present_only(links, present).contains(x),
    ensures
        exists|i: int|
            0 <= i < links.len() && i < present.len() && present[i] && #[trigger] links[i] == x,
    decreases links.len(),
{
    let f = links.drop_last();
    let front = present_only(f, present);
    let all = present_only(links, present);
    let k = choose|k: int| 0 <= k < all.len() && all[k] == x;
    if k < front.len() {
        assert(front[k] == x);
        links_without_spheres_are_not_scored(f, present, x);
        let i = choose|i: int|
            0 <= i < f.len() && i < present.len() && present[i] && #[trigger] f[i] == x;
        assert(links[i] == x);
    } else {
        assert(links[links.len() - 1] == x);
    }
}

/// A relative path names a file below the directory of its session, an absolute one itself,
/// and one of a package the first place where it is found.
pub proof fn files_are_looked_for_in_their_session(s: SessionView, path: Seq<char>)
    ensures
        !text::begins(path, "package://"@) && path.len() > 0 && path[0] == '/' ==> file_target(
            s,
            path,
        ) == Ok::<TargetView, ApiErrorView>(TargetView::At(path)),
        !text::begins(path, "package://"@) && !(path.len() > 0 && path[0] == '/')
            && paths::normalized(path) is Ok ==> (file_target(s, path) matches Ok(TargetView::At(t))
            && paths::below(t, s.work_dir) && paths::path_parts(t) == paths::path_parts(s.work_dir)
            + paths::normalized(path)->Ok_0),
        !text::begins(path, "package://"@) && !(path.len() > 0 && path[0] == '/')
            && paths::normalized(path) is Err ==> (file_target(s, path) matches Err(e) && e.status
            == 400),
        text::begins(path, "package://"@) ==> (file_target(s, path) matches Ok(
            TargetView::Search(t),
        ) && t == inspect::search_for(
            path,
            s.work_dir,
            match s.report {
                Some(r) => r.urdf_path,
                None => s.work_dir,
            },
        )),
{
    if paths::normalized(path) is Ok {
        paths::joined_paths_stay_below(s.work_dir, path);
    }
}

/// A file is served exactly where it was resolved, is there and lies inside its session; a
/// missing one is not found, and one outside is forbidden.
pub proof fn only_files_of_the_session_are_served(
    path: Seq<char>,
    resolved: bool,
    there: bool,
    inside: bool,
)
    ensures
        file_refusal(path, resolved, there, inside) is None <==> resolved && there && inside,
        !resolved || !there ==> (file_refusal(path, resolved, there, inside) matches Some(e)
            && e.status == 404),
        resolved && there && !inside ==> (file_refusal(path, resolved, there, inside) matches Some(
            e,
        ) && e.status == 403),
{
}

/// A file query names its session and its path.
pub proof fn files_are_asked_for_field_by_field(q: Seq<(Seq<char>, Seq<char>)>)
    ensures
        file_fields(q) matches Ok((id, path)) ==> param(q, "session_id"@) == Ok::<
            Seq<char>,
            ApiErrorView,
        >(id) && param(q, "path"@) == Ok::<Seq<char>, ApiErrorView>(path),
        param(q, "session_id"@) is Ok && param(q, "path"@) is Ok ==> file_fields(q) is Ok,
{
}

/// Every accepted upload has its own target, in order, and the sizes add up.
pub proof fn uploads_have_their_own_targets(work_dir: Seq<char>, uploads: Seq<UploadView>, i: int)
    requires
        0 <= i < uploads.len(),
    ensures
        upload_plan(work_dir, uploads) matches Ok((targets, total)) ==> targets.len()
            == uploads.len() && uploads[i].filename is Some && paths::normalized(
            uploads[i].filename->0,
        ) is Ok && targets[i] == paths::joined(
            work_dir,
            paths::normalized(uploads[i].filename->0)->Ok_0,
        ) && total >= uploads[i].data.len(),
    decreases uploads.len(),
{
    if let Ok((targets, total)) = upload_plan(work_dir, uploads) {
        lemma_target_count(work_dir, uploads);
        let f = uploads.drop_last();
        lemma_target_count(work_dir, f);
        if i < f.len() {
            uploads_have_their_own_targets(work_dir, f, i);
        } else {
            let e = Seq::<char>::empty();
            assert(paths::slashed(e).len() == 0) by {
                assert(text::replace_char(e, '\\', '/').len() == 0);
            }
        }
    }
}

proof fn lemma_target_count(work_dir: Seq<char>, uploads: Seq<UploadView>)
    ensures
        upload_plan(work_dir, uploads) matches Ok((targets, total)) ==> targets.len()
            == uploads.len(),
    decreases uploads.len(),
{
    if uploads.len() > 0 {
        lemma_target_count(work_dir, uploads.drop_last());
    }
}

/// The sizes of an accepted upload add up to its total.
pub proof fn the_total_is_the_sum_of_the_sizes(
    work_dir: Seq<char>,
    uploads: Seq<UploadView>,
    f: UploadView,
)
    ensures
        upload_plan(work_dir, uploads.push(f)) matches Ok((_, total)) ==> (upload_plan(
            work_dir,
            uploads,
        ) matches Ok((_, before)) && total == before + f.data.len()),
        upload_plan(work_dir, Seq::<UploadView>::empty()) matches Ok((_, total)) && total == 0,
{
    assert(uploads.push(f).drop_last() =~= uploads);
}

/// The directories that a request drops are those of the expired sessions, and no others.
pub proof fn dropped_directories_are_those_of_expired_sessions(
    v: Seq<SessionView>,
    root: Seq<char>,
    ttl: int,
    now: int,
    d: Seq<char>,
)
    ensures
        dropped(v, root, ttl, now).contains(d) <==> exists|i: int|
            0 <= i < v.len() && now - (#[trigger] v[i]).last_access > ttl && d
                == inspect::path_join(root, v[i].id),
{
    let keep = sessions::drops(now, ttl);
    let got = v.filter(keep);
    let dirs = dropped(v, root, ttl, now);
    if dirs.contains(d) {
        let k = choose|k: int| 0 <= k < dirs.len() && dirs[k] == d;
        v.lemma_filter_pred(keep, k);
        assert(got.contains(got[k]));
        v.lemma_filter_contains_rev(keep, got[k]);
        let i = choose|i: int| 0 <= i < v.len() && v[i] == got[k];
        assert(now - v[i].last_access > ttl);
    }
    if exists|i: int|
        0 <= i < v.len() && now - (#[trigger] v[i]).last_access > ttl && d == inspect::path_join(
            root,
            v[i].id,
        ) {
        let i = choose|i: int|
            0 <= i < v.len() && now - (#[trigger] v[i]).last_access > ttl && d
                == inspect::path_join(root, v[i].id);
        v.lemma_filter_contains(keep, i);
        let k = choose|k: int| 0 <= k < got.len() && got[k] == v[i];
        assert(dirs[k] == d);
    }
}

} // verus!
