//! What the panels show: the controls, the progress bar, the table of a robot's
//! collisions, the quality metrics and the part of the window that the 3D view
//! gets.

use vstd::prelude::*;

use crate::inspect::{Action, CollisionItem, ItemView};
use crate::studio::job::Phase;
use crate::studio::state;
use crate::studio::state::{LinkResult, LinkResultView, Live, Mode, Studio};
use crate::text;

verus! {

/// The buttons of the run controls.
#[derive(Debug)]
pub enum RunControls {
    /// While a job is at work: the label of the pause button, beside
    /// "Finish now" and "Cancel".
    Running { pause: String },
    /// Else the label of the pack button, whether it is enabled, and whether
    /// "Clear" is.
    Ready { pack: String, can_pack: bool, can_clear: bool },
}

/// The contents of a [`RunControls`].
pub enum ControlsView {
    Running { pause: Seq<char> },
    Ready { pack: Seq<char>, can_pack: bool, can_clear: bool },
}

impl View for RunControls {
    type V = ControlsView;

    open spec fn view(&self) -> ControlsView {
        match self {
            RunControls::Running { pause } => ControlsView::Running { pause: pause@ },
            RunControls::Ready { pack, can_pack, can_clear } => ControlsView::Ready {
                pack: pack@,
                can_pack: *can_pack,
                can_clear: *can_clear,
            },
        }
    }
}

/// The label of the pack button.
pub open spec fn pack_label<R, Q>(s: Studio<R, Q>) -> Seq<char> {
    match s.mode {
        Mode::Object => "Pack"@,
        Mode::Robot => match s.robot {
            Some(r) => if r.selected is Some {
                "Pack selected"@
            } else {
                "Pack all"@
            },
            None => "Pack all"@,
        },
    }
}

/// Whether the mode's document is open.
pub open spec fn has_document<R, Q>(s: Studio<R, Q>) -> bool {
    match s.mode {
        Mode::Object => s.object is Some,
        Mode::Robot => s.robot is Some,
    }
}

/// The buttons of the run controls.
pub fn run_controls<R, Q>(s: &Studio<R, Q>) -> (out: RunControls)
    ensures
        out@ == (if s.has_job() {
            ControlsView::Running {
                pause: if s.job matches Some(j) && j.control.pause {
                    "Resume"@
                } else {
                    "Pause"@
                },
            }
        } else {
            ControlsView::Ready {
                pack: pack_label(*s),
                can_pack: has_document(*s) && s.loading is None,
                can_clear: has_document(*s),
            }
        }),
{
    if s.job_running() {
        return RunControls::Running {
            pause: if s.paused() {
                String::from_str("Resume")
            } else {
                String::from_str("Pause")
            },
        };
    }
    let open = match s.mode {
        Mode::Object => s.object.is_some(),
        Mode::Robot => s.robot.is_some(),
    };
    let pack = match s.mode {
        Mode::Object => String::from_str("Pack"),
        Mode::Robot => match &s.robot {
            Some(r) => if r.selected.is_some() {
                String::from_str("Pack selected")
            } else {
                String::from_str("Pack all")
            },
            None => String::from_str("Pack all"),
        },
    };
    RunControls::Ready { pack, can_pack: open && s.loading.is_none(), can_clear: open }
}

/// The text of the progress bar.
pub open spec fn progress(l: Live) -> Seq<char> {
    let label = match l.phase {
        Phase::Preparing => "preparing"@,
        Phase::Paused => "paused"@,
        _ => text::decimal(l.iteration as nat) + " / "@ + text::decimal(l.total_iterations as nat),
    };
    if l.items > 1 {
        "mesh "@ + text::decimal((l.item + 1) as nat) + "/"@ + text::decimal(l.items as nat)
            + " \u{b7} "@ + label
    } else {
        label
    }
}

/// The text of the progress bar.
pub fn progress_text(l: &Live) -> (out: String)
    ensures
        out@ == progress(*l),
{
    let mut out = String::new();
    if l.items > 1 {
        out.append("mesh ");
        text::push_decimal_u128(&mut out, l.item as u128 + 1);
        out.append("/");
        text::push_decimal(&mut out, l.items);
        out.append(" \u{b7} ");
    }
    match l.phase {
        Phase::Preparing => {
            out.append("preparing");
        },
        Phase::Paused => {
            out.append("paused");
        },
        _ => {
            text::push_decimal(&mut out, l.iteration);
            out.append(" / ");
            text::push_decimal(&mut out, l.total_iterations);
        },
    }
    assert(out@ =~= progress(*l));
    out
}

/// The ids and labels of the devices to choose from.
pub open spec fn device_choices(gpus: Seq<(int, Seq<char>)>) -> Seq<(Seq<char>, Seq<char>)>
    decreases gpus.len(),
{
    if gpus.len() == 0 {
        seq![("auto"@, "auto"@), ("cpu"@, "cpu"@)]
    } else {
        let (index, name) = gpus.last();
        let id = "gpu:"@ + text::decimal(index as nat);
        device_choices(gpus.drop_last()).push((id, id + " "@ + name))
    }
}

/// The contents of a list of GPUs.
pub open spec fn gpu_views(gpus: Seq<(usize, String)>) -> Seq<(int, Seq<char>)> {
    gpus.map_values(|g: (usize, String)| (g.0 as int, g.1@))
}

/// The ids and labels of the devices to choose from, given the index and name
/// of each GPU.
pub fn list_choices(gpus: &[(usize, String)]) -> (out: Vec<(String, String)>)
    ensures
        text::pair_views(out@) == device_choices(gpu_views(gpus@)),
{
    let ghost v = gpu_views(gpus@);
    let mut out: Vec<(String, String)> = Vec::new();
    out.push((String::from_str("auto"), String::from_str("auto")));
    out.push((String::from_str("cpu"), String::from_str("cpu")));
    let mut i: usize = 0;
    assert(text::pair_views(out@) =~= device_choices(v.take(0)));
    while i < gpus.len()
        invariant
            i <= gpus@.len(),
            v == gpu_views(gpus@),
            text::pair_views(out@) == device_choices(v.take(i as int)),
        decreases gpus@.len() - i,
    {
        let ghost seen = text::pair_views(out@);
        let mut id = String::from_str("gpu:");
        text::push_decimal(&mut id, gpus[i].0);
        let mut label = id.clone();
        label.append(" ");
        label.append(gpus[i].1.as_str());
        let ghost pair = (id@, label@);
        out.push((id, label));
        assert(text::pair_views(out@) =~= seen.push(pair));
        assert(v.take(i + 1).drop_last() =~= v.take(i as int));
        assert(v.take(i + 1).last() == (gpus@[i as int].0 as int, gpus@[i as int].1@));
        i = i + 1;
    }
    assert(v.take(i as int) =~= v);
    out
}

/// The label of an advanced override.
pub fn advanced_label(flat: &str) -> (out: String)
    ensures
        out@ == text::replace_char(flat@, '_', ' '),
{
    let cs = text::replaced(flat, '_', ' ');
    text::from_chars(&cs)
}

/// What the last column of the collision table shows.
#[derive(Clone, Copy, Debug, PartialEq, Eq, Structural)]
pub enum Cell {
    /// A button that saves the result at this place.
    Packed(usize),
    /// A spinner: the item is being packed.
    Busy,
    /// A dash: the item is still to be packed.
    Waiting,
    Blank,
}

/// A row of the collision table.
#[derive(Debug)]
pub struct Row {
    pub selected: bool,
    pub label: String,
    pub geometry: String,
    pub action: String,
    pub warning: Option<String>,
    pub cell: Cell,
}

/// The contents of a [`Row`].
pub struct RowView {
    pub selected: bool,
    pub label: Seq<char>,
    pub geometry: Seq<char>,
    pub action: Seq<char>,
    pub warning: Option<Seq<char>>,
    pub cell: Cell,
}

impl View for Row {
    type V = RowView;

    open spec fn view(&self) -> RowView {
        RowView {
            selected: self.selected,
            label: self.label@,
            geometry: self.geometry@,
            action: self.action@,
            warning: text::opt_text(self.warning),
            cell: self.cell,
        }
    }
}

/// What the table calls an action.
pub open spec fn action_label(a: Action) -> Seq<char> {
    match a {
        Action::Pack => "pack"@,
        Action::RemovePrimitive => "remove"@,
        Action::RemoveAlreadySphere => "remove"@,
        Action::Error => "error"@,
    }
}

/// What the last column shows for `c`.
pub open spec fn cell_of<R>(
    c: ItemView,
    results: Seq<LinkResultView<R>>,
    live: Option<(Seq<char>, int)>,
) -> Cell {
    match state::result_place(results, c.link_name, c.collision_index, 0) {
        Some(k) => Cell::Packed(k as usize),
        None => if !(c.action is Pack) {
            Cell::Blank
        } else if live == Some((c.link_name, c.collision_index)) {
            Cell::Busy
        } else {
            Cell::Waiting
        },
    }
}

/// The row of `c`.
pub open spec fn row_of<R>(
    c: ItemView,
    selected: bool,
    results: Seq<LinkResultView<R>>,
    live: Option<(Seq<char>, int)>,
) -> RowView {
    RowView {
        selected,
        label: c.link_name + "["@ + text::decimal(c.collision_index as nat) + "]"@,
        geometry: c.geometry_type,
        action: action_label(c.action),
        warning: c.warning,
        cell: cell_of(c, results, live),
    }
}

/// The row of `c`.
fn make_row<R>(
    c: &CollisionItem,
    selected: bool,
    results: &[LinkResult<R>],
    live: &Option<(String, usize)>,
) -> (out: Row)
    ensures
        out@ == row_of(c@, selected, state::result_views(results@), state::key_view(*live)),
{
    let mut label = c.link_name.clone();
    label.append("[");
    text::push_decimal(&mut label, c.collision_index);
    label.append("]");
    let action = match c.action {
        Action::Pack => String::from_str("pack"),
        Action::RemovePrimitive => String::from_str("remove"),
        Action::RemoveAlreadySphere => String::from_str("remove"),
        Action::Error => String::from_str("error"),
    };
    let busy = match live {
        Some(k) => text::same(k.0.as_str(), c.link_name.as_str()) && k.1 == c.collision_index,
        None => false,
    };
    let cell = match state::find_result(results, c.link_name.as_str(), c.collision_index) {
        Some(k) => Cell::Packed(k),
        None => if c.action != Action::Pack {
            Cell::Blank
        } else if busy {
            Cell::Busy
        } else {
            Cell::Waiting
        },
    };
    Row {
        selected,
        label,
        geometry: c.geometry_type.clone(),
        action,
        warning: text::copy_opt(&c.warning),
        cell,
    }
}

/// The rows of the collision table; none without a robot.
pub fn robot_table<R, Q>(s: &Studio<R, Q>) -> (out: Vec<Row>)
    ensures
        match s.robot {
            Some(r) => {
                &&& out@.len() == r.report@.collisions.len()
                &&& forall|i: int|
                    0 <= i < out@.len() ==> (#[trigger] out@[i])@ == row_of(
                        r.report@.collisions[i],
                        r.selected == Some(i as usize),
                        state::result_views(r.results@),
                        s.live_item(),
                    )
            },
            None => out@.len() == 0,
        },
{
    let mut out: Vec<Row> = Vec::new();
    let live = s.live_key();
    match &s.robot {
        None => {},
        Some(r) => {
            let ghost v = r.report@.collisions;
            assert(v.len() == r.report.collisions@.len());
            let mut i: usize = 0;
            while i < r.report.collisions.len()
                invariant
                    i <= r.report.collisions@.len(),
                    out@.len() == i,
                    v == r.report@.collisions,
                    state::key_view(live) == s.live_item(),
                    forall|j: int|
                        0 <= j < i ==> (#[trigger] out@[j])@ == row_of(
                            v[j],
                            r.selected == Some(j as usize),
                            state::result_views(r.results@),
                            s.live_item(),
                        ),
                decreases r.report.collisions@.len() - i,
            {
                assert(v[i as int] == r.report.collisions@[i as int]@);
                let selected = match r.selected {
                    Some(k) => k == i,
                    None => false,
                };
                out.push(make_row(&r.report.collisions[i], selected, &r.results, &live));
                i = i + 1;
            }
        },
    }
    out
}

/// What stands around the rows of the collision table.
#[derive(Debug)]
pub struct TableFrame {
    /// How many collisions there are.
    pub collisions: String,
    /// How many of them are packed.
    pub packed: String,
    /// Whether "select none" is offered.
    pub select_none: bool,
    /// Below the rows: what was assembled, and the size of its text.
    pub assembled: Option<(String, String)>,
}

/// The contents of a [`TableFrame`].
pub struct TableFrameView {
    pub collisions: Seq<char>,
    pub packed: Seq<char>,
    pub select_none: bool,
    pub assembled: Option<(Seq<char>, Seq<char>)>,
}

impl View for TableFrame {
    type V = TableFrameView;

    open spec fn view(&self) -> TableFrameView {
        TableFrameView {
            collisions: self.collisions@,
            packed: self.packed@,
            select_none: self.select_none,
            assembled: match self.assembled {
                Some((summary, size)) => Some((summary@, size@)),
                None => None,
            },
        }
    }
}

/// What stands around the rows of the robot `r`.
pub open spec fn frame_of<R, Q>(r: state::RobotState<R, Q>) -> TableFrameView {
    TableFrameView {
        collisions: text::decimal(r.report@.collisions.len()) + " collisions"@,
        packed: "\u{b7} "@ + text::decimal(r.results@.len()) + " packed"@,
        select_none: r.selected is Some,
        assembled: match r.assembled {
            Some((urdf, summary)) => Some(
                (
                    summary@,
                    text::decimal(vstd::utf8::encode_utf8(urdf@).len()) + " bytes"@,
                ),
            ),
            None => None,
        },
    }
}

/// What stands around the rows of the collision table; `None` without a robot.
pub fn table_frame<R, Q>(s: &Studio<R, Q>) -> (out: Option<TableFrame>)
    ensures
        match s.robot {
            Some(r) => out matches Some(f) && f@ == frame_of(r),
            None => out is None,
        },
{
    let r = match &s.robot {
        Some(r) => r,
        None => {
            return None;
        },
    };
    assert(r.report@.collisions.len() == r.report.collisions@.len());
    let mut collisions = String::new();
    text::push_decimal(&mut collisions, r.report.collisions.len());
    collisions.append(" collisions");
    let mut packed = String::from_str("\u{b7} ");
    text::push_decimal(&mut packed, r.results.len());
    packed.append(" packed");
    let assembled = match &r.assembled {
        Some(a) => {
            let mut size = String::new();
            text::push_decimal(&mut size, a.0.as_str().as_bytes().len());
            size.append(" bytes");
            Some((a.1.clone(), size))
        },
        None => None,
    };
    let out = TableFrame { collisions, packed, select_none: r.selected.is_some(), assembled };
    proof {
        assert(out@.collisions =~= frame_of(*r).collisions);
        assert(out@.assembled == frame_of(*r).assembled) by {
            match (out@.assembled, frame_of(*r).assembled) {
                (Some(x), Some(y)) => {
                    assert(x.1 =~= y.1);
                },
                _ => {},
            }
        }
    }
    Some(out)
}

/// Select no row.
pub fn select_none<R, Q>(s: &mut Studio<R, Q>)
    requires
        old(s).well_formed(),
    ensures
        final(s).well_formed(),
        *final(s) == (match old(s).robot {
            Some(r) => Studio {
                robot: Some(state::RobotState { selected: None::<usize>, ..r }),
                ..*old(s)
            },
            None => *old(s),
        }),
{
    match &mut s.robot {
        Some(r) => {
            r.selected = None;
        },
        None => {},
    }
}

/// A click on row `i`: select it, or nothing if it was selected.
pub fn click_row<R, Q>(s: &mut Studio<R, Q>, i: usize)
    requires
        old(s).well_formed(),
    ensures
        final(s).well_formed(),
        *final(s) == (match old(s).robot {
            Some(r) => if i < r.report@.collisions.len() {
                Studio {
                    robot: Some(
                        state::RobotState {
                            selected: if r.selected == Some(i) {
                                None
                            } else {
                                Some(i)
                            },
                            ..r
                        },
                    ),
                    ..*old(s)
                }
            } else {
                *old(s)
            },
            None => *old(s),
        }),
{
    match &mut s.robot {
        Some(r) => {
            assert(r.report@.collisions.len() == r.report.collisions@.len());
            if i < r.report.collisions.len() {
                let same = match r.selected {
                    Some(k) => k == i,
                    None => false,
                };
                r.selected = if same {
                    None
                } else {
                    Some(i)
                };
            }
        },
        None => {},
    }
}

/// What can be exported.
#[derive(Clone, Copy, Debug, PartialEq, Eq, Structural)]
pub struct Exports {
    /// Saving the object's files, or assembling the robot.
    pub results: bool,
    /// Saving the assembled URDF.
    pub assembled: bool,
    pub analyze: bool,
}

/// What can be exported: nothing while a job is at work.
pub fn exports<R, Q>(s: &Studio<R, Q>) -> (out: Exports)
    ensures
        out.results == (!s.has_job() && match s.mode {
            Mode::Object => s.object matches Some(o) && o.result is Some,
            Mode::Robot => s.robot matches Some(r) && r.results@.len() > 0,
        }),
        out.assembled == (out.results && s.mode == Mode::Robot && s.robot->0.assembled is Some),
        out.analyze == (out.results && !s.analyzing),
{
    let idle = !s.job_running();
    let any = match s.mode {
        Mode::Object => match &s.object {
            Some(o) => o.result.is_some(),
            None => false,
        },
        Mode::Robot => match &s.robot {
            Some(r) => r.results.len() > 0,
            None => false,
        },
    };
    let results = idle && any;
    let assembled = match s.mode {
        Mode::Object => false,
        Mode::Robot => match &s.robot {
            Some(r) => results && r.assembled.is_some(),
            None => false,
        },
    };
    Exports { results, assembled, analyze: results && !s.analyzing }
}

/// What the controls show above the form and below the exports.
#[derive(Debug)]
pub struct Controls {
    /// Whether documents can be opened.
    pub open: bool,
    /// The line on the open document.
    pub document: Option<String>,
    /// The chosen URDF, where there are several to choose from.
    pub urdf: Option<String>,
    /// The line on what is being loaded.
    pub loading: Option<String>,
    /// Whether the form can be edited.
    pub form: bool,
    /// Whether the collision table is shown.
    pub table: bool,
    /// The status line; `true` for errors.
    pub message: Option<(String, bool)>,
}

/// The contents of a [`Controls`].
#[verifier::ext_equal]
pub struct ControlView {
    pub open: bool,
    pub document: Option<Seq<char>>,
    pub urdf: Option<Seq<char>>,
    pub loading: Option<Seq<char>>,
    pub form: bool,
    pub table: bool,
    pub message: Option<(Seq<char>, bool)>,
}

impl View for Controls {
    type V = ControlView;

    open spec fn view(&self) -> ControlView {
        ControlView {
            open: self.open,
            document: text::opt_text(self.document),
            urdf: text::opt_text(self.urdf),
            loading: text::opt_text(self.loading),
            form: self.form,
            table: self.table,
            message: state::message_view(self.message),
        }
    }
}

/// The line on the open document: an object with its faces, or a robot.
pub open spec fn document_line<R, Q>(s: Studio<R, Q>) -> Option<Seq<char>> {
    match s.mode {
        Mode::Object => match s.object {
            Some(o) => Some(o.name@ + ": "@ + text::decimal(o.faces as nat) + " faces"@),
            None => None,
        },
        Mode::Robot => match s.robot {
            Some(r) => Some(r.name@),
            None => None,
        },
    }
}

/// The chosen URDF of the open robot, where its package has several.
pub open spec fn urdf_choice<R, Q>(s: Studio<R, Q>) -> Option<Seq<char>> {
    match (s.mode, s.robot) {
        (Mode::Robot, Some(r)) => if r.urdfs@.len() > 1 {
            Some(r.urdf@)
        } else {
            None
        },
        _ => None,
    }
}

/// What the controls show.
pub open spec fn controls_of<R, Q>(s: Studio<R, Q>) -> ControlView {
    ControlView {
        open: !(s.loading is Some || s.has_job()),
        document: document_line(s),
        urdf: urdf_choice(s),
        loading: match s.loading {
            Some(what) => Some("Loading "@ + what@ + "\u{2026}"@),
            None => None,
        },
        form: !s.has_job(),
        table: s.mode == Mode::Robot && s.robot is Some,
        message: state::message_view(s.message),
    }
}

/// What the controls show.
pub fn controls<R, Q>(s: &Studio<R, Q>) -> (out: Controls)
    ensures
        out@ == controls_of(*s),
{
    let document = match s.mode {
        Mode::Object => match &s.object {
            Some(o) => {
                let mut line = o.name.clone();
                line.append(": ");
                text::push_decimal(&mut line, o.faces);
                line.append(" faces");
                assert(line@ =~= o.name@ + ": "@ + text::decimal(o.faces as nat) + " faces"@);
                Some(line)
            },
            None => None,
        },
        Mode::Robot => match &s.robot {
            Some(r) => Some(r.name.clone()),
            None => None,
        },
    };
    let urdf = match (s.mode, &s.robot) {
        (Mode::Robot, Some(r)) => if r.urdfs.len() > 1 {
            Some(r.urdf.clone())
        } else {
            None
        },
        _ => None,
    };
    let loading = match &s.loading {
        Some(what) => {
            let mut line = String::from_str("Loading ");
            line.append(what.as_str());
            line.append("\u{2026}");
            assert(line@ =~= "Loading "@ + what@ + "\u{2026}"@);
            Some(line)
        },
        None => None,
    };
    Controls {
        open: !s.busy(),
        document,
        urdf,
        loading,
        form: !s.job_running(),
        table: match s.mode {
            Mode::Object => false,
            Mode::Robot => s.robot.is_some(),
        },
        message: match &s.message {
            Some(m) => Some((m.0.clone(), m.1)),
            None => None,
        },
    }
}

/// The metrics of a packed object, with its numbers written.
#[derive(Debug)]
pub struct ObjectScores {
    pub spheres: usize,
    pub outside: usize,
    pub tiny: usize,
    /// Shares in percent.
    pub covered: String,
    pub uncovered: String,
    pub union: String,
    /// Distances in thousandths.
    pub mean: String,
    pub max: String,
    /// Errors in percent.
    pub mass: String,
    pub center: String,
    pub inertia: String,
}

/// The rows on the quality of a packed object.
pub open spec fn object_rows(q: ObjectScores) -> Seq<(Seq<char>, Seq<char>)> {
    seq![
        (
            "spheres"@,
            text::decimal(q.spheres as nat) + " ("@ + text::decimal(q.outside as nat)
                + " outside, "@ + text::decimal(q.tiny as nat) + " tiny)"@,
        ),
        ("covered inside"@, q.covered@ + " %"@),
        ("outside the mesh"@, q.uncovered@ + " %"@),
        ("union / mesh volume"@, q.union@),
        ("surface distance"@, "mean "@ + q.mean@ + ", max "@ + q.max@ + " (\u{d7}1000)"@),
        ("mass error"@, q.mass@ + " %"@),
        ("center of mass error"@, q.center@ + " %"@),
        ("inertia error"@, q.inertia@ + " %"@),
    ]
}

/// `value` in percent.
fn percent(value: &str) -> (out: String)
    ensures
        out@ == value@ + " %"@,
{
    let mut out = String::from_str(value);
    out.append(" %");
    out
}

/// The rows on the quality of a packed object.
pub fn object_quality(q: &ObjectScores) -> (out: Vec<(String, String)>)
    ensures
        text::pair_views(out@) == object_rows(*q),
{
    let mut spheres = String::new();
    text::push_decimal(&mut spheres, q.spheres);
    spheres.append(" (");
    text::push_decimal(&mut spheres, q.outside);
    spheres.append(" outside, ");
    text::push_decimal(&mut spheres, q.tiny);
    spheres.append(" tiny)");
    let mut distance = String::from_str("mean ");
    distance.append(q.mean.as_str());
    distance.append(", max ");
    distance.append(q.max.as_str());
    distance.append(" (\u{d7}1000)");
    assert(spheres@ =~= object_rows(*q)[0].1);
    let mut out: Vec<(String, String)> = Vec::new();
    out.push((String::from_str("spheres"), spheres));
    out.push((String::from_str("covered inside"), percent(q.covered.as_str())));
    out.push((String::from_str("outside the mesh"), percent(q.uncovered.as_str())));
    out.push((String::from_str("union / mesh volume"), q.union.clone()));
    out.push((String::from_str("surface distance"), distance));
    out.push((String::from_str("mass error"), percent(q.mass.as_str())));
    out.push((String::from_str("center of mass error"), percent(q.center.as_str())));
    out.push((String::from_str("inertia error"), percent(q.inertia.as_str())));
    assert(text::pair_views(out@) =~= object_rows(*q));
    out
}

/// The metrics of a packed link, with its numbers written.
#[derive(Debug)]
pub struct LinkScores {
    pub link: String,
    pub index: usize,
    pub spheres: usize,
    /// The share in percent.
    pub coverage: String,
    pub mean: String,
    pub max: String,
}

/// The row on the quality of a packed link.
pub open spec fn link_row(q: LinkScores) -> Seq<Seq<char>> {
    seq![
        q.link@ + "["@ + text::decimal(q.index as nat) + "]"@,
        text::decimal(q.spheres as nat),
        q.coverage@ + " %"@,
        q.mean@,
        q.max@,
    ]
}

/// The headings of the rows on the quality of packed links.
pub fn quality_headings() -> (out: Vec<String>)
    ensures
        text::texts(out@) == seq!["link"@, "spheres"@, "coverage"@, "d mean"@, "d max"@],
{
    let mut out: Vec<String> = Vec::new();
    out.push(String::from_str("link"));
    out.push(String::from_str("spheres"));
    out.push(String::from_str("coverage"));
    out.push(String::from_str("d mean"));
    out.push(String::from_str("d max"));
    assert(text::texts(out@) =~= seq!["link"@, "spheres"@, "coverage"@, "d mean"@, "d max"@]);
    out
}

/// The row on the quality of a packed link.
pub fn link_quality(q: &LinkScores) -> (out: Vec<String>)
    ensures
        text::texts(out@) == link_row(*q),
{
    let mut label = q.link.clone();
    label.append("[");
    text::push_decimal(&mut label, q.index);
    label.append("]");
    let mut out: Vec<String> = Vec::new();
    out.push(label);
    out.push(text::to_decimal(q.spheres));
    out.push(percent(q.coverage.as_str()));
    out.push(q.mean.clone());
    out.push(q.max.clone());
    assert(text::texts(out@) =~= link_row(*q));
    out
}

/// The line on the quality of a packed robot.
pub fn overall_quality(spheres: usize, coverage: &str, mean: &str, max: &str) -> (out: String)
    ensures
        out@ == text::decimal(spheres as nat) + " spheres \u{b7} coverage "@ + coverage@
            + " % \u{b7} distance mean "@ + mean@ + ", max "@ + max@,
{
    let mut out = String::new();
    text::push_decimal(&mut out, spheres);
    out.append(" spheres \u{b7} coverage ");
    out.append(coverage);
    out.append(" % \u{b7} distance mean ");
    out.append(mean);
    out.append(", max ");
    out.append(max);
    out
}

/// What the quality panel says without metrics of the open document; `None`
/// where there are metrics.
pub fn quality_hint<R, Q>(s: &Studio<R, Q>) -> (out: Option<String>)
    ensures
        text::opt_text(out) == (match s.mode {
            Mode::Object => if s.object matches Some(o) && o.quality is Some {
                None
            } else {
                Some("Pack, then Analyze for quality metrics."@)
            },
            Mode::Robot => if s.robot matches Some(r) && r.quality is Some {
                None
            } else {
                Some("Pack, then Analyze for per-link metrics."@)
            },
        }),
{
    match s.mode {
        Mode::Object => {
            let there = match &s.object {
                Some(o) => o.quality.is_some(),
                None => false,
            };
            if there {
                None
            } else {
                Some(String::from_str("Pack, then Analyze for quality metrics."))
            }
        },
        Mode::Robot => {
            let there = match &s.robot {
                Some(r) => r.quality.is_some(),
                None => false,
            };
            if there {
                None
            } else {
                Some(String::from_str("Pack, then Analyze for per-link metrics."))
            }
        },
    }
}

/// The loss terms to plot: where terms are shown, those that were not zero all
/// the time.
pub open spec fn plotted(show: bool, idle: Seq<bool>, n: int) -> Seq<int>
    decreases n,
{
    if n <= 0 || !show {
        Seq::empty()
    } else if idle[n - 1] {
        plotted(show, idle, n - 1)
    } else {
        plotted(show, idle, n - 1).push(n - 1)
    }
}

/// The loss terms to plot, where `idle` tells which were zero all the time.
pub fn plots(show: bool, idle: &[bool]) -> (out: Vec<usize>)
    ensures
        out@.map_values(|k: usize| k as int) == plotted(show, idle@, idle@.len() as int),
{
    let mut out: Vec<usize> = Vec::new();
    let mut i: usize = 0;
    assert(out@.map_values(|k: usize| k as int) =~= plotted(show, idle@, 0));
    if !show {
        assert(out@.map_values(|k: usize| k as int) =~= plotted(show, idle@, idle@.len() as int));
        return out;
    }
    while i < idle.len()
        invariant
            show,
            i <= idle@.len(),
            out@.map_values(|k: usize| k as int) == plotted(show, idle@, i as int),
        decreases idle@.len() - i,
    {
        let ghost seen = out@.map_values(|k: usize| k as int);
        if !idle[i] {
            out.push(i);
            assert(out@.map_values(|k: usize| k as int) =~= seen.push(i as int));
        }
        i = i + 1;
    }
    out
}

/// A part of the window, in pixels.
#[derive(Clone, Copy, Debug, PartialEq, Eq, Structural)]
pub struct Viewport {
    pub x: u32,
    pub y: u32,
    pub width: u32,
    pub height: u32,
}

/// `v` held between `lo` and `hi`.
pub open spec fn held(v: int, lo: int, hi: int) -> int {
    if v < lo {
        lo
    } else if v > hi {
        hi
    } else {
        v
    }
}

/// `v` held between `lo` and `hi`.
fn hold(v: u32, lo: u32, hi: u32) -> (out: u32)
    ensures
        out == held(v as int, lo as int, hi as int),
{
    if v < lo {
        lo
    } else if v > hi {
        hi
    } else {
        v
    }
}

/// The sides of a window that is at least one pixel large.
pub open spec fn side(n: u32) -> int {
    held(n as int, 1, n as int + 1)
}

/// The part of a window of `width` by `height` pixels that the 3D view gets,
/// where the panels leave `free`.
pub open spec fn view_in(free: Viewport, width: u32, height: u32) -> Viewport {
    let x = held(free.x as int, 0, side(width) - 1);
    let y = held(free.y as int, 0, side(height) - 1);
    Viewport {
        x: x as u32,
        y: y as u32,
        width: held(free.width as int, 1, side(width) - x) as u32,
        height: held(free.height as int, 1, side(height) - y) as u32,
    }
}

/// The part of a window of `width` by `height` pixels that the 3D view gets,
/// where the panels leave `free`.
pub fn viewport(free: Viewport, width: u32, height: u32) -> (out: Viewport)
    ensures
        out == view_in(free, width, height),
{
    let w: u32 = if width < 1 {
        1
    } else {
        width
    };
    let h: u32 = if height < 1 {
        1
    } else {
        height
    };
    let x: u32 = hold(free.x, 0, w - 1);
    let y: u32 = hold(free.y, 0, h - 1);
    Viewport { x, y, width: hold(free.width, 1, w - x), height: hold(free.height, 1, h - y) }
}

/// The 3D view is never empty and never leaves the window, whatever the
/// panels leave free.
pub proof fn the_view_stays_in_the_window(free: Viewport, width: u32, height: u32)
    ensures
        ({
            let v = view_in(free, width, height);
            &&& v.width >= 1
            &&& v.height >= 1
            &&& v.x + v.width <= side(width)
            &&& v.y + v.height <= side(height)
        }),
{
}

/// How a group's pool of sphere entities changes.
#[derive(Clone, Copy, Debug, PartialEq, Eq, Structural)]
pub struct PoolPlan {
    /// How many entities to add.
    pub spawn: usize,
    /// How many show a sphere; the rest are hidden.
    pub show: usize,
    /// The signature of what is shown.
    pub shown: u64,
}

/// What to do with a pool of `pool` entities that shows `shown`, where
/// `spheres` is the signature and number of the group's spheres; `None` where
/// nothing changes.
pub fn plan_pool(pool: usize, shown: u64, spheres: Option<(u64, usize)>) -> (out: Option<PoolPlan>)
    ensures
        match spheres {
            None => out == Some(PoolPlan { spawn: 0, show: 0, shown: 0 }),
            Some((signature, n)) => if signature == shown {
                out is None
            } else {
                out matches Some(p) && p.show == n && p.shown == signature && p.spawn == (if n
                    > pool {
                    n - pool
                } else {
                    0
                })
            },
        },
{
    match spheres {
        None => Some(PoolPlan { spawn: 0, show: 0, shown: 0 }),
        Some((signature, n)) => {
            if signature == shown {
                return None;
            }
            Some(
                PoolPlan {
                    spawn: if n > pool {
                        n - pool
                    } else {
                        0
                    },
                    show: n,
                    shown: signature,
                },
            )
        },
    }
}

/// The automatic choice and the processor come first, then every graphics card in turn under
/// its own number.
pub proof fn every_device_can_be_chosen(gpus: Seq<(int, Seq<char>)>, i: int)
    ensures
        device_choices(gpus).len() == gpus.len() + 2,
        device_choices(gpus)[0].0 == "auto"@,
        device_choices(gpus)[1].0 == "cpu"@,
        0 <= i < gpus.len() ==> device_choices(gpus)[i + 2].0 == "gpu:"@ + text::decimal(
            gpus[i].0 as nat,
        ) && device_choices(gpus)[i + 2].1 == "gpu:"@ + text::decimal(gpus[i].0 as nat) + " "@
            + gpus[i].1,
    decreases gpus.len(),
{
    if gpus.len() > 0 {
        let f = gpus.drop_last();
        every_device_can_be_chosen(f, i);
        if 0 <= i < f.len() {
            assert(f[i] == gpus[i]);
        }
    }
}

/// Terms are plotted where terms are shown, except those that were zero all the time.
pub proof fn terms_that_were_not_zero_are_plotted(show: bool, idle: Seq<bool>, n: int, i: int)
    requires
        0 <= n <= idle.len(),
    ensures
        plotted(show, idle, n).contains(i) <==> show && 0 <= i < n && !idle[i],
    decreases n,
{
    if n > 0 && show {
        terms_that_were_not_zero_are_plotted(show, idle, n - 1, i);
        let front = plotted(show, idle, n - 1);
        let all = plotted(show, idle, n);
        if !idle[n - 1] {
            assert(all[front.len() as int] == n - 1);
            if front.contains(i) {
                let k = choose|k: int| 0 <= k < front.len() && front[k] == i;
                assert(all[k] == i);
            }
            if all.contains(i) && i != n - 1 {
                let k = choose|k: int| 0 <= k < all.len() && all[k] == i;
                assert(front[k] == i);
            }
        }
    }
}

/// A value is held in its range: it stays where it is inside, and goes to the nearest end
/// from outside.
pub proof fn values_are_held_in_their_range(v: int, lo: int, hi: int)
    requires
        lo <= hi,
    ensures
        lo <= held(v, lo, hi) <= hi,
        lo <= v <= hi ==> held(v, lo, hi) == v,
        v < lo ==> held(v, lo, hi) == lo,
        v > hi ==> held(v, lo, hi) == hi,
{
}

/// The last column shows the result of a collision where there is one, and otherwise what
/// becomes of it.
pub proof fn cells_show_what_becomes_of_a_collision<R>(
    c: ItemView,
    results: Seq<LinkResultView<R>>,
    live: Option<(Seq<char>, int)>,
    k: int,
)
    requires
        0 <= k <= results.len() <= usize::MAX,
        forall|i: int|
            0 <= i < k ==> (#[trigger] results[i]).link != c.link_name || results[i].index
                != c.collision_index,
    ensures
        k < results.len() && results[k].link == c.link_name && results[k].index == c.collision_index
            ==> cell_of(c, results, live) == Cell::Packed(k as usize),
        k == results.len() && !(c.action is Pack) ==> cell_of(c, results, live) == Cell::Blank,
        k == results.len() && c.action is Pack ==> (cell_of(c, results, live) == Cell::Busy <==> live
            == Some((c.link_name, c.collision_index))) && (cell_of(c, results, live)
            == Cell::Waiting <==> live != Some((c.link_name, c.collision_index))),
{
    state::lemma_first_result(results, c.link_name, c.collision_index, 0, k);
}

} // verus!
