//! What the JavaScript API decides: how many iterations a call runs, what can
//! be read while one is in flight, and how its options are read.

use vstd::prelude::*;

use crate::capi::log::LogLevel;
use crate::color;
use crate::config;
use crate::config::{PackParams, ParamsView};
use crate::inspect::CollisionItem;
use crate::pack;
use crate::studio::job;
use crate::studio::job::ItemPlan;
use crate::text;
use crate::{Error, ErrorView};

verus! {

/// Where a session stands.
#[derive(Clone, Copy, Debug, PartialEq, Eq, Structural)]
pub enum SessionState {
    Running,
    Converged,
    Completed,
    Finalized,
}

/// The name of a state.
pub open spec fn state_name(s: SessionState) -> Seq<char> {
    match s {
        SessionState::Running => "running"@,
        SessionState::Converged => "converged"@,
        SessionState::Completed => "completed"@,
        SessionState::Finalized => "finalized"@,
    }
}

/// What can still be read while a step is in flight.
#[derive(Clone, Copy, Debug, PartialEq, Eq, Structural)]
pub struct Snapshot {
    pub iteration: usize,
    pub total_iterations: usize,
    pub state: SessionState,
    pub done: bool,
}

/// The message when a session is in use.
pub open spec fn busy_message() -> Seq<char> {
    "session busy: a step is in progress"@
}

/// One packing run, as JavaScript sees it: while a step is in flight the
/// counters read the last completed step, and everything else is refused.
#[derive(Clone, Copy, Debug, PartialEq, Eq, Structural)]
pub struct JsSession {
    /// A step is in flight.
    pub busy: bool,
    pub snap: Snapshot,
}

impl JsSession {
    /// A session at rest.
    pub fn from_session(snap: Snapshot) -> (out: JsSession)
        ensures
            out == (JsSession { busy: false, snap }),
    {
        JsSession { busy: false, snap }
    }

    /// Whether the session can be used now.
    pub fn with(&self) -> (res: Result<(), String>)
        ensures
            match res {
                Ok(()) => !self.busy,
                Err(m) => self.busy && m@ == busy_message(),
            },
    {
        if self.busy {
            Err(String::from_str("session busy: a step is in progress"))
        } else {
            Ok(())
        }
    }

    /// Take the session out to step it.
    pub fn take(&mut self) -> (res: Result<(), String>)
        ensures
            match res {
                Ok(()) => !old(self).busy && *final(self) == (JsSession {
                    busy: true,
                    ..*old(self)
                }),
                Err(m) => old(self).busy && m@ == busy_message() && *final(self) == *old(self),
            },
    {
        let res = self.with();
        if !self.busy {
            self.busy = true;
        }
        res
    }

    /// Put the session back as the step left it.
    pub fn put(&mut self, snap: Snapshot)
        ensures
            *final(self) == (JsSession { busy: false, snap }),
    {
        self.busy = false;
        self.snap = snap;
    }

    /// No iterations remain.
    pub fn is_done(&self) -> (yes: bool)
        ensures
            yes == self.snap.done,
    {
        self.snap.done
    }

    /// Iterations run so far.
    pub fn iteration(&self) -> (n: usize)
        ensures
            n == self.snap.iteration,
    {
        self.snap.iteration
    }

    /// Iterations in all.
    pub fn total_iterations(&self) -> (n: usize)
        ensures
            n == self.snap.total_iterations,
    {
        self.snap.total_iterations
    }

    /// `running`, `converged`, `completed` or `finalized`.
    pub fn state(&self) -> (out: String)
        ensures
            out@ == state_name(self.snap.state),
    {
        match self.snap.state {
            SessionState::Running => String::from_str("running"),
            SessionState::Converged => String::from_str("converged"),
            SessionState::Completed => String::from_str("completed"),
            SessionState::Finalized => String::from_str("finalized"),
        }
    }
}

/// How many iterations a call may still run.
#[derive(Clone, Copy, Debug, PartialEq, Eq, Structural)]
pub struct StepRun {
    pub left: usize,
}

/// What one iteration came to.
#[derive(Clone, Copy, Debug, PartialEq, Eq, Structural)]
pub struct StepEnd {
    pub failed: bool,
    /// The time budget of the call is spent.
    pub over_budget: bool,
    /// The session has no iterations left.
    pub done: bool,
}

/// How many iterations a call runs that may run `left`, where the session was
/// `done` and the iterations would come to `ends`.
pub open spec fn steps_run(left: nat, done: bool, ends: Seq<StepEnd>) -> nat
    decreases ends.len(),
{
    if left == 0 || done || ends.len() == 0 {
        0
    } else {
        let e = ends[0];
        if e.failed || e.over_budget {
            1
        } else {
            1 + steps_run((left - 1) as nat, e.done, ends.skip(1))
        }
    }
}

impl StepRun {
    /// A call that runs one iteration.
    pub fn step() -> (out: StepRun)
        ensures
            out.left == 1,
    {
        StepRun { left: 1 }
    }

    /// A call that runs up to `max_steps` iterations, or all that remain.
    pub fn step_many(max_steps: Option<usize>) -> (out: StepRun)
        ensures
            out.left == (match max_steps {
                Some(n) => n,
                None => usize::MAX,
            }),
    {
        StepRun {
            left: match max_steps {
                Some(n) => n,
                None => usize::MAX,
            },
        }
    }

    /// Whether to run another iteration.
    pub fn may_step(&self, done: bool) -> (yes: bool)
        ensures
            yes == (!done && self.left > 0),
    {
        !done && self.left > 0
    }

    /// An iteration has ended.
    pub fn stepped(&mut self, end: StepEnd)
        requires
            old(self).left > 0,
        ensures
            final(self).left == (if end.failed || end.over_budget {
                0
            } else {
                old(self).left - 1
            }),
    {
        if end.failed || end.over_budget {
            self.left = 0;
        } else {
            self.left = self.left - 1;
        }
    }
}

/// A call never runs more iterations than it may, none after one that failed
/// or spent the budget, and none on a session that is done.
pub proof fn a_call_keeps_its_limits(left: nat, done: bool, ends: Seq<StepEnd>)
    ensures
        steps_run(left, done, ends) <= left,
        steps_run(left, done, ends) <= ends.len(),
        done ==> steps_run(left, done, ends) == 0,
        forall|i: int|
            0 <= i < steps_run(left, done, ends) - 1 ==> !(#[trigger] ends[i]).failed
                && !ends[i].over_budget && !ends[i].done,
    decreases ends.len(),
{
    if left > 0 && !done && ends.len() > 0 {
        let rest = ends.skip(1);
        a_call_keeps_its_limits((left - 1) as nat, ends[0].done, rest);
        if !ends[0].failed && !ends[0].over_budget {
            assert forall|i: int| 0 <= i < steps_run(left, done, ends) - 1 implies !(
            #[trigger] ends[i]).failed && !ends[i].over_budget && !ends[i].done by {
                if i > 0 {
                    assert(rest[i - 1] == ends[i]);
                }
            }
        }
    }
}

/// The options of a pack request; what is absent takes its default.
#[derive(Debug)]
pub struct PackRequest {
    pub variant: Option<String>,
    pub num_spheres: Option<usize>,
    pub iterations: Option<usize>,
    pub seed: Option<u64>,
    /// The flat `advanced` overrides as JSON; absent also where it is null.
    pub advanced: Option<String>,
    pub union_overlapping_bodies: Option<bool>,
    pub convex_hull: Option<bool>,
}

/// The request with its defaults, given its overrides.
pub open spec fn requested(r: PackRequest, advanced: Seq<(Seq<char>, Seq<char>)>) -> ParamsView {
    ParamsView {
        variant: match r.variant {
            Some(v) => v@,
            None => "MorphIt-B"@,
        },
        num_spheres: match r.num_spheres {
            Some(n) => n as int,
            None => 20,
        },
        iterations: match r.iterations {
            Some(n) => n as int,
            None => 200,
        },
        seed: match r.seed {
            Some(s) => Some(s as int),
            None => None,
        },
        advanced,
        union_overlapping_bodies: pack::flag_or(r.union_overlapping_bodies, true),
        convex_hull: pack::flag_or(r.convex_hull, false),
    }
}

/// The overrides of a request.
pub open spec fn request_overrides(r: PackRequest) -> Result<
    Seq<(Seq<char>, Seq<char>)>,
    ErrorView,
> {
    match r.advanced {
        Some(j) => config::advanced(j@),
        None => Ok(Seq::empty()),
    }
}

/// The request with its defaults, checked as the API checks it.
pub fn request_params(r: &PackRequest) -> (res: Result<PackParams, Error>)
    ensures
        match request_overrides(*r) {
            Err(e) => res matches Err(x) && x@ == e,
            Ok(a) => {
                let p = requested(*r, a);
                match config::refusal(p.variant, p.num_spheres, p.iterations) {
                    Some(e) => res matches Err(x) && x@ == e,
                    None => res matches Ok(q) && q@ == p,
                }
            },
        },
{
    let advanced = match &r.advanced {
        Some(j) => match config::parse_advanced(j.as_str()) {
            Ok(a) => a,
            Err(e) => return Err(e),
        },
        None => Vec::new(),
    };
    assert(r.advanced is None ==> text::pair_views(advanced@) =~= Seq::empty());
    let prep = pack::mesh_prep_of(r.union_overlapping_bodies, r.convex_hull);
    let params = PackParams {
        variant: match &r.variant {
            Some(v) => v.clone(),
            None => String::from_str("MorphIt-B"),
        },
        num_spheres: match r.num_spheres {
            Some(n) => n,
            None => 20,
        },
        iterations: match r.iterations {
            Some(n) => n,
            None => 200,
        },
        seed: r.seed,
        advanced,
        union_overlapping_bodies: prep.union_overlapping_bodies,
        convex_hull: prep.convex_hull,
    };
    match params.validate() {
        Ok(()) => Ok(params),
        Err(e) => Err(e),
    }
}

/// How to pack one item, with parameters that [`request_params`] gave; the
/// device is `auto` unless another is asked for.
pub fn pack_link(item: &CollisionItem, params: &PackParams, device: Option<&str>) -> (res: Result<
    ItemPlan,
    String,
>)
    ensures
        match res {
            Ok(p) => {
                &&& pack::mesh_to_pack(item@) matches Ok(m) && m == p.mesh_path@
                &&& p.settings.is_for(
                    params@,
                    match device {
                        Some(d) => d@,
                        None => "auto"@,
                    },
                    "spheres"@,
                )
                &&& p.settings.output_filename@ == pack::result_name(
                    item@.link_name,
                    item@.collision_index as nat,
                )
            },
            Err(m) => pack::mesh_to_pack(item@) matches Err(e) && m@ == e.message(),
        },
{
    match device {
        Some(d) => job::plan_item(item, params, d),
        None => job::plan_item(item, params, "auto"),
    }
}

/// Group flat coordinates into triples.
pub fn centers_of<T: Copy>(flat: &[T]) -> (res: Result<Vec<[T; 3]>, String>)
    ensures
        match res {
            Ok(v) => {
                &&& 3 * v@.len() == flat@.len()
                &&& forall|i: int|
                    0 <= i < v@.len() ==> (#[trigger] v@[i])@ == seq![
                        flat@[3 * i],
                        flat@[3 * i + 1],
                        flat@[3 * i + 2],
                    ]
            },
            Err(m) => flat@.len() % 3 != 0 && m@ == "centers must hold x y z triples"@,
        },
{
    if flat.len() % 3 != 0 {
        return Err(String::from_str("centers must hold x y z triples"));
    }
    let len: usize = flat.len();
    let n: usize = len / 3;
    let mut out: Vec<[T; 3]> = Vec::new();
    let mut i: usize = 0;
    while i < n
        invariant
            i <= n,
            3 * n == len,
            len == flat@.len(),
            out@.len() == i,
            forall|j: int|
                0 <= j < i ==> (#[trigger] out@[j])@ == seq![
                    flat@[3 * j],
                    flat@[3 * j + 1],
                    flat@[3 * j + 2],
                ],
        decreases n - i,
    {
        let row = [flat[3 * i], flat[3 * i + 1], flat[3 * i + 2]];
        assert(row@ =~= seq![flat@[3 * i], flat@[3 * i + 1], flat@[3 * i + 2]]);
        out.push(row);
        i = i + 1;
    }
    Ok(out)
}

/// The color of a model: soft blue unless one is asked for, which must then be
/// a color.
pub fn model_color(hex: Option<&str>) -> (res: Result<[u8; 4], String>)
    ensures
        match res {
            Ok(c) => {
                &&& c@[3] == 255
                &&& hex matches Some(h) ==> color::hex_color(h@) is Some
                &&& (c@[0] as int, c@[1] as int, c@[2] as int) == color::color_or_default(
                    text::opt_str(hex),
                )
            },
            Err(m) => hex matches Some(h) && color::hex_color(h@) is None && m@
                == "color must be #rrggbb, got "@ + h@,
        },
{
    match hex {
        None => Ok(color::safe_color_rgba(None)),
        Some(h) => match color::hex_to_rgba(h) {
            Some(c) => Ok(c),
            None => {
                let mut m = String::from_str("color must be #rrggbb, got ");
                m.append(h);
                Err(m)
            },
        },
    }
}

/// The options of an object model; what is absent takes its default. The mass
/// is a number as text.
#[derive(Debug)]
pub struct ModelOptions {
    pub name: Option<String>,
    pub color: Option<String>,
    pub total_mass: Option<String>,
    pub anchored: Option<bool>,
    pub decimals: Option<usize>,
}

/// The settings of an object model.
#[derive(Debug)]
pub struct ModelSettings {
    pub robot_name: String,
    pub color: [u8; 4],
    pub decimals: usize,
    pub total_mass: String,
    pub anchored: bool,
}

/// The settings that the options of an object model ask for.
pub fn model_options(o: &ModelOptions) -> (res: Result<ModelSettings, String>)
    ensures
        match res {
            Ok(m) => {
                &&& o.color matches Some(h) ==> color::hex_color(h@) is Some
                &&& m.color@[3] == 255
                &&& (m.color@[0] as int, m.color@[1] as int, m.color@[2] as int)
                    == color::color_or_default(text::opt_text(o.color))
                &&& m.robot_name@ == (match o.name {
                    Some(n) => n@,
                    None => "object"@,
                })
                &&& m.decimals == (match o.decimals {
                    Some(n) => n,
                    None => 6,
                })
                &&& m.total_mass@ == (match o.total_mass {
                    Some(t) => t@,
                    None => "1"@,
                })
                &&& m.anchored == (o.anchored == Some(true))
            },
            Err(m) => o.color matches Some(h) && color::hex_color(h@) is None && m@
                == "color must be #rrggbb, got "@ + h@,
        },
{
    let asked = match &o.color {
        Some(c) => Some(c.as_str()),
        None => None,
    };
    let color = match model_color(asked) {
        Ok(c) => c,
        Err(m) => return Err(m),
    };
    Ok(
        ModelSettings {
            robot_name: match &o.name {
                Some(n) => n.clone(),
                None => String::from_str("object"),
            },
            color,
            decimals: match o.decimals {
                Some(n) => n,
                None => 6,
            },
            total_mass: match &o.total_mass {
                Some(t) => t.clone(),
                None => String::from_str("1"),
            },
            anchored: match o.anchored {
                Some(b) => b,
                None => false,
            },
        },
    )
}

/// The level that a name means: `warn` for none and for an unknown one.
pub open spec fn named_level(name: Option<Seq<char>>) -> LogLevel {
    if name == Some("error"@) {
        LogLevel::Error
    } else if name == Some("info"@) {
        LogLevel::Info
    } else if name == Some("debug"@) {
        LogLevel::Debug
    } else if name == Some("trace"@) {
        LogLevel::Trace
    } else {
        LogLevel::Warn
    }
}

/// The level at which messages go to the console.
pub fn log_level(name: Option<&str>) -> (out: LogLevel)
    ensures
        out == named_level(text::opt_str(name)),
{
    match name {
        None => LogLevel::Warn,
        Some(n) => if text::same(n, "error") {
            LogLevel::Error
        } else if text::same(n, "info") {
            LogLevel::Info
        } else if text::same(n, "debug") {
            LogLevel::Debug
        } else if text::same(n, "trace") {
            LogLevel::Trace
        } else {
            LogLevel::Warn
        },
    }
}

/// A request is taken field by field: what it leaves out is 20 spheres, 200 iterations, the
/// balanced variant, no seed, the union and no hulls.
pub proof fn requests_are_taken_field_by_field(
    r: PackRequest,
    advanced: Seq<(Seq<char>, Seq<char>)>,
)
    ensures
        ({
            let p = requested(r, advanced);
            &&& p.advanced == advanced
            &&& r.variant matches Some(v) ==> p.variant == v@
            &&& r.variant is None ==> p.variant == "MorphIt-B"@
            &&& r.num_spheres matches Some(n) ==> p.num_spheres == n
            &&& r.num_spheres is None ==> p.num_spheres == 20
            &&& r.iterations matches Some(n) ==> p.iterations == n
            &&& r.iterations is None ==> p.iterations == 200
            &&& r.seed matches Some(s) ==> p.seed == Some(s as int)
            &&& r.seed is None ==> p.seed is None
            &&& r.union_overlapping_bodies matches Some(b) ==> p.union_overlapping_bodies == b
            &&& r.union_overlapping_bodies is None ==> p.union_overlapping_bodies
            &&& r.convex_hull matches Some(b) ==> p.convex_hull == b
            &&& r.convex_hull is None ==> !p.convex_hull
        }),
{
}

/// Every level is named by its own name, and any other name means warnings.
pub proof fn levels_are_named(name: Seq<char>)
    ensures
        named_level(Some(name)) is Error <==> name == seq!['e', 'r', 'r', 'o', 'r'],
        named_level(Some(name)) is Info <==> name == seq!['i', 'n', 'f', 'o'],
        named_level(Some(name)) is Debug <==> name == seq!['d', 'e', 'b', 'u', 'g'],
        named_level(Some(name)) is Trace <==> name == seq!['t', 'r', 'a', 'c', 'e'],
        named_level(None) is Warn,
{
    reveal_strlit("error");
    reveal_strlit("info");
    reveal_strlit("debug");
    reveal_strlit("trace");
    assert("error"@ =~= seq!['e', 'r', 'r', 'o', 'r']);
    assert("info"@ =~= seq!['i', 'n', 'f', 'o']);
    assert("debug"@ =~= seq!['d', 'e', 'b', 'u', 'g']);
    assert("trace"@ =~= seq!['t', 'r', 'a', 'c', 'e']);
    assert("error"@[0] == 'e' && "info"@[0] == 'i' && "debug"@[0] == 'd' && "trace"@[0] == 't');
}

/// Different states have different names.
pub proof fn states_have_their_own_names(a: SessionState, b: SessionState)
    ensures
        state_name(a) == state_name(b) <==> a == b,
        a is Running ==> state_name(a) == seq!['r', 'u', 'n', 'n', 'i', 'n', 'g'],
        a is Finalized ==> state_name(a) == seq!['f', 'i', 'n', 'a', 'l', 'i', 'z', 'e', 'd'],
        a is Converged ==> state_name(a) == seq!['c', 'o', 'n', 'v', 'e', 'r', 'g', 'e', 'd'],
        a is Completed ==> state_name(a) == seq!['c', 'o', 'm', 'p', 'l', 'e', 't', 'e', 'd'],
{
    reveal_strlit("running");
    reveal_strlit("converged");
    reveal_strlit("completed");
    reveal_strlit("finalized");
    assert("running"@ =~= seq!['r', 'u', 'n', 'n', 'i', 'n', 'g']);
    assert("finalized"@ =~= seq!['f', 'i', 'n', 'a', 'l', 'i', 'z', 'e', 'd']);
    assert("converged"@ =~= seq!['c', 'o', 'n', 'v', 'e', 'r', 'g', 'e', 'd']);
    assert("completed"@ =~= seq!['c', 'o', 'm', 'p', 'l', 'e', 't', 'e', 'd']);
    assert("running"@[0] == 'r' && "finalized"@[0] == 'f');
    assert("converged"@[0] == 'c' && "completed"@[0] == 'c');
    assert("converged"@[2] == 'n' && "completed"@[2] == 'm');
}

} // verus!
