//! What the command-line tool reports about a mesh, its preparation, a packing
//! run and its quality. Numbers that are measured come as text.

use vstd::prelude::*;

use crate::cli;
use crate::numeral;
use crate::paths;
use crate::server::object_mode::MeshFormat;
use crate::text;

verus! {

/// What mesh preparation did.
#[derive(Debug)]
pub struct PrepReport {
    /// `unchanged`, `unioned`, `hulled`, `skipped` or `disabled`.
    pub action: String,
    pub reason: String,
    pub bodies: usize,
    pub closed: usize,
    pub open: usize,
    pub degenerate_dropped: usize,
    pub overlapping: bool,
}

/// Whether preparation replaced the mesh.
pub open spec fn replaced(action: Seq<char>) -> bool {
    action == "unioned"@ || action == "hulled"@
}

impl PrepReport {
    /// Whether preparation replaced the mesh.
    pub fn changed(&self) -> (yes: bool)
        ensures
            yes == replaced(self.action@),
    {
        text::same(self.action.as_str(), "unioned") || text::same(self.action.as_str(), "hulled")
    }
}

/// The note of a packing run on mesh preparation.
pub open spec fn prep_text(p: PrepReport) -> Option<Seq<char>> {
    if replaced(p.action@) {
        Some("mesh prep: "@ + p.reason@)
    } else {
        None
    }
}

/// The note of a quality report on mesh preparation.
pub open spec fn scoring_text(p: PrepReport, raw_mesh: bool) -> Option<Seq<char>> {
    if replaced(p.action@) && !raw_mesh {
        Some("scoring the prepared mesh: "@ + p.reason@)
    } else {
        None
    }
}

/// The note of a packing run on mesh preparation, unless it left the mesh as
/// it was.
pub fn prep_note(prep: &PrepReport) -> (out: Option<String>)
    ensures
        text::opt_text(out) == prep_text(*prep),
{
    if prep.changed() {
        let mut m = String::from_str("mesh prep: ");
        m.append(prep.reason.as_str());
        Some(m)
    } else {
        None
    }
}

/// The note of a quality report on mesh preparation, unless it left the mesh
/// as it was or the mesh is scored as loaded.
pub fn scoring_note(prep: &PrepReport, raw_mesh: bool) -> (out: Option<String>)
    ensures
        text::opt_text(out) == scoring_text(*prep, raw_mesh),
{
    if !raw_mesh && prep.changed() {
        let mut m = String::from_str("scoring the prepared mesh: ");
        m.append(prep.reason.as_str());
        Some(m)
    } else {
        None
    }
}

/// The note of `morphit prepare`.
pub fn prepare_note(prep: &PrepReport) -> (out: String)
    ensures
        out@ == "mesh prep: "@ + prep.action@ + " ("@ + prep.reason@ + ")"@,
{
    let mut m = String::from_str("mesh prep: ");
    m.append(prep.action.as_str());
    m.append(" (");
    m.append(prep.reason.as_str());
    m.append(")");
    m
}

/// The format of a prepared mesh: as asked, else STL for a `.stl` file and OBJ
/// for everything else. STL is binary and needs a file.
pub open spec fn prepared_format(asked: Option<MeshFormat>, output: Option<Seq<char>>) -> Result<
    MeshFormat,
    Seq<char>,
> {
    match (asked, output) {
        (Some(MeshFormat::Stl), None) => Err("STL is binary: write it to a file with -o"@),
        (Some(f), _) => Ok(f),
        (None, None) => Ok(MeshFormat::Obj),
        (None, Some(o)) => match paths::path_extension(o) {
            Some(e) => if numeral::ascii_lowercase(e) == "stl"@ {
                Ok(MeshFormat::Stl)
            } else {
                Ok(MeshFormat::Obj)
            },
            None => Ok(MeshFormat::Obj),
        },
    }
}

/// The format of a prepared mesh, or why there is none.
pub fn prepare_format(asked: Option<MeshFormat>, output: Option<&str>) -> (res: Result<
    MeshFormat,
    String,
>)
    ensures
        match res {
            Ok(f) => prepared_format(asked, text::opt_str(output)) == Ok::<MeshFormat, Seq<char>>(
                f,
            ),
            Err(m) => prepared_format(asked, text::opt_str(output)) == Err::<
                MeshFormat,
                Seq<char>,
            >(m@),
        },
{
    match (asked, output) {
        (Some(MeshFormat::Stl), None) => Err(
            String::from_str("STL is binary: write it to a file with -o"),
        ),
        (Some(f), _) => Ok(f),
        (None, None) => Ok(MeshFormat::Obj),
        (None, Some(o)) => match paths::extension(o) {
            Some(e) => {
                let low = text::from_chars(&numeral::lowered(&text::to_chars(e.as_str())));
                if text::same(low.as_str(), "stl") {
                    Ok(MeshFormat::Stl)
                } else {
                    Ok(MeshFormat::Obj)
                }
            },
            None => Ok(MeshFormat::Obj),
        },
    }
}

/// What a packing run starts with.
#[derive(Debug)]
pub struct RunStart {
    pub mesh: String,
    pub spheres: usize,
    pub preset: String,
    pub iterations: usize,
    pub seed: u64,
    pub device: String,
}

/// The line at the start of a packing run.
pub open spec fn start_text(r: RunStart) -> Seq<char> {
    "packing "@ + r.mesh@ + " with "@ + text::decimal(r.spheres as nat) + " spheres ("@ + r.preset@
        + "), "@ + text::decimal(r.iterations as nat) + " iterations, seed "@ + text::decimal(
        r.seed as nat,
    ) + ", device "@ + r.device@
}

/// The line at the start of a packing run.
pub fn start_line(r: &RunStart) -> (out: String)
    ensures
        out@ == start_text(*r),
{
    let mut m = String::from_str("packing ");
    m.append(r.mesh.as_str());
    m.append(" with ");
    text::push_decimal(&mut m, r.spheres);
    m.append(" spheres (");
    m.append(r.preset.as_str());
    m.append("), ");
    text::push_decimal(&mut m, r.iterations);
    m.append(" iterations, seed ");
    text::push_decimal_u64(&mut m, r.seed);
    m.append(", device ");
    m.append(r.device.as_str());
    m
}

/// The line at the end of a packing run; `seconds` has two decimals.
pub open spec fn end_text(converged: bool, seconds: Seq<char>, spheres: nat, pruned: nat) -> Seq<
    char,
> {
    (if converged {
        "converged"@
    } else {
        "completed"@
    }) + " in "@ + seconds + "s: "@ + text::decimal(spheres) + " spheres ("@ + text::decimal(pruned)
        + " pruned)"@
}

/// The line at the end of a packing run; `seconds` has two decimals.
pub fn end_line(converged: bool, seconds: &str, spheres: usize, pruned: usize) -> (out: String)
    ensures
        out@ == end_text(converged, seconds@, spheres as nat, pruned as nat),
{
    let mut m = if converged {
        String::from_str("converged")
    } else {
        String::from_str("completed")
    };
    m.append(" in ");
    m.append(seconds);
    m.append("s: ");
    text::push_decimal(&mut m, spheres);
    m.append(" spheres (");
    text::push_decimal(&mut m, pruned);
    m.append(" pruned)");
    m
}

/// The line after an export to a file; the centroid has six decimals.
pub fn wrote_line(path: &str, spheres: usize, anchored: bool, x: &str, y: &str, z: &str) -> (out:
    String)
    ensures
        out@ == "wrote "@ + path@ + " ("@ + text::decimal(spheres as nat) + " spheres, "@ + (
        if anchored {
            "anchored"@
        } else {
            "free"@
        }) + ", origin "@ + x@ + " "@ + y@ + " "@ + z@ + ")"@,
{
    let mut m = String::from_str("wrote ");
    m.append(path);
    m.append(" (");
    text::push_decimal(&mut m, spheres);
    m.append(" spheres, ");
    if anchored {
        m.append("anchored");
    } else {
        m.append("free");
    }
    m.append(", origin ");
    m.append(x);
    m.append(" ");
    m.append(y);
    m.append(" ");
    m.append(z);
    m.append(")");
    m
}

/// Whether the masses of a result are used to score it: there has to be one
/// per sphere.
pub fn uses_masses(masses: usize, radii: usize) -> (yes: bool)
    ensures
        yes == (masses == radii),
{
    masses == radii
}

/// The headings of a quality report.
pub open spec fn headings() -> Seq<Seq<char>> {
    seq![
        "actual"@,
        "n_out"@,
        "n_tiny"@,
        "r_in"@,
        "r_out"@,
        "r_uni"@,
        "d_avg_mm"@,
        "d_max_mm"@,
        "mass_rel"@,
        "com_rel"@,
        "I_rel"@,
    ]
}

/// The widths of the columns of a quality report.
pub open spec fn widths() -> Seq<nat> {
    seq![6, 5, 6, 6, 6, 6, 9, 9, 9, 9, 9]
}

/// The widths of the columns of a quality report.
fn column_widths() -> (out: Vec<usize>)
    ensures
        cli::width_views(out@) == widths(),
{
    let mut out: Vec<usize> = Vec::new();
    out.push(6);
    out.push(5);
    let mut i: usize = 2;
    while i < 6
        invariant
            2 <= i <= 6,
            out@.len() == i,
            out@[0] == 6,
            out@[1] == 5,
            forall|j: int| 2 <= j < i ==> out@[j] == 6,
        decreases 6 - i,
    {
        out.push(6);
        i = i + 1;
    }
    while i < 11
        invariant
            6 <= i <= 11,
            out@.len() == i,
            out@[0] == 6,
            out@[1] == 5,
            forall|j: int| 2 <= j < 6 ==> out@[j] == 6,
            forall|j: int| 6 <= j < i ==> out@[j] == 9,
        decreases 11 - i,
    {
        out.push(9);
        i = i + 1;
    }
    assert(cli::width_views(out@) =~= widths());
    out
}

/// An iteration of a packing run; `loss` has six decimals.
#[derive(Debug)]
pub struct StepNote {
    pub iteration: usize,
    pub loss: String,
    pub spheres: usize,
    /// Spheres that density control replaced, when it ran.
    pub replaced: Option<usize>,
    pub done: bool,
    pub converged: bool,
}

/// What is said at the start of a run.
pub open spec fn start_notes(quiet: bool, r: RunStart, prep: PrepReport) -> Seq<Seq<char>> {
    if quiet {
        Seq::empty()
    } else {
        match prep_text(prep) {
            Some(note) => seq![start_text(r), note],
            None => seq![start_text(r)],
        }
    }
}

/// What is said after an iteration: every so many of them, at the end, and
/// when density control ran.
pub open spec fn step_note(quiet: bool, frequency: usize, total: usize, s: StepNote) -> Option<
    Seq<char>,
> {
    let every: int = if frequency == 0 {
        1
    } else {
        frequency as int
    };
    if !quiet && (s.iteration as int % every == 0 || s.done || s.replaced is Some) {
        Some(
            cli::progress_text(
                s.iteration as nat,
                total as nat,
                s.loss@,
                s.spheres as nat,
                match s.replaced {
                    Some(n) => Some(n as nat),
                    None => None,
                },
            ),
        )
    } else {
        None
    }
}

/// What is said at the end of a run.
pub open spec fn end_note(
    quiet: bool,
    converged: bool,
    seconds: Seq<char>,
    spheres: nat,
    pruned: nat,
) -> Option<Seq<char>> {
    if quiet {
        None
    } else {
        Some(end_text(converged, seconds, spheres, pruned))
    }
}

/// A packing run of the command-line tool.
#[derive(Clone, Copy, Debug, PartialEq, Eq, Structural)]
pub struct PackRun {
    pub quiet: bool,
    /// Iterations between two progress lines.
    pub frequency: usize,
    pub total: usize,
    /// The last iteration ended the run by the convergence test.
    pub converged: bool,
}

impl PackRun {
    /// Start a run; what to say.
    pub fn pack(quiet: bool, frequency: usize, r: &RunStart, prep: &PrepReport) -> (out: (
        PackRun,
        Vec<String>,
    ))
        ensures
            out.0 == (PackRun { quiet, frequency, total: r.iterations, converged: false }),
            text::texts(out.1@) == start_notes(quiet, *r, *prep),
    {
        let mut notes: Vec<String> = Vec::new();
        if !quiet {
            notes.push(start_line(r));
            match prep_note(prep) {
                Some(note) => {
                    notes.push(note);
                },
                None => {},
            }
        }
        assert(text::texts(notes@) =~= start_notes(quiet, *r, *prep));
        (PackRun { quiet, frequency, total: r.iterations, converged: false }, notes)
    }

    /// An iteration has run; what to say.
    pub fn stepped(&mut self, s: &StepNote) -> (note: Option<String>)
        ensures
            *final(self) == (PackRun { converged: s.converged, ..*old(self) }),
            text::opt_text(note) == step_note(
                old(self).quiet,
                old(self).frequency,
                old(self).total,
                *s,
            ),
    {
        self.converged = s.converged;
        let every: usize = if self.frequency == 0 {
            1
        } else {
            self.frequency
        };
        if cli::progress_due(self.quiet, s.iteration, every, s.done, s.replaced.is_some()) {
            Some(
                cli::progress_line(s.iteration, self.total, s.loss.as_str(), s.spheres, s.replaced),
            )
        } else {
            None
        }
    }

    /// The run has ended; what to say.
    pub fn ended(&self, seconds: &str, spheres: usize, pruned: usize) -> (note: Option<String>)
        ensures
            text::opt_text(note) == end_note(
                self.quiet,
                self.converged,
                seconds@,
                spheres as nat,
                pruned as nat,
            ),
    {
        if self.quiet {
            None
        } else {
            Some(end_line(self.converged, seconds, spheres, pruned))
        }
    }
}

/// A quiet run says nothing; another one speaks at its start, after its last
/// iteration and at its end.
pub proof fn quiet_runs_say_nothing(
    quiet: bool,
    frequency: usize,
    r: RunStart,
    prep: PrepReport,
    s: StepNote,
    seconds: Seq<char>,
    spheres: nat,
    pruned: nat,
)
    ensures
        quiet == (start_notes(quiet, r, prep).len() == 0),
        quiet ==> step_note(quiet, frequency, r.iterations, s) is None,
        !quiet && s.done ==> step_note(quiet, frequency, r.iterations, s) is Some,
        quiet == (end_note(quiet, s.converged, seconds, spheres, pruned) is None),
{
}

/// The heading line of a quality report.
pub fn metrics_heading() -> (out: String)
    ensures
        out@ == cli::row(headings(), widths()),
{
    let mut h: Vec<String> = Vec::new();
    h.push(String::from_str("actual"));
    h.push(String::from_str("n_out"));
    h.push(String::from_str("n_tiny"));
    h.push(String::from_str("r_in"));
    h.push(String::from_str("r_out"));
    h.push(String::from_str("r_uni"));
    h.push(String::from_str("d_avg_mm"));
    h.push(String::from_str("d_max_mm"));
    h.push(String::from_str("mass_rel"));
    h.push(String::from_str("com_rel"));
    h.push(String::from_str("I_rel"));
    assert(text::texts(h@) =~= headings());
    cli::table_row(&h, &column_widths())
}

/// The line of values of a quality report.
pub fn metrics_row(cells: &[String]) -> (out: String)
    ensures
        out@ == cli::row(text::texts(cells@), widths()),
{
    cli::table_row(cells, &column_widths())
}

/// The properties of a mesh.
#[derive(Debug)]
pub struct MeshFacts {
    pub file: String,
    pub vertices: usize,
    pub faces: usize,
    pub volume: String,
    pub area: String,
    pub scale: String,
    pub bounds_min: String,
    pub bounds_max: String,
    pub center_mass: String,
    /// The rows of the inertia about the center of mass.
    pub inertia: Vec<String>,
    pub winding_flipped: bool,
    /// Faces and volume of the prepared mesh.
    pub prepared: (usize, String),
}

/// A line of a mesh report: a label in its column, then the value.
pub open spec fn fact(label: Seq<char>, value: Seq<char>) -> Seq<char> {
    cli::left(label, 14) + value
}

/// A line of a mesh report.
fn fact_line(label: &str, value: &str) -> (out: String)
    ensures
        out@ == fact(label@, value@),
{
    let mut out = String::new();
    cli::push_left(&mut out, label, 14);
    out.append(value);
    assert(out@ =~= fact(label@, value@));
    out
}

/// `true` or `false`.
pub open spec fn truth(b: bool) -> Seq<char> {
    if b {
        "true"@
    } else {
        "false"@
    }
}

/// The line on the bodies of a mesh.
pub open spec fn bodies_text(p: PrepReport) -> Seq<char> {
    text::decimal(p.bodies as nat) + " ("@ + text::decimal(p.closed as nat) + " closed, "@
        + text::decimal(p.open as nat) + " open, "@ + text::decimal(p.degenerate_dropped as nat)
        + " degenerate dropped), overlapping: "@ + truth(p.overlapping)
}

/// The lines on a mesh before its inertia.
pub open spec fn first_facts(f: MeshFacts) -> Seq<Seq<char>> {
    seq![
        fact("file"@, f.file@),
        fact("vertices"@, text::decimal(f.vertices as nat)),
        fact("faces"@, text::decimal(f.faces as nat)),
        fact("volume"@, f.volume@),
        fact("area"@, f.area@),
        fact("scale"@, f.scale@),
        fact("bounds min"@, f.bounds_min@),
        fact("bounds max"@, f.bounds_max@),
        fact("center mass"@, f.center_mass@),
        "inertia (rho=1, about COM)"@,
    ]
}

/// The lines on a mesh after its inertia.
pub open spec fn last_facts(f: MeshFacts, p: PrepReport) -> Seq<Seq<char>> {
    (if f.winding_flipped {
        seq![fact("note"@, "faces were wound inward and have been flipped"@)]
    } else {
        Seq::empty()
    }) + seq![
        fact("mesh prep"@, p.action@ + " ("@ + p.reason@ + ")"@),
        fact("bodies"@, bodies_text(p)),
    ] + (if p.action@ == "unioned"@ {
        seq![
            fact(
                "union"@,
                text::decimal(f.prepared.0 as nat) + " faces, volume "@ + f.prepared.1@,
            ),
        ]
    } else {
        Seq::empty()
    })
}

/// The rows of the inertia, each in the column of the values.
pub open spec fn inertia_facts(rows: Seq<Seq<char>>) -> Seq<Seq<char>> {
    rows.map_values(|r: Seq<char>| fact(""@, r))
}

/// Append the lines on a mesh before its inertia.
fn push_first_facts(out: &mut Vec<String>, f: &MeshFacts)
    ensures
        text::texts(final(out)@) == text::texts(old(out)@) + first_facts(*f),
{
    let ghost before = text::texts(out@);
    out.push(fact_line("file", f.file.as_str()));
    out.push(fact_line("vertices", text::to_decimal(f.vertices).as_str()));
    out.push(fact_line("faces", text::to_decimal(f.faces).as_str()));
    out.push(fact_line("volume", f.volume.as_str()));
    out.push(fact_line("area", f.area.as_str()));
    out.push(fact_line("scale", f.scale.as_str()));
    out.push(fact_line("bounds min", f.bounds_min.as_str()));
    out.push(fact_line("bounds max", f.bounds_max.as_str()));
    out.push(fact_line("center mass", f.center_mass.as_str()));
    out.push(String::from_str("inertia (rho=1, about COM)"));
    assert(text::texts(out@) =~= before + first_facts(*f));
}

/// Append the rows of the inertia.
fn push_inertia(out: &mut Vec<String>, rows: &[String])
    ensures
        text::texts(final(out)@) == text::texts(old(out)@) + inertia_facts(text::texts(rows@)),
{
    let ghost before = text::texts(out@);
    let ghost all = inertia_facts(text::texts(rows@));
    let mut i: usize = 0;
    assert(text::texts(out@) =~= before + all.take(0));
    while i < rows.len()
        invariant
            i <= rows@.len(),
            all == inertia_facts(text::texts(rows@)),
            text::texts(out@) == before + all.take(i as int),
        decreases rows@.len() - i,
    {
        let ghost seen = text::texts(out@);
        let line = fact_line("", rows[i].as_str());
        assert(all[i as int] == line@);
        let ghost l = line@;
        out.push(line);
        i = i + 1;
        assert(text::texts(out@) =~= seen.push(l));
        assert(all.take(i as int) =~= all.take(i - 1).push(l));
        assert(text::texts(out@) =~= before + all.take(i as int));
    }
    assert(all.take(i as int) =~= all);
}

/// Append the lines on a mesh after its inertia.
fn push_last_facts(out: &mut Vec<String>, f: &MeshFacts, p: &PrepReport)
    ensures
        text::texts(final(out)@) == text::texts(old(out)@) + last_facts(*f, *p),
{
    let ghost before = text::texts(out@);
    if f.winding_flipped {
        out.push(fact_line("note", "faces were wound inward and have been flipped"));
    }
    let mut prep = p.action.clone();
    prep.append(" (");
    prep.append(p.reason.as_str());
    prep.append(")");
    out.push(fact_line("mesh prep", prep.as_str()));
    let mut bodies = text::to_decimal(p.bodies);
    bodies.append(" (");
    text::push_decimal(&mut bodies, p.closed);
    bodies.append(" closed, ");
    text::push_decimal(&mut bodies, p.open);
    bodies.append(" open, ");
    text::push_decimal(&mut bodies, p.degenerate_dropped);
    bodies.append(" degenerate dropped), overlapping: ");
    if p.overlapping {
        bodies.append("true");
    } else {
        bodies.append("false");
    }
    assert(bodies@ =~= bodies_text(*p));
    out.push(fact_line("bodies", bodies.as_str()));
    if text::same(p.action.as_str(), "unioned") {
        let mut union_text = text::to_decimal(f.prepared.0);
        union_text.append(" faces, volume ");
        union_text.append(f.prepared.1.as_str());
        out.push(fact_line("union", union_text.as_str()));
    }
    assert(text::texts(out@) =~= before + last_facts(*f, *p));
}

/// The lines that `morphit info` prints.
pub fn info(f: &MeshFacts, p: &PrepReport) -> (out: Vec<String>)
    ensures
        text::texts(out@) == first_facts(*f) + inertia_facts(text::texts(f.inertia@)) + last_facts(
            *f,
            *p,
        ),
{
    let mut out: Vec<String> = Vec::new();
    push_first_facts(&mut out, f);
    push_inertia(&mut out, &f.inertia);
    push_last_facts(&mut out, f, p);
    assert(text::texts(out@) =~= first_facts(*f) + inertia_facts(text::texts(f.inertia@))
        + last_facts(*f, *p));
    out
}

/// The lines that `morphit devices` prints.
pub fn devices(lines: Vec<String>) -> (out: Vec<String>)
    ensures
        text::texts(out@) == (if lines@.len() == 0 {
            seq![
                "no GPU adapters (device `gpu` is unavailable; `auto` and `cpu` use the CPU)"@,
            ]
        } else {
            text::texts(lines@)
        }),
{
    if lines.len() > 0 {
        return lines;
    }
    let mut out: Vec<String> = Vec::new();
    out.push(
        String::from_str(
            "no GPU adapters (device `gpu` is unavailable; `auto` and `cpu` use the CPU)",
        ),
    );
    assert(text::texts(out@) =~= seq![
        "no GPU adapters (device `gpu` is unavailable; `auto` and `cpu` use the CPU)"@,
    ]);
    out
}

/// A mesh is scored as it was packed: the note on a prepared mesh appears
/// exactly when the packing run had one, unless the mesh is scored as loaded.
pub proof fn scoring_follows_packing(p: PrepReport)
    ensures
        prep_text(p) is Some <==> scoring_text(p, false) is Some,
        scoring_text(p, true) is None,
{
}

/// A note on mesh preparation is given exactly where it replaced the mesh, and says why.
pub proof fn replaced_meshes_are_noted(p: PrepReport, raw_mesh: bool)
    ensures
        prep_text(p) is Some <==> p.action@ == "unioned"@ || p.action@ == "hulled"@,
        prep_text(p) matches Some(t) ==> text::ends(t, p.reason@),
        scoring_text(p, raw_mesh) is Some <==> prep_text(p) is Some && !raw_mesh,
        scoring_text(p, raw_mesh) matches Some(t) ==> text::ends(t, p.reason@),
{
    let a = "mesh prep: "@ + p.reason@;
    let b = "scoring the prepared mesh: "@ + p.reason@;
    assert(a.subrange(a.len() - p.reason@.len(), a.len() as int) =~= p.reason@);
    assert(b.subrange(b.len() - p.reason@.len(), b.len() as int) =~= p.reason@);
}

/// A prepared mesh has the format that was asked for; else it is STL for a `.stl` file, in
/// any case of the letters, and OBJ for every other. STL is not written without a file.
pub proof fn prepared_formats_follow_the_output(path: Seq<char>, ext: Seq<char>)
    ensures
        prepared_format(Some(MeshFormat::Stl), None) is Err,
        prepared_format(Some(MeshFormat::Stl), Some(path)) == Ok::<MeshFormat, Seq<char>>(
            MeshFormat::Stl,
        ),
        prepared_format(Some(MeshFormat::Obj), None) == Ok::<MeshFormat, Seq<char>>(
            MeshFormat::Obj,
        ),
        prepared_format(Some(MeshFormat::Obj), Some(path)) == Ok::<MeshFormat, Seq<char>>(
            MeshFormat::Obj,
        ),
        prepared_format(None, None) == Ok::<MeshFormat, Seq<char>>(MeshFormat::Obj),
        paths::path_extension(path) == Some(ext) ==> (prepared_format(None, Some(path)) == Ok::<
            MeshFormat,
            Seq<char>,
        >(MeshFormat::Stl) <==> numeral::ascii_lowercase(ext) == seq!['s', 't', 'l']),
        prepared_format(None, Some(path)) is Ok,
{
    reveal_strlit("stl");
    assert("stl"@ =~= seq!['s', 't', 'l']);
}

/// Progress is reported at every multiple of the frequency, at the end and when density
/// control ran, and at no other iteration; a frequency of zero means every iteration.
pub proof fn progress_is_reported_in_time(frequency: usize, total: usize, s: StepNote, k: int)
    ensures
        s.done || s.replaced is Some ==> step_note(false, frequency, total, s) is Some,
        frequency == 0 ==> step_note(false, frequency, total, s) is Some,
        frequency > 0 && s.iteration == frequency * k ==> step_note(
            false,
            frequency,
            total,
            s,
        ) is Some,
        !s.done && s.replaced is None && frequency > 0 && frequency * k < s.iteration < frequency
            * k + frequency ==> step_note(false, frequency, total, s) is None,
{
    let d = frequency as int;
    let n = s.iteration as int;
    if d > 0 {
        vstd::arithmetic::div_mod::lemma_fundamental_div_mod(n, d);
        if n == d * k {
            assert(k * d == d * k) by (nonlinear_arith);
            vstd::arithmetic::div_mod::lemma_mod_multiples_basic(k, d);
        } else if d * k < n < d * k + d {
            vstd::arithmetic::div_mod::lemma_fundamental_div_mod_converse(n, d, k, n - d * k);
        }
    }
    assert(n % 1 == 0);
}

/// Every heading stands over a column that is wide enough for it.
pub proof fn headings_fit_their_columns(i: int)
    requires
        0 <= i < headings().len(),
    ensures
        headings().len() == widths().len(),
        headings()[i].len() <= widths()[i],
{
    reveal_strlit("actual");
    reveal_strlit("n_out");
    reveal_strlit("n_tiny");
    reveal_strlit("r_in");
    reveal_strlit("r_out");
    reveal_strlit("r_uni");
    reveal_strlit("d_avg_mm");
    reveal_strlit("d_max_mm");
    reveal_strlit("mass_rel");
    reveal_strlit("com_rel");
    reveal_strlit("I_rel");
    assert(headings()[0].len() == 6 && headings()[1].len() == 5 && headings()[2].len() == 6);
    assert(headings()[3].len() == 4 && headings()[4].len() == 5 && headings()[5].len() == 5);
    assert(headings()[6].len() == 8 && headings()[7].len() == 8 && headings()[8].len() == 8);
    assert(headings()[9].len() == 7 && headings()[10].len() == 5);
}

} // verus!
