//! The command-line tool: configuration overrides, export choices, and the
//! lines it prints. Numbers that are measured come as text.

use vstd::prelude::*;

use crate::color;
use crate::json;
use crate::numeral;
use crate::paths;
use crate::server::files;
use crate::text;

verus! {

/// The configuration key and the JSON value that `KEY=VALUE` sets, where
/// `parsed` is the value of `VALUE` if it is JSON; else `VALUE` is a string.
pub open spec fn setting(s: Seq<char>, parsed: Option<Seq<char>>) -> Result<
    (Seq<char>, Seq<char>),
    Seq<char>,
> {
    match text::split_at_char(s, '=') {
        None => Err("expected KEY=VALUE, got `"@ + s + "`"@),
        Some((k, v)) => Ok(
            (
                text::trim(k),
                match parsed {
                    Some(p) => p,
                    None => json::quoted(v),
                },
            ),
        ),
    }
}

/// What `KEY=VALUE` has behind its first `=`; empty when there is none.
pub open spec fn setting_value(s: Seq<char>) -> Seq<char> {
    match text::split_at_char(s, '=') {
        None => Seq::empty(),
        Some((_, v)) => v,
    }
}

/// The configuration key and the JSON value that `KEY=VALUE` sets, where
/// `parsed` is the value of `VALUE` if it is JSON.
pub fn make_setting(s: &str, parsed: Option<String>) -> (res: Result<(String, String), String>)
    ensures
        match res {
            Ok((k, v)) => setting(s@, text::opt_text(parsed)) == Ok::<
                (Seq<char>, Seq<char>),
                Seq<char>,
            >((k@, v@)),
            Err(m) => setting(s@, text::opt_text(parsed)) == Err::<
                (Seq<char>, Seq<char>),
                Seq<char>,
            >(m@),
        },
{
    match text::split_once(s, '=') {
        None => {
            let mut m = String::from_str("expected KEY=VALUE, got `");
            m.append(s);
            m.append("`");
            Err(m)
        },
        Some((k, v)) => {
            let value = match parsed {
                Some(p) => p,
                None => json::quote(v.as_str()),
            };
            Ok((text::trimmed(k.as_str()), value))
        },
    }
}

/// `KEY=VALUE` where VALUE is parsed as JSON when possible, else as a string;
/// the value as JSON.
pub fn parse_set(s: &str) -> (res: Result<(String, String), String>)
    ensures
        match res {
            Ok((k, v)) => setting(s@, json::json_value(setting_value(s@))) == Ok::<
                (Seq<char>, Seq<char>),
                Seq<char>,
            >((k@, v@)),
            Err(m) => setting(s@, json::json_value(setting_value(s@))) == Err::<
                (Seq<char>, Seq<char>),
                Seq<char>,
            >(m@),
        },
{
    let value = match text::split_once(s, '=') {
        Some((_, v)) => v,
        None => String::new(),
    };
    assert(value@ =~= setting_value(s@));
    make_setting(s, json::value_text(value.as_str()))
}

/// The weights of a run: those of the configuration file where it sets them,
/// else those of the preset.
pub fn merge_weights<T: Copy>(preset: &[T], from_file: &[T], set: &[bool]) -> (out: Vec<T>)
    requires
        preset@.len() == from_file@.len(),
        preset@.len() == set@.len(),
    ensures
        out@.len() == preset@.len(),
        forall|i: int|
            0 <= i < out@.len() ==> #[trigger] out@[i] == (if set@[i] {
                from_file@[i]
            } else {
                preset@[i]
            }),
{
    let mut out: Vec<T> = Vec::new();
    let mut i: usize = 0;
    while i < preset.len()
        invariant
            i <= preset@.len(),
            preset@.len() == from_file@.len(),
            preset@.len() == set@.len(),
            out@.len() == i,
            forall|j: int|
                0 <= j < i ==> #[trigger] out@[j] == (if set@[j] {
                    from_file@[j]
                } else {
                    preset@[j]
                }),
        decreases preset@.len() - i,
    {
        if set[i] {
            out.push(from_file[i]);
        } else {
            out.push(preset[i]);
        }
        i = i + 1;
    }
    out
}

/// The JSON pointer of the training setting `key`.
pub open spec fn training_pointer(key: Seq<char>) -> Seq<char> {
    "/training/"@ + key
}

/// Which of the training settings `keys` the configuration file `json` sets.
pub fn settings_in_file(json: &str, keys: &[String]) -> (out: Vec<bool>)
    ensures
        out@.len() == keys@.len(),
        forall|i: int|
            0 <= i < out@.len() ==> #[trigger] out@[i] == json::json_has(
                json@,
                training_pointer(keys@[i]@),
            ),
{
    let mut out: Vec<bool> = Vec::new();
    let mut i: usize = 0;
    while i < keys.len()
        invariant
            i <= keys@.len(),
            out@.len() == i,
            forall|j: int|
                0 <= j < i ==> #[trigger] out@[j] == json::json_has(
                    json@,
                    training_pointer(keys@[j]@),
                ),
        decreases keys@.len() - i,
    {
        let mut pointer = String::from_str("/training/");
        pointer.append(keys[i].as_str());
        out.push(json::has_value(json, pointer.as_str()));
        i = i + 1;
    }
    out
}

/// What `morphit pack` is asked for.
#[derive(Debug)]
pub struct PackArgs {
    pub spheres: Option<usize>,
    pub iterations: Option<usize>,
    pub seed: Option<u64>,
    pub per_sphere_mass: bool,
    pub device: Option<String>,
    /// `KEY=VALUE` overrides.
    pub sets: Vec<String>,
}

/// One change of the configuration, in the order in which they apply.
#[derive(Debug)]
pub enum ConfigEdit {
    /// The number of spheres, and the most there may be.
    Spheres(usize),
    Iterations(usize),
    Seed(u64),
    PerSphereMass,
    /// The compute device, to be checked.
    Device(String),
    /// A dotted key and its JSON value.
    Override(String, String),
}

/// The contents of a [`ConfigEdit`].
pub enum EditView {
    Spheres(int),
    Iterations(int),
    Seed(int),
    PerSphereMass,
    Device(Seq<char>),
    Override(Seq<char>, Seq<char>),
}

impl View for ConfigEdit {
    type V = EditView;

    open spec fn view(&self) -> EditView {
        match self {
            ConfigEdit::Spheres(n) => EditView::Spheres(*n as int),
            ConfigEdit::Iterations(n) => EditView::Iterations(*n as int),
            ConfigEdit::Seed(n) => EditView::Seed(*n as int),
            ConfigEdit::PerSphereMass => EditView::PerSphereMass,
            ConfigEdit::Device(d) => EditView::Device(d@),
            ConfigEdit::Override(k, v) => EditView::Override(k@, v@),
        }
    }
}

/// The contents of a list of edits.
pub open spec fn edit_views(v: Seq<ConfigEdit>) -> Seq<EditView> {
    v.map_values(|e: ConfigEdit| e@)
}

/// The edits that the options of `morphit pack` make, before the overrides.
pub open spec fn option_edits(a: PackArgs) -> Seq<EditView> {
    (match a.spheres {
        Some(n) => seq![EditView::Spheres(n as int)],
        None => Seq::empty(),
    }) + (match a.iterations {
        Some(n) => seq![EditView::Iterations(n as int)],
        None => Seq::empty(),
    }) + (match a.seed {
        Some(n) => seq![EditView::Seed(n as int)],
        None => Seq::empty(),
    }) + (if a.per_sphere_mass {
        seq![EditView::PerSphereMass]
    } else {
        Seq::empty()
    }) + (match a.device {
        Some(d) => seq![EditView::Device(d@)],
        None => Seq::empty(),
    })
}

/// The edits that the `KEY=VALUE` overrides make up to the first malformed one, and
/// the message of that one.
pub open spec fn override_edits(sets: Seq<Seq<char>>) -> (Seq<EditView>, Option<Seq<char>>)
    decreases sets.len(),
{
    if sets.len() == 0 {
        (Seq::empty(), None)
    } else {
        let (front, fault) = override_edits(sets.drop_last());
        if fault is Some {
            (front, fault)
        } else {
            match setting(sets.last(), json::json_value(setting_value(sets.last()))) {
                Err(m) => (front, Some(m)),
                Ok((k, v)) => (front.push(EditView::Override(k, v)), None),
            }
        }
    }
}

proof fn lemma_malformed_override(sets: Seq<Seq<char>>, n: int)
    requires
        0 <= n <= sets.len(),
        override_edits(sets.take(n)).1 is Some,
    ensures
        override_edits(sets) == override_edits(sets.take(n)),
    decreases sets.len() - n,
{
    if n < sets.len() {
        assert(sets.take(n + 1).drop_last() =~= sets.take(n));
        lemma_malformed_override(sets, n + 1);
    } else {
        assert(sets.take(n) =~= sets);
    }
}

/// The edits that the overrides make up to the first malformed one, and the message
/// of that one.
fn read_overrides(sets: &[String]) -> (res: (Vec<ConfigEdit>, Option<String>))
    ensures
        (edit_views(res.0@), text::opt_text(res.1)) == override_edits(text::texts(sets@)),
{
    let ghost all = text::texts(sets@);
    let mut out: Vec<ConfigEdit> = Vec::new();
    let mut i: usize = 0;
    assert(edit_views(out@) =~= Seq::<EditView>::empty());
    assert(all.take(0) =~= Seq::<Seq<char>>::empty());
    while i < sets.len()
        invariant
            i <= sets@.len(),
            all == text::texts(sets@),
            override_edits(all.take(i as int)) == (edit_views(out@), None::<Seq<char>>),
        decreases sets@.len() - i,
    {
        proof {
            assert(all.take(i + 1).drop_last() =~= all.take(i as int));
            assert(all.take(i + 1).last() == sets@[i as int]@);
            if override_edits(all.take(i + 1)).1 is Some {
                lemma_malformed_override(all, i + 1);
            }
        }
        match parse_set(sets[i].as_str()) {
            Ok((k, v)) => {
                let ghost seen = edit_views(out@);
                let e = ConfigEdit::Override(k, v);
                let ghost ev = e@;
                out.push(e);
                assert(edit_views(out@) =~= seen.push(ev));
            },
            Err(m) => return (out, Some(m)),
        }
        i = i + 1;
    }
    assert(all.take(i as int) =~= all);
    (out, None)
}

/// The edits that the options of `morphit pack` make, before the overrides.
fn read_options(a: &PackArgs) -> (out: Vec<ConfigEdit>)
    ensures
        edit_views(out@) == option_edits(*a),
{
    let mut out: Vec<ConfigEdit> = Vec::new();
    match a.spheres {
        Some(n) => out.push(ConfigEdit::Spheres(n)),
        None => {},
    }
    match a.iterations {
        Some(n) => out.push(ConfigEdit::Iterations(n)),
        None => {},
    }
    match a.seed {
        Some(n) => out.push(ConfigEdit::Seed(n)),
        None => {},
    }
    if a.per_sphere_mass {
        out.push(ConfigEdit::PerSphereMass);
    }
    match &a.device {
        Some(d) => out.push(ConfigEdit::Device(d.clone())),
        None => {},
    }
    assert(edit_views(out@) =~= option_edits(*a));
    out
}

/// The edits that make the configuration of a run from its preset or file: the
/// options, then the `KEY=VALUE` overrides, so that an override always wins. A
/// malformed override ends them: its message is the error once the edits before it
/// were taken.
pub fn build_config(a: &PackArgs) -> (res: (Vec<ConfigEdit>, Option<String>))
    ensures
        edit_views(res.0@) == option_edits(*a) + override_edits(text::texts(a.sets@)).0,
        text::opt_text(res.1) == override_edits(text::texts(a.sets@)).1,
{
    let mut edits = read_options(a);
    let (mut overrides, fault) = read_overrides(&a.sets);
    let ghost before = edits@;
    let ghost more = overrides@;
    edits.append(&mut overrides);
    assert(edit_views(edits@) =~= edit_views(before) + edit_views(more));
    (edits, fault)
}

/// Formats of an exported model.
#[derive(Clone, Copy, Debug, PartialEq, Eq, Structural)]
pub enum ModelFormat {
    /// URDF: one link per sphere on fixed joints.
    Urdf,
    /// MJCF: MuJoCo XML, one sphere body per sphere.
    Mjcf,
}

/// The format of an export: as asked, else MJCF for a `.xml` file and URDF for
/// everything else.
pub open spec fn format_of(asked: Option<ModelFormat>, output: Option<Seq<char>>) -> ModelFormat {
    match asked {
        Some(f) => f,
        None => match output {
            Some(o) => match paths::path_extension(o) {
                Some(e) => if numeral::ascii_lowercase(e) == "xml"@ {
                    ModelFormat::Mjcf
                } else {
                    ModelFormat::Urdf
                },
                None => ModelFormat::Urdf,
            },
            None => ModelFormat::Urdf,
        },
    }
}

/// The format of an export.
pub fn export_format(asked: Option<ModelFormat>, output: Option<&str>) -> (out: ModelFormat)
    ensures
        out == format_of(asked, text::opt_str(output)),
{
    match asked {
        Some(f) => f,
        None => match output {
            Some(o) => match paths::extension(o) {
                Some(e) => {
                    let low = text::from_chars(
                        &numeral::lowered(&text::to_chars(e.as_str())),
                    );
                    if text::same(low.as_str(), "xml") {
                        ModelFormat::Mjcf
                    } else {
                        ModelFormat::Urdf
                    }
                },
                None => ModelFormat::Urdf,
            },
            None => ModelFormat::Urdf,
        },
    }
}

/// The name of an exported model: as asked, else that of the mesh file, else
/// `object`.
pub fn export_name(asked: Option<&str>, mesh_path: &str) -> (out: String)
    ensures
        out@ == match asked {
            Some(n) => n@,
            None => files::stem_or(Some(mesh_path@), "object"@),
        },
{
    match asked {
        Some(n) => String::from_str(n),
        None => files::file_stem(Some(mesh_path), "object"),
    }
}

/// The color of an exported model, or the message for one that is not
/// `#rrggbb`.
pub fn export_color(hex: &str) -> (res: Result<[u8; 4], String>)
    ensures
        match res {
            Ok(c) => color::hex_color(hex@) == Some(
                (c@[0] as int, c@[1] as int, c@[2] as int),
            ) && c@[3] == 255,
            Err(m) => color::hex_color(hex@) is None && m@ == "--color must be #rrggbb, got "@
                + hex@,
        },
{
    match color::hex_to_rgba(hex) {
        Some(c) => Ok(c),
        None => {
            let mut m = String::from_str("--color must be #rrggbb, got ");
            m.append(hex);
            Err(m)
        },
    }
}

/// `n` spaces.
pub open spec fn spaces(n: nat) -> Seq<char> {
    Seq::new(n, |i: int| ' ')
}

/// `s`, right-aligned in a column of width `w`.
pub open spec fn right(s: Seq<char>, w: nat) -> Seq<char> {
    if s.len() < w {
        spaces((w - s.len()) as nat) + s
    } else {
        s
    }
}

/// `s`, left-aligned in a column of width `w`.
pub open spec fn left(s: Seq<char>, w: nat) -> Seq<char> {
    if s.len() < w {
        s + spaces((w - s.len()) as nat)
    } else {
        s
    }
}

/// Append `n` spaces.
fn push_spaces(out: &mut String, n: usize)
    ensures
        final(out)@ == old(out)@ + spaces(n as nat),
{
    let ghost before = out@;
    let mut i: usize = 0;
    assert(out@ =~= before + spaces(0));
    while i < n
        invariant
            i <= n,
            out@ == before + spaces(i as nat),
        decreases n - i,
    {
        out.push(' ');
        i = i + 1;
        assert(out@ =~= before + spaces(i as nat));
    }
}

/// Append `s`, right-aligned in a column of width `w`.
pub fn push_right(out: &mut String, s: &str, w: usize)
    ensures
        final(out)@ == old(out)@ + right(s@, w as nat),
{
    let ghost before = out@;
    let n: usize = text::to_chars(s).len();
    if n < w {
        push_spaces(out, w - n);
    }
    out.append(s);
    assert(out@ =~= before + right(s@, w as nat));
}

/// Append `s`, left-aligned in a column of width `w`.
pub fn push_left(out: &mut String, s: &str, w: usize)
    ensures
        final(out)@ == old(out)@ + left(s@, w as nat),
{
    let ghost before = out@;
    let n: usize = text::to_chars(s).len();
    out.append(s);
    if n < w {
        push_spaces(out, w - n);
    }
    assert(out@ =~= before + left(s@, w as nat));
}

/// A row of right-aligned cells, with a space between the columns.
pub open spec fn row(cells: Seq<Seq<char>>, widths: Seq<nat>) -> Seq<char>
    decreases cells.len(),
{
    if cells.len() == 0 {
        Seq::empty()
    } else {
        let front = row(cells.drop_last(), widths);
        let n = cells.len() - 1;
        let cell = right(
            cells.last(),
            if n < widths.len() {
                widths[n]
            } else {
                0
            },
        );
        if n == 0 {
            cell
        } else {
            front + " "@ + cell
        }
    }
}

/// The widths of the columns, as mathematical integers.
pub open spec fn width_views(w: Seq<usize>) -> Seq<nat> {
    w.map_values(|n: usize| n as nat)
}

/// A row of right-aligned cells, with a space between the columns.
pub fn table_row(cells: &[String], widths: &[usize]) -> (out: String)
    ensures
        out@ == row(text::texts(cells@), width_views(widths@)),
{
    let ghost t = text::texts(cells@);
    let ghost w = width_views(widths@);
    let mut out = String::new();
    let mut i: usize = 0;
    assert(out@ =~= row(t.take(0), w));
    while i < cells.len()
        invariant
            i <= cells@.len(),
            t == text::texts(cells@),
            w == width_views(widths@),
            out@ == row(t.take(i as int), w),
        decreases cells@.len() - i,
    {
        proof {
            assert(t.take(i + 1).drop_last() =~= t.take(i as int));
            assert(t.take(i + 1).last() == cells@[i as int]@);
        }
        if i > 0 {
            out.append(" ");
        }
        let width: usize = if i < widths.len() {
            widths[i]
        } else {
            0
        };
        push_right(&mut out, cells[i].as_str(), width);
        assert(out@ =~= row(t.take(i + 1), w));
        i = i + 1;
    }
    assert(t.take(i as int) =~= t);
    out
}

/// Whether a packing run reports its progress after an iteration: every so
/// many, at the end, and when density control ran.
pub fn progress_due(
    quiet: bool,
    iteration: usize,
    every: usize,
    done: bool,
    density_control: bool,
) -> (due: bool)
    requires
        every > 0,
    ensures
        due == (!quiet && (iteration as int % every as int == 0 || done || density_control)),
{
    !quiet && (iteration % every == 0 || done || density_control)
}

/// The progress line of an iteration; `loss` is the loss with six decimals.
pub open spec fn progress_text(
    iteration: nat,
    total: nat,
    loss: Seq<char>,
    spheres: nat,
    replaced: Option<nat>,
) -> Seq<char> {
    "iter "@ + right(text::decimal(iteration), 5) + "/"@ + text::decimal(total) + "  loss "@
        + right(loss, 12) + "  spheres "@ + right(text::decimal(spheres), 3) + match replaced {
        Some(n) => "  density control: replaced "@ + text::decimal(n),
        None => Seq::empty(),
    }
}

/// The progress line of an iteration; `loss` is the loss with six decimals,
/// and `replaced` the number of spheres that density control replaced.
pub fn progress_line(
    iteration: usize,
    total: usize,
    loss: &str,
    spheres: usize,
    replaced: Option<usize>,
) -> (out: String)
    ensures
        out@ == progress_text(
            iteration as nat,
            total as nat,
            loss@,
            spheres as nat,
            match replaced {
                Some(n) => Some(n as nat),
                None => None,
            },
        ),
{
    let mut out = String::from_str("iter ");
    push_right(&mut out, text::to_decimal(iteration).as_str(), 5);
    out.append("/");
    text::push_decimal(&mut out, total);
    out.append("  loss ");
    push_right(&mut out, loss, 12);
    out.append("  spheres ");
    push_right(&mut out, text::to_decimal(spheres).as_str(), 3);
    match replaced {
        Some(n) => {
            let ghost head = out@;
            out.append("  density control: replaced ");
            text::push_decimal(&mut out, n);
            assert(out@ =~= head + ("  density control: replaced "@ + text::decimal(n as nat)));
        },
        None => {
            assert(out@ =~= out@ + Seq::<char>::empty());
        },
    }
    out
}

/// The line of a preset: its name, and the weights that are not zero, without
/// the `_weight` of their keys.
pub open spec fn preset_text(name: Seq<char>, weights: Seq<(Seq<char>, Seq<char>)>) -> Seq<char> {
    left(name, 17) + " "@ + text::join(
        weights.map_values(
            |w: (Seq<char>, Seq<char>)| without_suffix(w.0, "_weight"@) + "="@ + w.1,
        ),
        " "@,
    )
}

/// `s` without the suffixes `end` that it ends with.
pub open spec fn without_suffix(s: Seq<char>, end: Seq<char>) -> Seq<char>
    decreases s.len(),
{
    if end.len() > 0 && text::ends(s, end) {
        without_suffix(s.take(s.len() - end.len()), end)
    } else {
        s
    }
}

/// `s` without the suffixes `end` that it ends with.
fn strip_suffix(s: &str, end: &str) -> (out: String)
    ensures
        out@ == without_suffix(s@, end@),
{
    let cs = text::to_chars(s);
    let es = text::to_chars(end);
    let mut n: usize = cs.len();
    let mut going: bool = es.len() > 0;
    assert(s@.take(n as int) =~= s@);
    while going
        invariant
            n <= cs@.len(),
            cs@ == s@,
            es@ == end@,
            without_suffix(s@, end@) == without_suffix(s@.take(n as int), end@),
            going ==> es@.len() > 0,
            !going ==> without_suffix(s@.take(n as int), end@) == s@.take(n as int),
        decreases n,
            (if going {
                1int
            } else {
                0
            }),
    {
        let t = s_take(&cs, n);
        if text::ends_with(&t, end) {
            proof {
                let w = s@.take(n as int);
                assert(w.take(w.len() - end@.len()) =~= s@.take(n - end@.len()));
            }
            n = n - es.len();
        } else {
            going = false;
        }
    }
    let out = text::from_range(&cs, 0, n);
    assert(out@ =~= s@.take(n as int));
    out
}

/// The first `n` characters.
fn s_take(cs: &[char], n: usize) -> (out: Vec<char>)
    requires
        n <= cs@.len(),
    ensures
        out@ == cs@.take(n as int),
{
    let mut out: Vec<char> = Vec::new();
    let mut i: usize = 0;
    assert(out@ =~= cs@.take(0));
    while i < n
        invariant
            i <= n <= cs@.len(),
            out@ == cs@.take(i as int),
        decreases n - i,
    {
        out.push(cs[i]);
        i = i + 1;
        assert(out@ =~= cs@.take(i as int));
    }
    out
}

/// The line of a preset; `weights` are the keys and values of its weights that
/// are not zero.
pub fn preset_line(name: &str, weights: &[(String, String)]) -> (out: String)
    ensures
        out@ == preset_text(name@, text::pair_views(weights@)),
{
    let ghost w = text::pair_views(weights@);
    let ghost f = |w: (Seq<char>, Seq<char>)| without_suffix(w.0, "_weight"@) + "="@ + w.1;
    let mut parts: Vec<String> = Vec::new();
    let mut i: usize = 0;
    while i < weights.len()
        invariant
            i <= weights@.len(),
            w == text::pair_views(weights@),
            f == (|w: (Seq<char>, Seq<char>)| without_suffix(w.0, "_weight"@) + "="@ + w.1),
            parts@.len() == i,
            forall|j: int| 0 <= j < i ==> (#[trigger] parts@[j])@ == f(w[j]),
        decreases weights@.len() - i,
    {
        let mut p = strip_suffix(weights[i].0.as_str(), "_weight");
        p.append("=");
        p.append(weights[i].1.as_str());
        assert(w[i as int] == (weights@[i as int].0@, weights@[i as int].1@));
        assert(p@ == f(w[i as int]));
        parts.push(p);
        i = i + 1;
    }
    assert(text::texts(parts@) =~= w.map_values(f));
    let mut out = String::new();
    push_left(&mut out, name, 17);
    out.append(" ");
    out.append(text::join_with(&parts, " ").as_str());
    assert(out@ =~= preset_text(name@, w));
    out
}

/// The line of a compute device.
pub fn device_line(index: usize, name: &str, kind: &str, backend: &str, software: bool) -> (out:
    String)
    ensures
        out@ == "gpu:"@ + text::decimal(index as nat) + "  "@ + name@ + "  ("@ + kind@ + ", "@
            + backend@ + (if software {
            ", software rasterizer"@
        } else {
            ""@
        }) + ")"@,
{
    let mut out = String::from_str("gpu:");
    text::push_decimal(&mut out, index);
    out.append("  ");
    out.append(name);
    out.append("  (");
    out.append(kind);
    out.append(", ");
    out.append(backend);
    if software {
        out.append(", software rasterizer");
    } else {
        out.append("");
    }
    out.append(")");
    out
}

/// A cell is never cut: it fills its column, and holds all of its text.
pub proof fn cells_fill_their_column(s: Seq<char>, w: nat)
    ensures
        right(s, w).len() >= w,
        left(s, w).len() >= w,
        text::ends(right(s, w), s),
        text::begins(left(s, w), s),
{
    let r = right(s, w);
    let l = left(s, w);
    assert(r.subrange(r.len() - s.len(), r.len() as int) =~= s);
    assert(l.subrange(0, s.len() as int) =~= s);
}

/// An override is split at its first `=`: what stands before it is the key, and what stands
/// behind it the value.
pub proof fn overrides_are_split_at_the_first_sign(
    k: Seq<char>,
    v: Seq<char>,
    parsed: Option<Seq<char>>,
    w: Seq<char>,
)
    requires
        !k.contains('='),
    ensures
        setting_value(k + seq!['='] + v) == v,
        parsed == Some(w) ==> setting(k + seq!['='] + v, parsed) == Ok::<
            (Seq<char>, Seq<char>),
            Seq<char>,
        >((text::trim(k), w)),
        parsed is None ==> setting(k + seq!['='] + v, parsed) == Ok::<
            (Seq<char>, Seq<char>),
            Seq<char>,
        >((text::trim(k), json::quoted(v))),
        setting(k, parsed) is Err,
{
    let s = k + seq!['='] + v;
    text::lemma_first_char(s, '=', 0);
    assert(s[k.len() as int] == '=');
    let i = text::first_char(s, '=', 0)->0;
    if i < k.len() {
        assert(k[i] == '=');
        assert(k.contains('='));
    }
    assert(s.take(i) =~= k);
    assert(s.skip(i + 1) =~= v);
    text::lemma_first_char(k, '=', 0);
    if let Some(j) = text::first_char(k, '=', 0) {
        assert(k.contains('='));
    }
}

/// Overrides that are well formed make one edit each, in their order.
pub proof fn overrides_make_one_edit_each(sets: Seq<Seq<char>>, i: int)
    requires
        0 <= i < sets.len(),
        forall|k: int| 0 <= k < sets.len() ==> (#[trigger] sets[k]).contains('='),
    ensures
        override_edits(sets).1 is None,
        override_edits(sets).0.len() == sets.len(),
        setting(sets[i], json::json_value(setting_value(sets[i]))) matches Ok((k, v))
            && override_edits(sets).0[i] == EditView::Override(k, v),
    decreases sets.len(),
{
    lemma_override_count(sets);
    let f = sets.drop_last();
    assert forall|k: int| 0 <= k < f.len() implies (#[trigger] f[k]).contains('=') by {
        assert(f[k] == sets[k]);
    }
    lemma_override_count(f);
    if i < f.len() {
        overrides_make_one_edit_each(f, i);
        assert(f[i] == sets[i]);
    }
    lemma_has_sign(sets[i]);
    lemma_has_sign(sets[sets.len() - 1]);
}

proof fn lemma_has_sign(s: Seq<char>)
    requires
        s.contains('='),
    ensures
        forall|p: Option<Seq<char>>| (#[trigger] setting(s, p)) is Ok,
{
    text::lemma_first_char(s, '=', 0);
    let i = choose|i: int| 0 <= i < s.len() && s[i] == '=';
    assert(s[i] == '=');
}

proof fn lemma_override_count(sets: Seq<Seq<char>>)
    requires
        forall|k: int| 0 <= k < sets.len() ==> (#[trigger] sets[k]).contains('='),
    ensures
        override_edits(sets).1 is None,
        override_edits(sets).0.len() == sets.len(),
    decreases sets.len(),
{
    if sets.len() > 0 {
        let f = sets.drop_last();
        assert forall|k: int| 0 <= k < f.len() implies (#[trigger] f[k]).contains('=') by {
            assert(f[k] == sets[k]);
        }
        lemma_override_count(f);
        lemma_has_sign(sets[sets.len() - 1]);
    }
}

/// An option of `morphit pack` edits its own entry, with the value that it has; an option
/// that is not given edits nothing.
pub proof fn options_edit_their_own_entry(a: PackArgs, n: int, d: Seq<char>)
    ensures
        option_edits(a).contains(EditView::Spheres(n)) <==> (a.spheres matches Some(x) && x == n),
        option_edits(a).contains(EditView::Iterations(n)) <==> (a.iterations matches Some(x) && x
            == n),
        option_edits(a).contains(EditView::Seed(n)) <==> (a.seed matches Some(x) && x == n),
        option_edits(a).contains(EditView::PerSphereMass) <==> a.per_sphere_mass,
        option_edits(a).contains(EditView::Device(d)) <==> (a.device matches Some(x) && x@ == d),
{
    let e = option_edits(a);
    let s: int = if a.spheres is Some {
        1
    } else {
        0
    };
    let i: int = if a.iterations is Some {
        s + 1
    } else {
        s
    };
    let r: int = if a.seed is Some {
        i + 1
    } else {
        i
    };
    let m: int = if a.per_sphere_mass {
        r + 1
    } else {
        r
    };
    if a.spheres is Some {
        assert(e[0] is Spheres);
    }
    if a.iterations is Some {
        assert(e[s] is Iterations);
    }
    if a.seed is Some {
        assert(e[i] is Seed);
    }
    if a.per_sphere_mass {
        assert(e[r] is PerSphereMass);
    }
    if a.device is Some {
        assert(e[m] is Device);
    }
}

/// An export has the format that was asked for; else it is MJCF for an `.xml` file, in any
/// case of the letters, and URDF for every other.
pub proof fn formats_follow_the_output(f: ModelFormat, path: Seq<char>, ext: Seq<char>)
    ensures
        format_of(Some(f), Some(path)) == f,
        format_of(Some(f), None) == f,
        format_of(None, None) is Urdf,
        paths::path_extension(path) is None ==> format_of(None, Some(path)) is Urdf,
        paths::path_extension(path) == Some(ext) ==> (format_of(None, Some(path)) is Mjcf
            <==> numeral::ascii_lowercase(ext) == seq!['x', 'm', 'l']),
{
    reveal_strlit("xml");
    assert("xml"@ =~= seq!['x', 'm', 'l']);
}

/// A name loses its suffix and nothing else.
pub proof fn suffixes_are_left_out(s: Seq<char>, end: Seq<char>)
    requires
        end.len() > 0,
    ensures
        !text::ends(without_suffix(s, end), end),
        without_suffix(s + end, end) == without_suffix(s, end),
        !text::ends(s, end) ==> without_suffix(s, end) == s,
    decreases s.len(),
{
    if text::ends(s, end) {
        suffixes_are_left_out(s.take(s.len() - end.len()), end);
    }
    let t = s + end;
    assert(t.subrange(t.len() - end.len(), t.len() as int) =~= end);
    assert(t.take(t.len() - end.len()) =~= s);
}

/// A row has its cells in their columns: every cell ends where its column ends, as long as
/// the cells fit.
pub proof fn cells_stand_in_their_columns(cells: Seq<Seq<char>>, widths: Seq<nat>, i: int)
    requires
        0 <= i < cells.len() <= widths.len(),
        forall|k: int| 0 <= k < cells.len() ==> (#[trigger] cells[k]).len() <= widths[k],
    ensures
        ({
            let end = column_end(widths, i);
            &&& row(cells, widths).len() == column_end(widths, cells.len() - 1)
            &&& end <= row(cells, widths).len()
            &&& row(cells, widths).subrange(end - cells[i].len(), end) == cells[i]
        }),
    decreases cells.len(),
{
    let n = cells.len() - 1;
    let f = cells.drop_last();
    let c = cells.last();
    assert(cells[n] == c);
    let cell = right(c, widths[n]);
    reveal_strlit(" ");
    assert(cell.len() == widths[n]);
    assert(cell.subrange(cell.len() - c.len(), cell.len() as int) =~= c);
    assert forall|k: int| 0 <= k < f.len() implies (#[trigger] f[k]).len() <= widths[k] by {
        assert(f[k] == cells[k]);
    }
    let r = row(cells, widths);
    if n > 0 {
        cells_stand_in_their_columns(f, widths, n - 1);
        if i < n {
            cells_stand_in_their_columns(f, widths, i);
            let front = row(f, widths);
            let end = column_end(widths, i);
            assert(f[i] == cells[i]);
            assert(r == front + " "@ + cell);
            lemma_column_end(widths, i);
            assert(r.subrange(end - cells[i].len(), end) =~= front.subrange(
                end - cells[i].len(),
                end,
            ));
        } else {
            assert(r.subrange(r.len() - c.len(), r.len() as int) =~= c);
        }
    } else {
        assert(r == cell);
    }
}

/// Where column `i` ends: the columns have a space between them.
pub open spec fn column_end(widths: Seq<nat>, i: int) -> int
    decreases i,
{
    if i <= 0 {
        widths[0] as int
    } else {
        column_end(widths, i - 1) + 1 + widths[i]
    }
}

proof fn lemma_column_end(widths: Seq<nat>, i: int)
    requires
        0 <= i < widths.len(),
    ensures
        column_end(widths, i) >= widths[i],
    decreases i,
{
    if i > 0 {
        lemma_column_end(widths, i - 1);
    }
}

} // verus!
