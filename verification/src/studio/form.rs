//! The form of the packing parameters: its choices, its rows of advanced
//! overrides, and what an edit does.

use vstd::prelude::*;

use crate::config;
use crate::numeral;
use crate::studio::panel;
use crate::studio::state::Params;
use crate::text;

verus! {

/// The presets to choose from.
pub open spec fn variant_names() -> Seq<Seq<char>> {
    seq!["MorphIt-V"@, "MorphIt-S"@, "MorphIt-B"@]
}

/// The presets to choose from.
pub fn variants() -> (out: Vec<String>)
    ensures
        text::texts(out@) == variant_names(),
{
    let mut out: Vec<String> = Vec::new();
    out.push(String::from_str("MorphIt-V"));
    out.push(String::from_str("MorphIt-S"));
    out.push(String::from_str("MorphIt-B"));
    assert(text::texts(out@) =~= variant_names());
    out
}

/// The flat keys of the advanced overrides, in the order that the form shows.
pub open spec fn flat_keys() -> Seq<Seq<char>> {
    seq![
        "num_inside_samples"@,
        "num_surface_samples"@,
        "density_control_enabled"@,
        "density_control_min_interval"@,
        "density_control_cooling_factor"@,
        "coverage_weight"@,
        "overlap_weight"@,
        "boundary_weight"@,
        "surface_weight"@,
        "containment_weight"@,
        "sqem_weight"@,
        "hausdorff_weight"@,
        "mesh_containment_weight"@,
    ]
}

/// The flat keys of the advanced overrides, in the order that the form shows.
pub fn advanced_keys() -> (out: Vec<String>)
    ensures
        text::texts(out@) == flat_keys(),
{
    let mut out: Vec<String> = Vec::new();
    out.push(String::from_str("num_inside_samples"));
    out.push(String::from_str("num_surface_samples"));
    out.push(String::from_str("density_control_enabled"));
    out.push(String::from_str("density_control_min_interval"));
    out.push(String::from_str("density_control_cooling_factor"));
    out.push(String::from_str("coverage_weight"));
    out.push(String::from_str("overlap_weight"));
    out.push(String::from_str("boundary_weight"));
    out.push(String::from_str("surface_weight"));
    out.push(String::from_str("containment_weight"));
    out.push(String::from_str("sqem_weight"));
    out.push(String::from_str("hausdorff_weight"));
    out.push(String::from_str("mesh_containment_weight"));
    assert(text::texts(out@) =~= flat_keys());
    out
}

/// The value at `i`, or null.
pub open spec fn value_at(values: Seq<Option<String>>, i: int) -> Seq<char> {
    if 0 <= i < values.len() && values[i] is Some {
        values[i]->0@
    } else {
        "null"@
    }
}

/// Every advanced override with its value.
pub open spec fn overrides_with(values: Seq<Option<String>>) -> Seq<(Seq<char>, Seq<char>)> {
    Seq::new(
        flat_keys().len(),
        |i: int| (config::dotted_key(flat_keys()[i])->0, value_at(values, i)),
    )
}

proof fn lemma_flat_keys(i: int)
    requires
        0 <= i < flat_keys().len(),
    ensures
        config::dotted_key(flat_keys()[i]) is Some,
{
}

/// Where the flat key stands that sets `dotted`, at or after `i`.
pub open spec fn key_place(dotted: Seq<char>, i: int) -> Option<int>
    decreases flat_keys().len() - i,
{
    if 0 <= i < flat_keys().len() {
        if config::dotted_key(flat_keys()[i]) == Some(dotted) {
            Some(i)
        } else {
            key_place(dotted, i + 1)
        }
    } else {
        None
    }
}

/// The label of the override `dotted`: its flat key with blanks.
pub open spec fn override_label(dotted: Seq<char>) -> Seq<char> {
    match key_place(dotted, 0) {
        Some(i) => text::replace_char(flat_keys()[i], '_', ' '),
        None => text::replace_char(dotted, '_', ' '),
    }
}

/// The label of the override `dotted`.
fn label_of(dotted: &str) -> (out: String)
    ensures
        out@ == override_label(dotted@),
{
    let keys = advanced_keys();
    let ghost v = flat_keys();
    assert(v.len() == keys@.len()) by {
        assert(text::texts(keys@).len() == keys@.len());
    }
    let mut i: usize = 0;
    while i < keys.len()
        invariant
            i <= keys@.len(),
            keys@.len() == v.len(),
            v == flat_keys(),
            text::texts(keys@) == v,
            key_place(dotted@, 0) == key_place(dotted@, i as int),
        decreases keys@.len() - i,
    {
        assert(text::texts(keys@)[i as int] == keys@[i as int]@);
        match config::advanced_key(keys[i].as_str()) {
            Some(d) => if text::same(d.as_str(), dotted) {
                return panel::advanced_label(keys[i].as_str());
            },
            None => {},
        }
        i = i + 1;
    }
    panel::advanced_label(dotted)
}

/// How the value of an override is edited.
#[derive(Debug)]
pub enum Editor {
    Switch(bool),
    Count(u64),
    /// A number with a fraction or a sign, as JSON.
    Number(String),
    /// Not at all.
    Fixed,
}

/// The contents of an [`Editor`].
pub enum EditorView {
    Switch(bool),
    Count(nat),
    Number(Seq<char>),
    Fixed,
}

impl View for Editor {
    type V = EditorView;

    open spec fn view(&self) -> EditorView {
        match self {
            Editor::Switch(b) => EditorView::Switch(*b),
            Editor::Count(n) => EditorView::Count(*n as nat),
            Editor::Number(s) => EditorView::Number(s@),
            Editor::Fixed => EditorView::Fixed,
        }
    }
}

/// How a JSON value is edited.
pub open spec fn editor_of(value: Seq<char>) -> EditorView {
    if value == "true"@ {
        EditorView::Switch(true)
    } else if value == "false"@ {
        EditorView::Switch(false)
    } else if numeral::digits_of(value) is Some && numeral::digits_of(value)->0 <= u64::MAX {
        EditorView::Count(numeral::digits_of(value)->0)
    } else if value.len() > 0 && (value[0] == '-' || numeral::is_digit(value[0])) {
        EditorView::Number(value)
    } else {
        EditorView::Fixed
    }
}

/// How a JSON value is edited.
fn edit_by(value: &str) -> (out: Editor)
    ensures
        out@ == editor_of(value@),
{
    if text::same(value, "true") {
        return Editor::Switch(true);
    }
    if text::same(value, "false") {
        return Editor::Switch(false);
    }
    match numeral::parse_count(value) {
        Some(n) => Editor::Count(n),
        None => {
            let cs = text::to_chars(value);
            if cs.len() > 0 && (cs[0] == '-' || ('0' <= cs[0] && cs[0] <= '9')) {
                Editor::Number(String::from_str(value))
            } else {
                Editor::Fixed
            }
        },
    }
}

/// A row of the advanced overrides.
#[derive(Debug)]
pub struct AdvancedRow {
    pub label: String,
    pub editor: Editor,
}

/// The rows of the advanced overrides.
pub fn advanced_rows(p: &Params) -> (out: Vec<AdvancedRow>)
    ensures
        out@.len() == p.advanced@.len(),
        forall|i: int|
            0 <= i < out@.len() ==> (#[trigger] out@[i]).label@ == override_label(p.advanced@[i].0@)
                && out@[i].editor@ == editor_of(p.advanced@[i].1@),
{
    let mut out: Vec<AdvancedRow> = Vec::new();
    let mut i: usize = 0;
    while i < p.advanced.len()
        invariant
            i <= p.advanced@.len(),
            out@.len() == i,
            forall|j: int|
                0 <= j < i ==> (#[trigger] out@[j]).label@ == override_label(p.advanced@[j].0@)
                    && out@[j].editor@ == editor_of(p.advanced@[j].1@),
        decreases p.advanced@.len() - i,
    {
        out.push(
            AdvancedRow {
                label: label_of(p.advanced[i].0.as_str()),
                editor: edit_by(p.advanced[i].1.as_str()),
            },
        );
        i = i + 1;
    }
    out
}

/// The contents of the form.
#[verifier::ext_equal]
pub struct FormView {
    pub variant: Seq<char>,
    pub num_spheres: int,
    pub iterations: int,
    pub random_seed: bool,
    pub seed: int,
    pub device: Seq<char>,
    pub union_overlapping_bodies: bool,
    pub convex_hull: bool,
    pub advanced: Seq<(Seq<char>, Seq<char>)>,
}

/// The contents of the form.
pub open spec fn form_view(p: Params) -> FormView {
    FormView {
        variant: p.variant@,
        num_spheres: p.num_spheres as int,
        iterations: p.iterations as int,
        random_seed: p.random_seed,
        seed: p.seed as int,
        device: p.device@,
        union_overlapping_bodies: p.union_overlapping_bodies,
        convex_hull: p.convex_hull,
        advanced: text::pair_views(p.advanced@),
    }
}

/// An edit of the form.
#[derive(Debug)]
pub enum Edit {
    /// A preset is chosen; its overrides come along.
    Variant(String, Vec<(String, String)>),
    Spheres(usize),
    Iterations(usize),
    RandomSeed(bool),
    Seed(u64),
    UnionOverlappingBodies(bool),
    ConvexHull(bool),
    Device(String),
    /// The override in this row is set.
    Switch(usize, bool),
    Count(usize, u64),
    /// A number as JSON; none where it is not finite.
    Number(usize, Option<String>),
    /// The overrides go back to those of the preset.
    PresetValues(Vec<(String, String)>),
}

/// The overrides with `value` in the row `row`.
pub open spec fn with_value(
    advanced: Seq<(Seq<char>, Seq<char>)>,
    row: int,
    value: Seq<char>,
) -> Seq<(Seq<char>, Seq<char>)> {
    advanced.update(row, (advanced[row].0, value))
}

/// The form after an edit: counts stay in their ranges, a seed is only edited
/// where it is used, and an override only as its kind of value allows.
pub open spec fn edited(f: FormView, e: Edit) -> FormView {
    match e {
        Edit::Variant(v, preset) => if v@ == f.variant {
            f
        } else {
            FormView { variant: v@, advanced: text::pair_views(preset@), ..f }
        },
        Edit::Spheres(n) => FormView { num_spheres: panel::held(n as int, 1, 200), ..f },
        Edit::Iterations(n) => FormView { iterations: panel::held(n as int, 1, 1000), ..f },
        Edit::RandomSeed(b) => FormView { random_seed: b, ..f },
        Edit::Seed(n) => if f.random_seed {
            f
        } else {
            FormView { seed: n as int, ..f }
        },
        Edit::UnionOverlappingBodies(b) => FormView { union_overlapping_bodies: b, ..f },
        Edit::ConvexHull(b) => FormView { convex_hull: b, ..f },
        Edit::Device(d) => FormView { device: d@, ..f },
        Edit::Switch(row, b) => if row < f.advanced.len() && editor_of(
            f.advanced[row as int].1,
        ) is Switch {
            FormView {
                advanced: with_value(
                    f.advanced,
                    row as int,
                    if b {
                        "true"@
                    } else {
                        "false"@
                    },
                ),
                ..f
            }
        } else {
            f
        },
        Edit::Count(row, n) => if row < f.advanced.len() && editor_of(
            f.advanced[row as int].1,
        ) is Count {
            FormView {
                advanced: with_value(f.advanced, row as int, text::decimal(n as nat)),
                ..f
            }
        } else {
            f
        },
        Edit::Number(row, s) => if row < f.advanced.len() && editor_of(
            f.advanced[row as int].1,
        ) is Number {
            FormView {
                advanced: with_value(
                    f.advanced,
                    row as int,
                    match s {
                        Some(t) => t@,
                        None => "null"@,
                    },
                ),
                ..f
            }
        } else {
            f
        },
        Edit::PresetValues(preset) => FormView { advanced: text::pair_views(preset@), ..f },
    }
}

/// `n`, held in a range.
fn hold_count(n: usize, hi: usize) -> (out: usize)
    requires
        hi >= 1,
    ensures
        out == panel::held(n as int, 1, hi as int),
{
    if n < 1 {
        1
    } else if n > hi {
        hi
    } else {
        n
    }
}

/// Set the value of an override.
fn set_value(p: &mut Params, row: usize, value: String)
    requires
        row < old(p).advanced@.len(),
    ensures
        form_view(*final(p)) == (FormView {
            advanced: with_value(form_view(*old(p)).advanced, row as int, value@),
            ..form_view(*old(p))
        }),
{
    let ghost before = text::pair_views(p.advanced@);
    let key = p.advanced[row].0.clone();
    let ghost pair = (key@, value@);
    p.advanced.set(row, (key, value));
    assert(text::pair_views(p.advanced@) =~= before.update(row as int, pair));
    assert(before[row as int].0 == pair.0);
}

/// Edit the form.
pub fn params(p: &mut Params, e: Edit)
    ensures
        form_view(*final(p)) == edited(form_view(*old(p)), e),
{
    let ghost f = form_view(*p);
    assert(f.advanced.len() == p.advanced@.len());
    match e {
        Edit::Variant(v, preset) => {
            if !text::same(v.as_str(), p.variant.as_str()) {
                p.variant = v;
                p.advanced = preset;
            }
        },
        Edit::Spheres(n) => {
            p.num_spheres = hold_count(n, 200);
        },
        Edit::Iterations(n) => {
            p.iterations = hold_count(n, 1000);
        },
        Edit::RandomSeed(b) => {
            p.random_seed = b;
        },
        Edit::Seed(n) => {
            if !p.random_seed {
                p.seed = n;
            }
        },
        Edit::UnionOverlappingBodies(b) => {
            p.union_overlapping_bodies = b;
        },
        Edit::ConvexHull(b) => {
            p.convex_hull = b;
        },
        Edit::Device(d) => {
            p.device = d;
        },
        Edit::Switch(row, b) => {
            if row < p.advanced.len() {
                assert(f.advanced[row as int].1 == p.advanced@[row as int].1@);
                match edit_by(p.advanced[row].1.as_str()) {
                    Editor::Switch(_) => {
                        set_value(
                            p,
                            row,
                            if b {
                                String::from_str("true")
                            } else {
                                String::from_str("false")
                            },
                        );
                    },
                    _ => {},
                }
            }
        },
        Edit::Count(row, n) => {
            if row < p.advanced.len() {
                assert(f.advanced[row as int].1 == p.advanced@[row as int].1@);
                match edit_by(p.advanced[row].1.as_str()) {
                    Editor::Count(_) => {
                        let mut value = String::new();
                        text::push_decimal_u64(&mut value, n);
                        assert(value@ =~= text::decimal(n as nat));
                        set_value(p, row, value);
                    },
                    _ => {},
                }
            }
        },
        Edit::Number(row, s) => {
            if row < p.advanced.len() {
                assert(f.advanced[row as int].1 == p.advanced@[row as int].1@);
                match edit_by(p.advanced[row].1.as_str()) {
                    Editor::Number(_) => {
                        set_value(
                            p,
                            row,
                            match s {
                                Some(t) => t,
                                None => String::from_str("null"),
                            },
                        );
                    },
                    _ => {},
                }
            }
        },
        Edit::PresetValues(preset) => {
            p.advanced = preset;
        },
    }
}

impl Params {
    /// Every advanced override with its value in the preset, as JSON.
    pub fn advanced_for(values: &[Option<String>]) -> (out: Vec<(String, String)>)
        ensures
            text::pair_views(out@) == overrides_with(values@),
    {
        let keys = advanced_keys();
        assert(text::texts(keys@).len() == keys@.len());
        let mut out: Vec<(String, String)> = Vec::new();
        let mut i: usize = 0;
        while i < keys.len()
            invariant
                i <= keys@.len(),
                keys@.len() == flat_keys().len(),
                text::texts(keys@) == flat_keys(),
                out@.len() == i,
                forall|j: int|
                    0 <= j < i ==> (#[trigger] out@[j]).0@ == config::dotted_key(flat_keys()[j])->0
                        && out@[j].1@ == value_at(values@, j),
            decreases keys@.len() - i,
        {
            assert(text::texts(keys@)[i as int] == keys@[i as int]@);
            proof {
                lemma_flat_keys(i as int);
            }
            let value = match if i < values.len() {
                text::copy_opt(&values[i])
            } else {
                None
            } {
                Some(v) => v,
                None => String::from_str("null"),
            };
            match config::advanced_key(keys[i].as_str()) {
                Some(d) => {
                    out.push((d, value));
                },
                None => {},
            }
            i = i + 1;
        }
        assert(text::pair_views(out@) =~= overrides_with(values@));
        out
    }
}

/// A form that a pack accepts is accepted after every edit with a preset that
/// is offered.
pub proof fn edited_forms_are_accepted(f: FormView, e: Edit)
    requires
        config::refusal(f.variant, f.num_spheres, f.iterations) is None,
        e matches Edit::Variant(v, _) ==> variant_names().contains(v@),
    ensures
        ({
            let g = edited(f, e);
            config::refusal(g.variant, g.num_spheres, g.iterations) is None
        }),
{
    if let Edit::Variant(v, _) = e {
        let k = choose|k: int| 0 <= k < variant_names().len() && variant_names()[k] == v@;
        assert(k == 0 || k == 1 || k == 2);
    }
}

/// An edit sets its own field, within its range, and leaves every other as it was.
pub proof fn edits_set_their_own_field(f: FormView, n: u64, m: usize, b: bool)
    ensures
        ({
            let g = edited(f, Edit::Spheres(m));
            g == (FormView { num_spheres: g.num_spheres, ..f }) && (1 <= m <= 200 ==> g.num_spheres
                == m) && (m < 1 ==> g.num_spheres == 1) && (m > 200 ==> g.num_spheres == 200)
        }),
        ({
            let g = edited(f, Edit::Iterations(m));
            g == (FormView { iterations: g.iterations, ..f }) && (1 <= m <= 1000 ==> g.iterations
                == m) && (m < 1 ==> g.iterations == 1) && (m > 1000 ==> g.iterations == 1000)
        }),
        ({
            let g = edited(f, Edit::RandomSeed(b));
            g.random_seed == b && g == (FormView { random_seed: b, ..f })
        }),
        ({
            let g = edited(f, Edit::UnionOverlappingBodies(b));
            g.union_overlapping_bodies == b && g.convex_hull == f.convex_hull && g.advanced
                == f.advanced && g.num_spheres == f.num_spheres && g.iterations == f.iterations
        }),
        ({
            let g = edited(f, Edit::ConvexHull(b));
            g.convex_hull == b && g.union_overlapping_bodies == f.union_overlapping_bodies
                && g.advanced == f.advanced && g.num_spheres == f.num_spheres && g.iterations
                == f.iterations
        }),
        ({
            let g = edited(f, Edit::Seed(n));
            (f.random_seed ==> g == f) && (!f.random_seed ==> g.seed == n && g.num_spheres
                == f.num_spheres && g.iterations == f.iterations && g.variant == f.variant)
        }),
{
}

/// A value is edited as what it is: a switch, a count or a number.
pub proof fn values_are_edited_as_what_they_are(n: u64, v: Seq<char>)
    ensures
        editor_of(text::decimal(n as nat)) == EditorView::Count(n as nat),
        editor_of(v) == EditorView::Switch(true) <==> v == seq!['t', 'r', 'u', 'e'],
        editor_of(v) == EditorView::Switch(false) <==> v == seq!['f', 'a', 'l', 's', 'e'],
        v.len() > 0 && v[0] == '-' ==> editor_of(v) == EditorView::Number(v),
        v.len() > 0 && '0' <= v[0] <= '9' && v.contains('.') ==> editor_of(v)
            == EditorView::Number(v),
        v.len() == 0 ==> editor_of(v) is Fixed,
{
    reveal_strlit("true");
    reveal_strlit("false");
    assert("true"@ =~= seq!['t', 'r', 'u', 'e']);
    assert("false"@ =~= seq!['f', 'a', 'l', 's', 'e']);
    assert("true"@[0] == 't' && "false"@[0] == 'f');
    let d = text::decimal(n as nat);
    numeral::written_numbers_are_read_back(n as nat);
    assert(numeral::is_digit(d[0]));
    if v.len() > 0 && v[0] == '-' {
        assert(!numeral::is_digit(v[0]));
    }
    if v.contains('.') {
        let i = choose|i: int| 0 <= i < v.len() && v[i] == '.';
        assert(!numeral::is_digit(v[i]));
    }
}

/// An override that is edited keeps its key and its place, and no other row changes.
pub proof fn overrides_are_edited_row_by_row(f: FormView, row: usize, n: u64, b: bool, i: int)
    requires
        row < f.advanced.len(),
        0 <= i < f.advanced.len(),
    ensures
        ({
            let g = edited(f, Edit::Count(row, n));
            let h = edited(f, Edit::Switch(row, b));
            let old = f.advanced[row as int];
            &&& g.advanced.len() == f.advanced.len() && h.advanced.len() == f.advanced.len()
            &&& g.advanced[i].0 == f.advanced[i].0 && h.advanced[i].0 == f.advanced[i].0
            &&& i != row ==> g.advanced[i] == f.advanced[i] && h.advanced[i] == f.advanced[i]
            &&& editor_of(old.1) is Count ==> editor_of(g.advanced[row as int].1)
                == EditorView::Count(n as nat)
            &&& !(editor_of(old.1) is Count) ==> g == f
            &&& editor_of(old.1) is Switch ==> editor_of(h.advanced[row as int].1)
                == EditorView::Switch(b)
            &&& !(editor_of(old.1) is Switch) ==> h == f
        }),
{
    values_are_edited_as_what_they_are(n, "true"@);
    values_are_edited_as_what_they_are(n, "false"@);
    reveal_strlit("true");
    reveal_strlit("false");
    assert("true"@ =~= seq!['t', 'r', 'u', 'e']);
    assert("false"@ =~= seq!['f', 'a', 'l', 's', 'e']);
}

} // verus!
