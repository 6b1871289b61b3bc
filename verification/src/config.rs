//! Optimizer configuration for API-driven packs: the preset, the sphere and
//! iteration counts, a seed, and the allow-listed `advanced` overrides.

use vstd::prelude::*;

use crate::json;
use crate::text;
use crate::{EngineError, Error, ErrorView};

verus! {

/// The presets that the web UI offers.
pub open spec fn is_variant(v: Seq<char>) -> bool {
    v == "MorphIt-V"@ || v == "MorphIt-S"@ || v == "MorphIt-B"@
}

/// The message for a preset that is not offered.
pub open spec fn variant_message() -> Seq<char> {
    "variant must be one of ('MorphIt-V', 'MorphIt-S', 'MorphIt-B')"@
}

/// `variant must be one of ('MorphIt-V', 'MorphIt-S', 'MorphIt-B')`.
pub fn variant_error() -> (out: String)
    ensures
        out@ == variant_message(),
{
    String::from_str("variant must be one of ('MorphIt-V', 'MorphIt-S', 'MorphIt-B')")
}

/// The dotted config key that a flat `advanced` key sets.
pub open spec fn dotted_key(flat: Seq<char>) -> Option<Seq<char>> {
    if flat == "num_inside_samples"@ {
        Some("model.num_inside_samples"@)
    } else if flat == "num_surface_samples"@ {
        Some("model.num_surface_samples"@)
    } else if flat == "density_control_enabled"@ {
        Some("training.density_control_enabled"@)
    } else if flat == "density_control_min_interval"@ {
        Some("training.density_control_min_interval"@)
    } else if flat == "density_control_cooling_factor"@ {
        Some("training.density_control_cooling_factor"@)
    } else if flat == "coverage_weight"@ {
        Some("training.coverage_weight"@)
    } else if flat == "overlap_weight"@ {
        Some("training.overlap_weight"@)
    } else if flat == "boundary_weight"@ {
        Some("training.boundary_weight"@)
    } else if flat == "surface_weight"@ {
        Some("training.surface_weight"@)
    } else if flat == "containment_weight"@ {
        Some("training.containment_weight"@)
    } else if flat == "sqem_weight"@ {
        Some("training.sqem_weight"@)
    } else if flat == "hausdorff_weight"@ {
        Some("training.hausdorff_weight"@)
    } else if flat == "mesh_containment_weight"@ {
        Some("training.mesh_containment_weight"@)
    } else {
        None
    }
}

/// The dotted config key that a flat `advanced` key sets.
pub fn advanced_key(flat: &str) -> (out: Option<String>)
    ensures
        text::opt_text(out) == dotted_key(flat@),
{
    if text::same(flat, "num_inside_samples") {
        Some(String::from_str("model.num_inside_samples"))
    } else if text::same(flat, "num_surface_samples") {
        Some(String::from_str("model.num_surface_samples"))
    } else if text::same(flat, "density_control_enabled") {
        Some(String::from_str("training.density_control_enabled"))
    } else if text::same(flat, "density_control_min_interval") {
        Some(String::from_str("training.density_control_min_interval"))
    } else if text::same(flat, "density_control_cooling_factor") {
        Some(String::from_str("training.density_control_cooling_factor"))
    } else if text::same(flat, "coverage_weight") {
        Some(String::from_str("training.coverage_weight"))
    } else if text::same(flat, "overlap_weight") {
        Some(String::from_str("training.overlap_weight"))
    } else if text::same(flat, "boundary_weight") {
        Some(String::from_str("training.boundary_weight"))
    } else if text::same(flat, "surface_weight") {
        Some(String::from_str("training.surface_weight"))
    } else if text::same(flat, "containment_weight") {
        Some(String::from_str("training.containment_weight"))
    } else if text::same(flat, "sqem_weight") {
        Some(String::from_str("training.sqem_weight"))
    } else if text::same(flat, "hausdorff_weight") {
        Some(String::from_str("training.hausdorff_weight"))
    } else if text::same(flat, "mesh_containment_weight") {
        Some(String::from_str("training.mesh_containment_weight"))
    } else {
        None
    }
}

/// The overrides that the members of an `advanced` object set: unknown keys and
/// nulls are dropped.
pub open spec fn overrides(members: Seq<(Seq<char>, Seq<char>)>) -> Seq<(Seq<char>, Seq<char>)>
    decreases members.len(),
{
    if members.len() == 0 {
        Seq::empty()
    } else {
        let front = overrides(members.drop_last());
        let (key, value) = members.last();
        match dotted_key(key) {
            Some(d) => if value == "null"@ {
                front
            } else {
                front.push((d, value))
            },
            None => front,
        }
    }
}

/// The overrides that an `advanced` form field sets.
pub open spec fn advanced(s: Seq<char>) -> Result<Seq<(Seq<char>, Seq<char>)>, ErrorView> {
    if s.len() == 0 {
        Ok(Seq::empty())
    } else {
        match json::json_members(s) {
            Err(e) => Err(ErrorView::Invalid("advanced must be valid JSON: "@ + e)),
            Ok(None) => Err(ErrorView::Invalid("advanced must be a JSON object"@)),
            Ok(Some(m)) => Ok(overrides(m)),
        }
    }
}

/// The overrides that the members of an `advanced` object set.
pub fn overrides_of(members: &[(String, String)]) -> (out: Vec<(String, String)>)
    ensures
        text::pair_views(out@) == overrides(text::pair_views(members@)),
{
    let ghost all = text::pair_views(members@);
    let mut out: Vec<(String, String)> = Vec::new();
    let mut i: usize = 0;
    assert(text::pair_views(out@) =~= Seq::<(Seq<char>, Seq<char>)>::empty());
    while i < members.len()
        invariant
            i <= members@.len(),
            all == text::pair_views(members@),
            text::pair_views(out@) == overrides(all.take(i as int)),
        decreases members@.len() - i,
    {
        proof {
            assert(all.take(i + 1).drop_last() =~= all.take(i as int));
            assert(all.take(i + 1).last() == (members@[i as int].0@, members@[i as int].1@));
        }
        match advanced_key(members[i].0.as_str()) {
            Some(d) => if !text::same(members[i].1.as_str(), "null") {
                let ghost seen = text::pair_views(out@);
                let ghost dv = d@;
                out.push((d, members[i].1.clone()));
                assert(text::pair_views(out@) =~= seen.push((dv, members@[i as int].1@)));
            },
            None => {},
        }
        i = i + 1;
    }
    assert(all.take(i as int) =~= all);
    out
}

/// Decode the `advanced` form field into dotted-key overrides (in the order of
/// their flat keys; they are independent), each value as JSON. Unknown keys
/// and nulls are dropped.
pub fn parse_advanced(json: &str) -> (res: Result<Vec<(String, String)>, Error>)
    ensures
        match res {
            Ok(v) => advanced(json@) == Ok::<Seq<(Seq<char>, Seq<char>)>, ErrorView>(
                text::pair_views(v@),
            ),
            Err(e) => advanced(json@) == Err::<Seq<(Seq<char>, Seq<char>)>, ErrorView>(e@),
        },
{
    if json.is_empty() {
        let out: Vec<(String, String)> = Vec::new();
        assert(text::pair_views(out@) =~= Seq::<(Seq<char>, Seq<char>)>::empty());
        return Ok(out);
    }
    match json::members(json) {
        Err(e) => {
            let mut m = String::from_str("advanced must be valid JSON: ");
            m.append(e.as_str());
            Err(Error::Invalid(m))
        },
        Ok(None) => Err(Error::Invalid(String::from_str("advanced must be a JSON object"))),
        Ok(Some(m)) => Ok(overrides_of(&m)),
    }
}

/// What a pack request asks for.
#[derive(Debug)]
pub struct PackParams {
    pub variant: String,
    pub num_spheres: usize,
    pub iterations: usize,
    pub seed: Option<u64>,
    /// Dotted-key overrides from [`parse_advanced`]; applied last.
    pub advanced: Vec<(String, String)>,
    /// Mesh preparation: merge overlapping closed bodies into their union
    /// before packing (`model.union_overlapping_bodies`, default true).
    pub union_overlapping_bodies: bool,
    /// Mesh preparation: replace each body by its convex hull
    /// (`model.convex_hull`, default false).
    pub convex_hull: bool,
}

/// The contents of a [`PackParams`].
#[verifier::ext_equal]
pub struct ParamsView {
    pub variant: Seq<char>,
    pub num_spheres: int,
    pub iterations: int,
    pub seed: Option<int>,
    pub advanced: Seq<(Seq<char>, Seq<char>)>,
    pub union_overlapping_bodies: bool,
    pub convex_hull: bool,
}

impl View for PackParams {
    type V = ParamsView;

    open spec fn view(&self) -> ParamsView {
        ParamsView {
            variant: self.variant@,
            num_spheres: self.num_spheres as int,
            iterations: self.iterations as int,
            seed: match self.seed {
                Some(s) => Some(s as int),
                None => None,
            },
            advanced: text::pair_views(self.advanced@),
            union_overlapping_bodies: self.union_overlapping_bodies,
            convex_hull: self.convex_hull,
        }
    }
}

/// Why a pack request is refused.
pub open spec fn refusal(variant: Seq<char>, num_spheres: int, iterations: int) -> Option<ErrorView> {
    if !is_variant(variant) {
        Some(ErrorView::Invalid(variant_message()))
    } else if !(1 <= num_spheres <= 200) {
        Some(ErrorView::Invalid("num_spheres must be in [1, 200]"@))
    } else if !(1 <= iterations <= 1000) {
        Some(ErrorView::Invalid("iterations must be in [1, 1000]"@))
    } else {
        None
    }
}

/// The optimizer's settings for one pack.
#[derive(Debug)]
pub struct Settings {
    /// The preset that the other settings start from.
    pub preset: String,
    pub num_spheres: usize,
    pub device: String,
    pub iterations: usize,
    pub union_overlapping_bodies: bool,
    pub convex_hull: bool,
    pub logging_enabled: bool,
    pub visualization_enabled: bool,
    pub visualization_off_screen: bool,
    pub visualization_save_video: bool,
    pub results_dir: String,
    pub output_filename: String,
    /// The seed; the preset's when there is none.
    pub random_seed: Option<u64>,
    /// Dotted keys and JSON values, set after everything else, in order.
    pub overrides: Vec<(String, String)>,
}

impl Settings {
    /// Whether these are the settings that a request asks for.
    pub open spec fn is_for(
        self,
        params: ParamsView,
        device: Seq<char>,
        results_dir: Seq<char>,
    ) -> bool {
        &&& self.preset@ == params.variant
        &&& self.num_spheres == params.num_spheres
        &&& self.device@ == device
        &&& self.iterations == params.iterations
        &&& self.union_overlapping_bodies == params.union_overlapping_bodies
        &&& self.convex_hull == params.convex_hull
        &&& !self.logging_enabled
        &&& !self.visualization_enabled
        &&& self.visualization_off_screen
        &&& !self.visualization_save_video
        &&& self.results_dir@ == results_dir
        &&& params.seed == (match self.random_seed {
            Some(s) => Some(s as int),
            None => None,
        })
        &&& text::pair_views(self.overrides@) == params.advanced
    }
}

impl PackParams {
    /// Validate like the API does: the variant, `1..=200` spheres and
    /// `1..=1000` iterations.
    pub fn validate(&self) -> (res: Result<(), Error>)
        ensures
            match res {
                Ok(()) => refusal(self.variant@, self.num_spheres as int, self.iterations as int)
                    is None,
                Err(e) => refusal(self.variant@, self.num_spheres as int, self.iterations as int)
                    == Some(e@),
            },
    {
        let v = self.variant.as_str();
        if !(text::same(v, "MorphIt-V") || text::same(v, "MorphIt-S") || text::same(
            v,
            "MorphIt-B",
        )) {
            return Err(Error::Invalid(variant_error()));
        }
        if !(1 <= self.num_spheres && self.num_spheres <= 200) {
            return Err(Error::Invalid(String::from_str("num_spheres must be in [1, 200]")));
        }
        if !(1 <= self.iterations && self.iterations <= 1000) {
            return Err(Error::Invalid(String::from_str("iterations must be in [1, 1000]")));
        }
        Ok(())
    }

    /// The optimizer's settings: preset, counts, logging and visualization off,
    /// output location, seed, `device`, then the overrides. The optimizer may still
    /// refuse them: see [`config_refused`].
    pub fn config(&self, device: &str, results_dir: &str, output_filename: &str) -> (out: Settings)
        ensures
            out.is_for(self@, device@, results_dir@),
            out.output_filename@ == output_filename@,
    {
        let mut overrides: Vec<(String, String)> = Vec::new();
        let mut i: usize = 0;
        while i < self.advanced.len()
            invariant
                i <= self.advanced@.len(),
                overrides@.len() == i,
                forall|j: int|
                    0 <= j < i ==> (#[trigger] overrides@[j]).0@ == self.advanced@[j].0@
                        && overrides@[j].1@ == self.advanced@[j].1@,
            decreases self.advanced@.len() - i,
        {
            overrides.push((self.advanced[i].0.clone(), self.advanced[i].1.clone()));
            i = i + 1;
        }
        assert(text::pair_views(overrides@) =~= text::pair_views(self.advanced@));
        Settings {
            preset: self.variant.clone(),
            num_spheres: self.num_spheres,
            device: String::from_str(device),
            iterations: self.iterations,
            union_overlapping_bodies: self.union_overlapping_bodies,
            convex_hull: self.convex_hull,
            logging_enabled: false,
            visualization_enabled: false,
            visualization_off_screen: true,
            visualization_save_video: false,
            results_dir: String::from_str(results_dir),
            output_filename: String::from_str(output_filename),
            random_seed: self.seed,
            overrides,
        }
    }
}

/// The error for settings that the optimizer refuses, such as an override with a
/// value of the wrong type: invalid input, with the optimizer's message.
pub fn config_refused(e: &EngineError) -> (out: Error)
    ensures
        out@ == ErrorView::Invalid(e@.message),
{
    Error::Invalid(e.message.clone())
}

/// Every override sets a key of the allow list to a value that is not null.
pub proof fn overrides_are_allow_listed(members: Seq<(Seq<char>, Seq<char>)>)
    ensures
        overrides(members).len() <= members.len(),
        forall|i: int|
            0 <= i < overrides(members).len() ==> (#[trigger] overrides(members)[i]).1 != "null"@
                && exists|flat: Seq<char>| #[trigger]
                dotted_key(flat) == Some(overrides(members)[i].0),
    decreases members.len(),
{
    if members.len() > 0 {
        overrides_are_allow_listed(members.drop_last());
        let (key, value) = members.last();
        assert(dotted_key(key) is Some ==> dotted_key(key) == Some(dotted_key(key)->0));
    }
}

/// The flat `advanced` keys that set an entry of the optimizer's model.
pub open spec fn model_keys() -> Seq<Seq<char>> {
    seq!["num_inside_samples"@, "num_surface_samples"@]
}

/// The flat `advanced` keys that set an entry of the optimizer's training.
pub open spec fn training_keys() -> Seq<Seq<char>> {
    seq![
        "density_control_enabled"@,
        "density_control_min_interval"@,
        "density_control_cooling_factor"@,
        "coverage_weight"@,
        "overlap_weight"@,
        "boundary_weight"@,
        "surface_weight"@,
        "containment_weight"@,
        "sqem_weight"@,
        "hausdorff_weight"@,
        "mesh_containment_weight"@,
    ]
}

proof fn lemma_model_keys()
    ensures
        forall|k: int|
            0 <= k < model_keys().len() ==> dotted_key(#[trigger] model_keys()[k]) == Some(
                "model."@ + model_keys()[k],
            ),
{
    reveal_strlit("model.");
    reveal_strlit("num_inside_samples");
    reveal_strlit("num_surface_samples");
    reveal_strlit("model.num_inside_samples");
    reveal_strlit("model.num_surface_samples");
    assert("model."@ + "num_inside_samples"@ =~= "model.num_inside_samples"@);
    assert("model."@ + "num_surface_samples"@ =~= "model.num_surface_samples"@);
    assert("num_inside_samples"@.len() != "num_surface_samples"@.len());
}

proof fn lemma_control_keys()
    ensures
        dotted_key("density_control_enabled"@) == Some(
            "training."@ + "density_control_enabled"@,
        ),
        dotted_key("density_control_min_interval"@) == Some(
            "training."@ + "density_control_min_interval"@,
        ),
        dotted_key("density_control_cooling_factor"@) == Some(
            "training."@ + "density_control_cooling_factor"@,
        ),
{
    reveal_strlit("training.");
    reveal_strlit("num_inside_samples");
    reveal_strlit("num_surface_samples");
    reveal_strlit("density_control_enabled");
    reveal_strlit("density_control_min_interval");
    reveal_strlit("density_control_cooling_factor");
    reveal_strlit("training.density_control_enabled");
    reveal_strlit("training.density_control_min_interval");
    reveal_strlit("training.density_control_cooling_factor");
    assert("training."@ + "density_control_enabled"@ =~= "training.density_control_enabled"@);
    assert("training."@ + "density_control_min_interval"@
        =~= "training.density_control_min_interval"@);
    assert("training."@ + "density_control_cooling_factor"@
        =~= "training.density_control_cooling_factor"@);
    assert("density_control_enabled"@.len() == 23);
    assert("density_control_min_interval"@.len() == 28);
    assert("density_control_cooling_factor"@.len() == 30);
    assert("num_inside_samples"@.len() == 18);
    assert("num_surface_samples"@.len() == 19);
}

/// The weights differ from each other and from the other keys.
proof fn lemma_weights_differ()
    ensures
        "coverage_weight"@.len() == 15 && "coverage_weight"@[0] == 'c',
        "overlap_weight"@.len() == 14 && "overlap_weight"@[0] == 'o',
        "boundary_weight"@.len() == 15 && "boundary_weight"@[0] == 'b',
        "surface_weight"@.len() == 14 && "surface_weight"@[0] == 's',
        "containment_weight"@.len() == 18 && "containment_weight"@[0] == 'c',
        "sqem_weight"@.len() == 11,
        "hausdorff_weight"@.len() == 16,
        "mesh_containment_weight"@.len() == 23 && "mesh_containment_weight"@[0] == 'm',
        "num_inside_samples"@.len() == 18 && "num_inside_samples"@[0] == 'n',
        "num_surface_samples"@.len() == 19,
        "density_control_enabled"@.len() == 23 && "density_control_enabled"@[0] == 'd',
        "density_control_min_interval"@.len() == 28,
        "density_control_cooling_factor"@.len() == 30,
{
    reveal_strlit("coverage_weight");
    reveal_strlit("overlap_weight");
    reveal_strlit("boundary_weight");
    reveal_strlit("surface_weight");
    reveal_strlit("containment_weight");
    reveal_strlit("sqem_weight");
    reveal_strlit("hausdorff_weight");
    reveal_strlit("mesh_containment_weight");
    reveal_strlit("num_inside_samples");
    reveal_strlit("num_surface_samples");
    reveal_strlit("density_control_enabled");
    reveal_strlit("density_control_min_interval");
    reveal_strlit("density_control_cooling_factor");
}

proof fn lemma_weight_keys()
    ensures
        dotted_key("coverage_weight"@) == Some("training."@ + "coverage_weight"@),
        dotted_key("overlap_weight"@) == Some("training."@ + "overlap_weight"@),
        dotted_key("boundary_weight"@) == Some("training."@ + "boundary_weight"@),
        dotted_key("surface_weight"@) == Some("training."@ + "surface_weight"@),
{
    lemma_weights_differ();
    reveal_strlit("training.");
    reveal_strlit("training.coverage_weight");
    reveal_strlit("training.overlap_weight");
    reveal_strlit("training.boundary_weight");
    reveal_strlit("training.surface_weight");
    reveal_strlit("coverage_weight");
    reveal_strlit("overlap_weight");
    reveal_strlit("boundary_weight");
    reveal_strlit("surface_weight");
    assert("training."@ + "coverage_weight"@ =~= "training.coverage_weight"@);
    assert("training."@ + "overlap_weight"@ =~= "training.overlap_weight"@);
    assert("training."@ + "boundary_weight"@ =~= "training.boundary_weight"@);
    assert("training."@ + "surface_weight"@ =~= "training.surface_weight"@);
}

proof fn lemma_more_weight_keys()
    ensures
        dotted_key("containment_weight"@) == Some("training."@ + "containment_weight"@),
        dotted_key("sqem_weight"@) == Some("training."@ + "sqem_weight"@),
        dotted_key("hausdorff_weight"@) == Some("training."@ + "hausdorff_weight"@),
        dotted_key("mesh_containment_weight"@) == Some("training."@ + "mesh_containment_weight"@),
{
    lemma_weights_differ();
    reveal_strlit("training.");
    reveal_strlit("training.containment_weight");
    reveal_strlit("training.sqem_weight");
    reveal_strlit("training.hausdorff_weight");
    reveal_strlit("training.mesh_containment_weight");
    reveal_strlit("containment_weight");
    reveal_strlit("sqem_weight");
    reveal_strlit("hausdorff_weight");
    reveal_strlit("mesh_containment_weight");
    assert("training."@ + "containment_weight"@ =~= "training.containment_weight"@);
    assert("training."@ + "sqem_weight"@ =~= "training.sqem_weight"@);
    assert("training."@ + "hausdorff_weight"@ =~= "training.hausdorff_weight"@);
    assert("training."@ + "mesh_containment_weight"@ =~= "training.mesh_containment_weight"@);
}

/// Every flat key that is accepted sets the entry of its own name: that of the model
/// for the sample counts, that of the training for the others. No other key is
/// accepted.
pub proof fn advanced_keys_set_the_entry_of_their_name(flat: Seq<char>)
    ensures
        model_keys().contains(flat) ==> dotted_key(flat) == Some("model."@ + flat),
        training_keys().contains(flat) ==> dotted_key(flat) == Some("training."@ + flat),
        dotted_key(flat) is Some ==> model_keys().contains(flat) || training_keys().contains(flat),
{
    lemma_model_keys();
    lemma_control_keys();
    lemma_weight_keys();
    lemma_more_weight_keys();
    let m = model_keys();
    let t = training_keys();
    if m.contains(flat) {
        let k = choose|k: int| 0 <= k < m.len() && m[k] == flat;
        assert(dotted_key(m[k]) == Some("model."@ + m[k]));
    }
    if dotted_key(flat) is Some {
        assert(m[0] == "num_inside_samples"@ && m[1] == "num_surface_samples"@);
        assert(t[0] == "density_control_enabled"@ && t[1] == "density_control_min_interval"@
            && t[2] == "density_control_cooling_factor"@ && t[3] == "coverage_weight"@ && t[4]
            == "overlap_weight"@ && t[5] == "boundary_weight"@ && t[6] == "surface_weight"@ && t[7]
            == "containment_weight"@ && t[8] == "sqem_weight"@ && t[9] == "hausdorff_weight"@
            && t[10] == "mesh_containment_weight"@);
    }
}

/// Different flat keys set different entries.
pub proof fn advanced_keys_do_not_meet(a: Seq<char>, b: Seq<char>)
    requires
        dotted_key(a) is Some,
        dotted_key(a) == dotted_key(b),
    ensures
        a == b,
{
    advanced_keys_set_the_entry_of_their_name(a);
    advanced_keys_set_the_entry_of_their_name(b);
    reveal_strlit("model.");
    reveal_strlit("training.");
    let d = dotted_key(a)->0;
    if model_keys().contains(a) && model_keys().contains(b) {
        assert(d.skip(6) =~= a);
        assert(d.skip(6) =~= b);
    } else if training_keys().contains(a) && training_keys().contains(b) {
        assert(d.skip(9) =~= a);
        assert(d.skip(9) =~= b);
    } else {
        assert(d[0] == 'm' && d[0] == 't');
    }
}

/// The members that set an entry: those with an accepted key and a value that is not
/// null.
pub open spec fn sets_an_entry() -> spec_fn((Seq<char>, Seq<char>)) -> bool {
    |m: (Seq<char>, Seq<char>)|
        (model_keys().contains(m.0) || training_keys().contains(m.0)) && m.1 != "null"@
}

/// The overrides are the members that set an entry, in their order and with their
/// values; each sets the entry of its name.
pub proof fn overrides_keep_order_and_values(members: Seq<(Seq<char>, Seq<char>)>)
    ensures
        ({
            let kept = members.filter(sets_an_entry());
            let out = overrides(members);
            &&& out.len() == kept.len()
            &&& forall|i: int|
                0 <= i < out.len() ==> (#[trigger] out[i]).1 == kept[i].1 && out[i].0 == (
                if model_keys().contains(kept[i].0) {
                    "model."@
                } else {
                    "training."@
                }) + kept[i].0
        }),
    decreases members.len(),
{
    if members.len() == 0 {
        reveal(Seq::filter);
    } else {
        let f = members.drop_last();
        let x = members.last();
        overrides_keep_order_and_values(f);
        f.lemma_filter_push(x, sets_an_entry());
        assert(f.push(x) =~= members);
        advanced_keys_set_the_entry_of_their_name(x.0);
        let kept = members.filter(sets_an_entry());
        let out = overrides(members);
        let before = overrides(f);
        assert forall|i: int| 0 <= i < out.len() implies (#[trigger] out[i]).1 == kept[i].1
            && out[i].0 == (if model_keys().contains(kept[i].0) {
            "model."@
        } else {
            "training."@
        }) + kept[i].0 by {
            if i < before.len() {
                assert(out[i] == before[i]);
                assert(kept[i] == f.filter(sets_an_entry())[i]);
            }
        }
    }
}

/// A request is accepted exactly where its variant is offered and its counts are in
/// range.
pub proof fn requests_in_range_are_accepted(variant: Seq<char>, num_spheres: int, iterations: int)
    ensures
        refusal(variant, num_spheres, iterations) is None <==> (variant == "MorphIt-V"@ || variant
            == "MorphIt-S"@ || variant == "MorphIt-B"@) && 1 <= num_spheres <= 200 && 1
            <= iterations <= 1000,
{
}

/// The settings of a request hold what it asks for, each in its own place, and no two
/// requests have the same settings.
pub proof fn settings_tell_requests_apart(
    s: Settings,
    a: ParamsView,
    b: ParamsView,
    device: Seq<char>,
    results_dir: Seq<char>,
)
    requires
        s.is_for(a, device, results_dir),
    ensures
        s.preset@ == a.variant && s.num_spheres == a.num_spheres && s.iterations == a.iterations,
        s.union_overlapping_bodies == a.union_overlapping_bodies && s.convex_hull == a.convex_hull,
        s.device@ == device && s.results_dir@ == results_dir,
        text::pair_views(s.overrides@) == a.advanced,
        s.random_seed is Some <==> a.seed is Some,
        s.random_seed matches Some(n) ==> a.seed == Some(n as int),
        !s.logging_enabled && !s.visualization_enabled && !s.visualization_save_video,
        s.is_for(b, device, results_dir) ==> a == b,
{
    if s.is_for(b, device, results_dir) {
        assert(a =~= b);
    }
}

} // verus!
