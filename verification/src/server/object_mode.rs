//! Object mode: what a request to pack, score or prepare an uploaded mesh asks
//! for, or the reply that refuses it.

use vstd::prelude::*;

use crate::color;
use crate::config;
use crate::config::{PackParams, ParamsView};
use crate::numeral;
use crate::numeral::TripleView;
use crate::object_model;
use crate::object_model::ReadSpheres;
use crate::pack::MeshPrep;
use crate::paths;
use crate::server::error;
use crate::server::error::{ApiError, ApiErrorView};
use crate::server::files;
use crate::server::forms;
use crate::server::forms::{Form, FormView, Upload, UploadView};
use crate::text;
use crate::ErrorView;

verus! {

/// The sphere and iteration counts and the seed of a pack request, as given.
pub struct CountsView {
    pub spheres: int,
    pub iterations: int,
    pub seed: Option<int>,
}

/// The sphere and iteration counts and the seed of a pack request, as given.
#[derive(Clone, Copy, Debug)]
pub struct Counts {
    pub spheres: i64,
    pub iterations: i64,
    pub seed: Option<i64>,
}

impl View for Counts {
    type V = CountsView;

    open spec fn view(&self) -> CountsView {
        CountsView {
            spheres: self.spheres as int,
            iterations: self.iterations as int,
            seed: forms::opt_i64(self.seed),
        }
    }
}

/// The counts and the seed that a form gives: 20 spheres, 200 iterations and
/// no seed unless it says otherwise.
pub open spec fn counts_of(form: FormView) -> Result<CountsView, ApiErrorView> {
    match form.integer_or("num_spheres"@, 20) {
        Err(e) => Err(e),
        Ok(spheres) => match form.integer_or("iterations"@, 200) {
            Err(e) => Err(e),
            Ok(iterations) => match form.integer("seed"@) {
                Err(e) => Err(e),
                Ok(seed) => Ok(CountsView { spheres, iterations, seed }),
            },
        },
    }
}

/// The counts and the seed that a form gives.
pub fn read_counts(form: &Form) -> (res: Result<Counts, ApiError>)
    ensures
        match res {
            Ok(c) => counts_of(form@) == Ok::<CountsView, ApiErrorView>(c@),
            Err(e) => counts_of(form@) == Err::<CountsView, ApiErrorView>(e@),
        },
{
    let spheres: i64 = match form.int_or("num_spheres", 20) {
        Ok(n) => n,
        Err(e) => return Err(e),
    };
    let iterations: i64 = match form.int_or("iterations", 200) {
        Ok(n) => n,
        Err(e) => return Err(e),
    };
    match form.opt_int("seed") {
        Ok(seed) => Ok(Counts { spheres, iterations, seed }),
        Err(e) => Err(e),
    }
}

/// The mesh preparation that a form asks for: the union unless it is switched
/// off, hulls only when they are switched on.
pub open spec fn prep_of(form: FormView) -> Result<MeshPrep, ApiErrorView> {
    match form.flag("union_overlapping_bodies"@, true) {
        Err(e) => Err(e),
        Ok(union_overlapping_bodies) => match form.flag("convex_hull"@, false) {
            Err(e) => Err(e),
            Ok(convex_hull) => Ok(MeshPrep { union_overlapping_bodies, convex_hull }),
        },
    }
}

/// The mesh preparation that a form asks for.
pub fn read_prep(form: &Form) -> (res: Result<MeshPrep, ApiError>)
    ensures
        match res {
            Ok(p) => prep_of(form@) == Ok::<MeshPrep, ApiErrorView>(p),
            Err(e) => prep_of(form@) == Err::<MeshPrep, ApiErrorView>(e@),
        },
{
    let union_overlapping_bodies = match form.bool_or("union_overlapping_bodies", true) {
        Ok(b) => b,
        Err(e) => return Err(e),
    };
    match form.bool_or("convex_hull", false) {
        Ok(convex_hull) => Ok(MeshPrep { union_overlapping_bodies, convex_hull }),
        Err(e) => Err(e),
    }
}

/// The validated parameters of a pack request, before its overrides and its
/// seed.
pub open spec fn params_of(form: FormView, counts: CountsView) -> Result<ParamsView, ApiErrorView> {
    match prep_of(form) {
        Err(e) => Err(e),
        Ok(prep) => {
            let p = ParamsView {
                variant: form.value_or("variant"@, "MorphIt-B"@),
                num_spheres: forms::count_of(counts.spheres),
                iterations: forms::count_of(counts.iterations),
                seed: None,
                advanced: Seq::empty(),
                union_overlapping_bodies: prep.union_overlapping_bodies,
                convex_hull: prep.convex_hull,
            };
            match config::refusal(p.variant, p.num_spheres, p.iterations) {
                Some(e) => Err(error::error_reply(e)),
                None => Ok(p),
            }
        },
    }
}

/// The validated parameters of a pack request, before its overrides and its
/// seed.
pub fn read_params(form: &Form, counts: &Counts) -> (res: Result<PackParams, ApiError>)
    ensures
        match res {
            Ok(p) => params_of(form@, counts@) == Ok::<ParamsView, ApiErrorView>(p@),
            Err(e) => params_of(form@, counts@) == Err::<ParamsView, ApiErrorView>(e@),
        },
{
    let prep = match read_prep(form) {
        Ok(p) => p,
        Err(e) => return Err(e),
    };
    let params = PackParams {
        variant: String::from_str(form.text_or("variant", "MorphIt-B")),
        num_spheres: forms::count(counts.spheres),
        iterations: forms::count(counts.iterations),
        seed: None,
        advanced: Vec::new(),
        union_overlapping_bodies: prep.union_overlapping_bodies,
        convex_hull: prep.convex_hull,
    };
    assert(params@.advanced =~= Seq::<(Seq<char>, Seq<char>)>::empty());
    match params.validate() {
        Ok(()) => Ok(params),
        Err(e) => Err(ApiError::from_error(&e)),
    }
}

/// The parameters with the overrides and the seed of the request.
pub open spec fn finished_params(form: FormView, counts: CountsView, p: ParamsView) -> Result<
    ParamsView,
    ApiErrorView,
> {
    match config::advanced(form.value_or("advanced"@, "{}"@)) {
        Err(e) => Err(error::error_reply(e)),
        Ok(advanced) => match forms::seed_value(counts.seed) {
            Err(e) => Err(e),
            Ok(seed) => Ok(ParamsView { advanced, seed, ..p }),
        },
    }
}

/// The parameters with the overrides and the seed of the request.
pub fn finish_params(form: &Form, counts: &Counts, params: PackParams) -> (res: Result<
    PackParams,
    ApiError,
>)
    ensures
        match res {
            Ok(p) => finished_params(form@, counts@, params@) == Ok::<ParamsView, ApiErrorView>(p@),
            Err(e) => finished_params(form@, counts@, params@) == Err::<ParamsView, ApiErrorView>(
                e@,
            ),
        },
{
    let advanced = match config::parse_advanced(form.text_or("advanced", "{}")) {
        Ok(a) => a,
        Err(e) => return Err(ApiError::from_error(&e)),
    };
    match forms::seed(counts.seed) {
        Ok(seed) => Ok(PackParams { advanced, seed, ..params }),
        Err(e) => Err(e),
    }
}

/// Why an uploaded mesh is refused for its size.
pub open spec fn size_refusal(mesh: UploadView) -> Option<ApiErrorView> {
    if mesh.data.len() > files::MAX_OBJECT_MESH_BYTES {
        Some(
            error::large_reply(
                mesh.data.len(),
                files::MAX_OBJECT_MESH_BYTES as nat,
                "Mesh file"@,
            ),
        )
    } else {
        None
    }
}

/// Refuse a mesh that is too large.
fn check_size(mesh: &Upload) -> (res: Result<(), ApiError>)
    ensures
        match res {
            Ok(()) => size_refusal(mesh@) is None,
            Err(e) => size_refusal(mesh@) == Some(e@),
        },
{
    if mesh.data.len() > files::MAX_OBJECT_MESH_BYTES {
        Err(ApiError::too_large(mesh.data.len(), files::MAX_OBJECT_MESH_BYTES, "Mesh file"))
    } else {
        Ok(())
    }
}

/// The name of an upload, as text.
fn upload_name(mesh: &Upload) -> (out: Option<&str>)
    ensures
        text::opt_str(out) == mesh@.filename,
{
    match &mesh.filename {
        Some(f) => Some(f.as_str()),
        None => None,
    }
}

/// The name of the object that an upload holds.
pub open spec fn object_name(mesh: UploadView) -> Seq<char> {
    files::stem_or(
        Some(
            match mesh.filename {
                Some(f) => f,
                None => "object"@,
            },
        ),
        "object"@,
    )
}

/// The name of the object that an upload holds.
fn name_of(mesh: &Upload) -> (out: String)
    ensures
        out@ == object_name(mesh@),
{
    match &mesh.filename {
        Some(f) => files::file_stem(Some(f.as_str()), "object"),
        None => files::file_stem(Some("object"), "object"),
    }
}

/// What a pack request asks for.
#[derive(Debug)]
pub struct MorphRequest<'a> {
    pub mesh: &'a Upload,
    /// The mesh's suffix, with its dot.
    pub suffix: String,
    /// The robot's name, escaped for an attribute.
    pub robot_name: String,
    pub params: PackParams,
    pub color: [u8; 4],
}

/// The contents of a [`MorphRequest`].
#[verifier::ext_equal]
pub struct MorphView {
    pub mesh: UploadView,
    pub suffix: Seq<char>,
    pub robot_name: Seq<char>,
    pub params: ParamsView,
    pub color: (int, int, int),
}

impl<'a> View for MorphRequest<'a> {
    type V = MorphView;

    open spec fn view(&self) -> MorphView {
        MorphView {
            mesh: self.mesh@,
            suffix: self.suffix@,
            robot_name: self.robot_name@,
            params: self.params@,
            color: (self.color@[0] as int, self.color@[1] as int, self.color@[2] as int),
        }
    }
}

/// What `POST /api/morph` makes of its form.
pub open spec fn morph_request(form: FormView) -> Result<MorphView, ApiErrorView> {
    match form.upload("mesh"@) {
        Err(e) => Err(e),
        Ok(mesh) => match counts_of(form) {
            Err(e) => Err(e),
            Ok(counts) => match params_of(form, counts) {
                Err(e) => Err(e),
                Ok(p) => {
                    let suffix = files::suffix_of(mesh.filename);
                    if !files::is_mesh_suffix(suffix) {
                        Err(files::extension_reply())
                    } else {
                        match finished_params(form, counts, p) {
                            Err(e) => Err(e),
                            Ok(params) => match size_refusal(mesh) {
                                Some(e) => Err(e),
                                None => Ok(
                                    MorphView {
                                        mesh,
                                        suffix,
                                        robot_name: files::attribute_text(object_name(mesh)),
                                        params,
                                        color: color::color_or_default(
                                            Some(form.value_or("base_color"@, "#3399ff"@)),
                                        ),
                                    },
                                ),
                            },
                        }
                    }
                },
            },
        },
    }
}

/// `POST /api/morph`: form fields `mesh` (file), `variant`, `num_spheres`,
/// `iterations`, `seed`, `advanced`, `base_color`, and the mesh preparation
/// switches `union_overlapping_bodies` (default true) and `convex_hull`
/// (default false).
pub fn morph(form: &Form) -> (res: Result<MorphRequest<'_>, ApiError>)
    ensures
        match res {
            Ok(r) => morph_request(form@) == Ok::<MorphView, ApiErrorView>(r@) && r.color@[3]
                == 255,
            Err(e) => morph_request(form@) == Err::<MorphView, ApiErrorView>(e@),
        },
{
    let mesh = match form.file("mesh") {
        Ok(m) => m,
        Err(e) => return Err(e),
    };
    let counts = match read_counts(form) {
        Ok(c) => c,
        Err(e) => return Err(e),
    };
    let params = match read_params(form, &counts) {
        Ok(p) => p,
        Err(e) => return Err(e),
    };
    let suffix = files::file_suffix(upload_name(mesh));
    if !files::mesh_suffix(suffix.as_str()) {
        return Err(files::extension_error());
    }
    let name = name_of(mesh);
    let params = match finish_params(form, &counts, params) {
        Ok(p) => p,
        Err(e) => return Err(e),
    };
    match check_size(mesh) {
        Ok(()) => {},
        Err(e) => return Err(e),
    }
    let color = color::safe_color_rgba(Some(form.text_or("base_color", "#3399ff")));
    Ok(MorphRequest { mesh, suffix, robot_name: files::attr_escape(name.as_str()), params, color })
}

/// What a request to score a packing asks for.
#[derive(Debug)]
pub struct ScoreRequest<'a> {
    pub mesh: &'a Upload,
    pub suffix: String,
    pub prep: MeshPrep,
    pub spheres: ReadSpheres,
    /// The name of the row.
    pub name: String,
}

/// The contents of a [`ScoreRequest`].
#[verifier::ext_equal]
pub struct ScoreView {
    pub mesh: UploadView,
    pub suffix: Seq<char>,
    pub prep: MeshPrep,
    pub centroid: TripleView,
    pub spheres: Seq<(TripleView, Seq<char>)>,
    pub name: Seq<char>,
}

impl<'a> View for ScoreRequest<'a> {
    type V = ScoreView;

    open spec fn view(&self) -> ScoreView {
        ScoreView {
            mesh: self.mesh@,
            suffix: self.suffix@,
            prep: self.prep,
            centroid: self.spheres.centroid@,
            spheres: object_model::read_views(self.spheres.spheres@),
            name: self.name@,
        }
    }
}

/// What `POST /api/morph/analyze` makes of its form.
pub open spec fn score_request(form: FormView) -> Result<ScoreView, ApiErrorView> {
    match form.upload("mesh"@) {
        Err(e) => Err(e),
        Ok(mesh) => match form.required("urdf"@) {
            Err(e) => Err(e),
            Ok(urdf) => match prep_of(form) {
                Err(e) => Err(e),
                Ok(prep) => {
                    let suffix = files::suffix_of(mesh.filename);
                    if !files::is_mesh_suffix(suffix) {
                        Err(files::extension_reply())
                    } else {
                        match size_refusal(mesh) {
                            Some(e) => Err(e),
                            None => match object_model::read_object(urdf) {
                                Err(e) => Err(error::error_reply(e)),
                                Ok((centroid, spheres)) => Ok(
                                    ScoreView {
                                        mesh,
                                        suffix,
                                        prep,
                                        centroid,
                                        spheres,
                                        name: object_name(mesh),
                                    },
                                ),
                            },
                        }
                    }
                },
            },
        },
    }
}

/// `POST /api/morph/analyze`: form fields `mesh` (file), `urdf` (the object
/// URDF text), `union_overlapping_bodies` (default true) and `convex_hull`
/// (default false), which score against the mesh prepared as it was packed.
pub fn analyze(form: &Form) -> (res: Result<ScoreRequest<'_>, ApiError>)
    ensures
        match res {
            Ok(r) => score_request(form@) == Ok::<ScoreView, ApiErrorView>(r@),
            Err(e) => score_request(form@) == Err::<ScoreView, ApiErrorView>(e@),
        },
{
    let mesh = match form.file("mesh") {
        Ok(m) => m,
        Err(e) => return Err(e),
    };
    let urdf = match form.required_text("urdf") {
        Ok(u) => u,
        Err(e) => return Err(e),
    };
    let prep = match read_prep(form) {
        Ok(p) => p,
        Err(e) => return Err(e),
    };
    let suffix = files::file_suffix(upload_name(mesh));
    if !files::mesh_suffix(suffix.as_str()) {
        return Err(files::extension_error());
    }
    match check_size(mesh) {
        Ok(()) => {},
        Err(e) => return Err(e),
    }
    let spheres = match object_model::spheres_from_object_urdf(urdf) {
        Ok(s) => s,
        Err(e) => return Err(ApiError::from_error(&e)),
    };
    Ok(ScoreRequest { mesh, suffix, prep, spheres, name: name_of(mesh) })
}

/// Formats of a mesh download.
#[derive(Clone, Copy, Debug, PartialEq, Eq, Structural)]
pub enum MeshFormat {
    Obj,
    Stl,
}

/// The format that `v` names, in any case.
pub open spec fn format_named(v: Seq<char>) -> Option<MeshFormat> {
    let low = numeral::ascii_lowercase(v);
    if low == "obj"@ {
        Some(MeshFormat::Obj)
    } else if low == "stl"@ {
        Some(MeshFormat::Stl)
    } else {
        None
    }
}

/// The format that `v` names, or the 422 reply.
pub open spec fn format_value(loc: Seq<char>, v: Seq<char>) -> Result<MeshFormat, ApiErrorView> {
    match format_named(v) {
        Some(f) => Ok(f),
        None => Err(
            error::field_reply(
                loc,
                "format"@,
                "enum"@,
                "Input should be 'obj' or 'stl'"@,
                crate::json::quoted(v),
            ),
        ),
    }
}

/// `obj` or `stl`, else a 422 at `loc`.
pub fn parse_format(loc: &str, v: &str) -> (res: Result<MeshFormat, ApiError>)
    ensures
        match res {
            Ok(f) => format_value(loc@, v@) == Ok::<MeshFormat, ApiErrorView>(f),
            Err(e) => format_value(loc@, v@) == Err::<MeshFormat, ApiErrorView>(e@),
        },
{
    let low = text::from_chars(&numeral::lowered(&text::to_chars(v)));
    if text::same(low.as_str(), "obj") {
        Ok(MeshFormat::Obj)
    } else if text::same(low.as_str(), "stl") {
        Ok(MeshFormat::Stl)
    } else {
        Err(
            ApiError::validation(
                loc,
                "format",
                "enum",
                "Input should be 'obj' or 'stl'",
                Some(v),
            ),
        )
    }
}

impl MeshFormat {
    /// The file extension of the format.
    pub open spec fn ext(self) -> Seq<char> {
        match self {
            MeshFormat::Obj => "obj"@,
            MeshFormat::Stl => "stl"@,
        }
    }

    /// The file extension of the format.
    pub fn extension(self) -> (out: String)
        ensures
            out@ == self.ext(),
    {
        match self {
            MeshFormat::Obj => String::from_str("obj"),
            MeshFormat::Stl => String::from_str("stl"),
        }
    }

    /// The media type of the format: `model/` and its extension.
    pub fn mime(self) -> (out: String)
        ensures
            out@ == "model/"@ + self.ext(),
    {
        let mut out = String::from_str("model/");
        out.append(self.extension().as_str());
        out
    }
}

/// The `Content-Disposition` of a prepared mesh.
pub fn prepared_disposition(stem: &str, format: MeshFormat) -> (out: String)
    ensures
        out@ == "attachment; filename=\""@ + files::prepared_name(stem@, format.ext()) + "\""@,
{
    let mut out = String::from_str("attachment; filename=\"");
    out.append(files::safe_filename(stem, format.extension().as_str()).as_str());
    out.append("\"");
    out
}

/// What a request for a prepared mesh asks for.
#[derive(Debug)]
pub struct PrepareRequest<'a> {
    pub mesh: &'a Upload,
    pub suffix: String,
    pub prep: MeshPrep,
    pub format: MeshFormat,
    pub stem: String,
}

/// The contents of a [`PrepareRequest`].
#[verifier::ext_equal]
pub struct PrepareView {
    pub mesh: UploadView,
    pub suffix: Seq<char>,
    pub prep: MeshPrep,
    pub format: MeshFormat,
    pub stem: Seq<char>,
}

impl<'a> View for PrepareRequest<'a> {
    type V = PrepareView;

    open spec fn view(&self) -> PrepareView {
        PrepareView {
            mesh: self.mesh@,
            suffix: self.suffix@,
            prep: self.prep,
            format: self.format,
            stem: self.stem@,
        }
    }
}

/// What `POST /api/mesh/prepare` makes of its form.
pub open spec fn prepare_request(form: FormView) -> Result<PrepareView, ApiErrorView> {
    match form.upload("mesh"@) {
        Err(e) => Err(e),
        Ok(mesh) => match prep_of(form) {
            Err(e) => Err(e),
            Ok(prep) => match format_value("body"@, form.value_or("format"@, "obj"@)) {
                Err(e) => Err(e),
                Ok(format) => {
                    let suffix = files::suffix_of(mesh.filename);
                    if !files::is_mesh_suffix(suffix) {
                        Err(files::extension_reply())
                    } else {
                        match size_refusal(mesh) {
                            Some(e) => Err(e),
                            None => Ok(
                                PrepareView {
                                    mesh,
                                    suffix,
                                    prep,
                                    format,
                                    stem: files::stem_or(mesh.filename, "mesh"@),
                                },
                            ),
                        }
                    }
                },
            },
        },
    }
}

/// `POST /api/mesh/prepare`: form fields `mesh` (file),
/// `union_overlapping_bodies` (default true), `convex_hull` (default false)
/// and `format` (`obj`, default, or `stl`).
pub fn prepare(form: &Form) -> (res: Result<PrepareRequest<'_>, ApiError>)
    ensures
        match res {
            Ok(r) => prepare_request(form@) == Ok::<PrepareView, ApiErrorView>(r@),
            Err(e) => prepare_request(form@) == Err::<PrepareView, ApiErrorView>(e@),
        },
{
    let mesh = match form.file("mesh") {
        Ok(m) => m,
        Err(e) => return Err(e),
    };
    let prep = match read_prep(form) {
        Ok(p) => p,
        Err(e) => return Err(e),
    };
    let format = match parse_format("body", form.text_or("format", "obj")) {
        Ok(f) => f,
        Err(e) => return Err(e),
    };
    let suffix = files::file_suffix(upload_name(mesh));
    if !files::mesh_suffix(suffix.as_str()) {
        return Err(files::extension_error());
    }
    match check_size(mesh) {
        Ok(()) => {},
        Err(e) => return Err(e),
    }
    let stem = files::file_stem(upload_name(mesh), "mesh");
    Ok(PrepareRequest { mesh, suffix, prep, format, stem })
}

/// Every accepted pack request is within the limits of the API: an offered
/// preset, 1 to 200 spheres, 1 to 1000 iterations, and a mesh of an accepted
/// format and size.
pub proof fn accepted_packs_are_within_limits(form: FormView)
    ensures
        morph_request(form) matches Ok(r) ==> {
            &&& config::is_variant(r.params.variant)
            &&& 1 <= r.params.num_spheres <= 200
            &&& 1 <= r.params.iterations <= 1000
            &&& files::is_mesh_suffix(r.suffix)
            &&& r.mesh.data.len() <= files::MAX_OBJECT_MESH_BYTES
        },
{
}

/// A request to pack asks for what its form says, field by field, and for the defaults where
/// the form says nothing.
pub proof fn packs_are_asked_for_field_by_field(form: FormView, n: int, s: Seq<char>)
    ensures
        morph_request(form) matches Ok(m) ==> {
            &&& form.upload("mesh"@) == Ok::<UploadView, ApiErrorView>(m.mesh)
            &&& has_counts(form, m.params, n)
            &&& has_choices(form, m.params, s)
            &&& form.integer("seed"@) == Ok::<Option<int>, ApiErrorView>(m.params.seed)
            &&& form.value("base_color"@) == Some(s) ==> m.color == color::color_or_default(Some(s))
            &&& form.value("base_color"@) is None ==> m.color == (51int, 153int, 255int)
            &&& m.suffix == files::suffix_of(m.mesh.filename)
            &&& m.mesh.data.len() <= 104857600
            &&& m.mesh.filename is Some
            &&& paths::path_stem(m.mesh.filename->0) == Some(s) && s.len() > 0 ==> m.robot_name
                == files::attribute_text(s)
        },
{
    if morph_request(form) is Ok {
        lemma_default_color();
        let m = morph_request(form)->Ok_0;
        reveal_strlit(".obj");
        reveal_strlit(".stl");
        reveal_strlit(".ply");
        if m.mesh.filename is None {
            assert(m.suffix.len() == 0);
            assert(".obj"@.len() == 4 && ".stl"@.len() == 4 && ".ply"@.len() == 4);
        }
    }
}

proof fn lemma_default_color()
    ensures
        color::color_or_default(Some("#3399ff"@)) == (51int, 153int, 255int),
{
    reveal_strlit("#3399ff");
    let s = "#3399ff"@;
    let h = s.skip(1);
    assert(h.len() == 6);
    assert(h[0] == '3' && h[1] == '3' && h[2] == '9' && h[3] == '9' && h[4] == 'f' && h[5] == 'f');
    assert(color::hex_pair('3', '3') == Some(51int));
    assert(color::hex_pair('9', '9') == Some(153int));
    assert(color::hex_pair('f', 'f') == Some(255int));
}

/// Whether the counts are those of the form: 20 spheres and 200 iterations unless it gives
/// others.
pub open spec fn has_counts(form: FormView, p: ParamsView, n: int) -> bool {
    &&& form.value("num_spheres"@) is None ==> p.num_spheres == 20
    &&& form.integer("num_spheres"@) == Ok::<Option<int>, ApiErrorView>(Some(n)) && 0 <= n
        <= usize::MAX ==> p.num_spheres == n
    &&& form.value("iterations"@) is None ==> p.iterations == 200
    &&& form.integer("iterations"@) == Ok::<Option<int>, ApiErrorView>(Some(n)) && 0 <= n
        <= usize::MAX ==> p.iterations == n
}

/// Whether the variant, the preparation and the overrides are those of the form.
pub open spec fn has_choices(form: FormView, p: ParamsView, s: Seq<char>) -> bool {
    &&& form.value("variant"@) == Some(s) ==> p.variant == s
    &&& form.value("variant"@) is None ==> p.variant == "MorphIt-B"@
    &&& form.flag("union_overlapping_bodies"@, true) == Ok::<bool, ApiErrorView>(
        p.union_overlapping_bodies,
    )
    &&& form.flag("convex_hull"@, false) == Ok::<bool, ApiErrorView>(p.convex_hull)
    &&& form.value("advanced"@) == Some(s) ==> config::advanced(s) == Ok::<
        Seq<(Seq<char>, Seq<char>)>,
        ErrorView,
    >(p.advanced)
}

/// The parameters of a request that is accepted are those of its form.
pub proof fn finished_parameters_are_those_of_the_form(
    form: FormView,
    counts: CountsView,
    n: int,
    s: Seq<char>,
)
    requires
        counts_of(form) == Ok::<CountsView, ApiErrorView>(counts),
    ensures
        params_of(form, counts) matches Ok(p) ==> (finished_params(form, counts, p) matches Ok(q)
            ==> has_counts(form, q, n) && has_choices(form, q, s) && form.integer("seed"@) == Ok::<
            Option<int>,
            ApiErrorView,
        >(q.seed)),
{
}

/// A request to prepare a mesh asks for the flags and the format of its form.
pub proof fn preparations_are_asked_for_field_by_field(form: FormView, v: Seq<char>)
    ensures
        prepare_request(form) matches Ok(p) ==> {
            &&& form.upload("mesh"@) == Ok::<UploadView, ApiErrorView>(p.mesh)
            &&& form.flag("union_overlapping_bodies"@, true) == Ok::<bool, ApiErrorView>(
                p.prep.union_overlapping_bodies,
            )
            &&& form.flag("convex_hull"@, false) == Ok::<bool, ApiErrorView>(p.prep.convex_hull)
            &&& form.value("format"@) is None ==> p.format is Obj
            &&& form.value("format"@) == Some(v) ==> (p.format is Obj
                <==> numeral::ascii_lowercase(v) == seq!['o', 'b', 'j'])
            &&& form.value("format"@) == Some(v) ==> (p.format is Stl
                <==> numeral::ascii_lowercase(v) == seq!['s', 't', 'l'])
            &&& p.suffix == files::suffix_of(p.mesh.filename)
            &&& p.mesh.data.len() <= 104857600
        },
{
    formats_are_named_in_any_case("obj"@);
    formats_are_named_in_any_case(v);
    reveal_strlit("obj");
    assert("obj"@ =~= seq!['o', 'b', 'j']);
    assert(numeral::ascii_lowercase("obj"@) =~= seq!['o', 'b', 'j']);
}

/// A format is named by its extension, in any case of the letters; any other name is refused.
pub proof fn formats_are_named_in_any_case(v: Seq<char>)
    ensures
        ({
            let t = numeral::ascii_lowercase(v);
            &&& t == seq!['o', 'b', 'j'] <==> format_named(v) == Some(MeshFormat::Obj)
            &&& t == seq!['s', 't', 'l'] <==> format_named(v) == Some(MeshFormat::Stl)
            &&& format_named(v) is None ==> forall|loc: Seq<char>|
                (#[trigger] format_value(loc, v)) matches Err(e) && e.status == 422
        }),
{
    reveal_strlit("obj");
    reveal_strlit("stl");
    assert("obj"@ =~= seq!['o', 'b', 'j']);
    assert("stl"@ =~= seq!['s', 't', 'l']);
    assert(seq!['o', 'b', 'j'][0] == 'o' && seq!['s', 't', 'l'][0] == 's');
}

/// Spheres are scored against the mesh and the URDF of the form, prepared as it says.
pub proof fn scores_are_asked_for_field_by_field(form: FormView, urdf: Seq<char>)
    ensures
        score_request(form) matches Ok(q) ==> {
            &&& form.upload("mesh"@) == Ok::<UploadView, ApiErrorView>(q.mesh)
            &&& form.flag("union_overlapping_bodies"@, true) == Ok::<bool, ApiErrorView>(
                q.prep.union_overlapping_bodies,
            )
            &&& form.flag("convex_hull"@, false) == Ok::<bool, ApiErrorView>(q.prep.convex_hull)
            &&& form.value("urdf"@) == Some(urdf) ==> object_model::read_object(urdf) == Ok::<
                (TripleView, Seq<(TripleView, Seq<char>)>),
                ErrorView,
            >((q.centroid, q.spheres))
            &&& q.suffix == files::suffix_of(q.mesh.filename)
        },
{
}

/// Whether an upload can be packed: an `.obj`, `.stl` or `.ply` file of 100 MiB at most.
pub open spec fn is_fit(mesh: UploadView) -> bool {
    let s = files::suffix_of(mesh.filename);
    (s == ".obj"@ || s == ".stl"@ || s == ".ply"@) && mesh.data.len() <= 104857600
}

/// A mesh that is unfit is not packed.
pub proof fn unfit_meshes_are_not_packed(form: FormView, mesh: UploadView)
    requires
        form.upload("mesh"@) == Ok::<UploadView, ApiErrorView>(mesh),
        !is_fit(mesh),
    ensures
        morph_request(form) is Err,
{
}

/// A mesh that is unfit is not scored.
pub proof fn unfit_meshes_are_not_scored(form: FormView, mesh: UploadView)
    requires
        form.upload("mesh"@) == Ok::<UploadView, ApiErrorView>(mesh),
        !is_fit(mesh),
    ensures
        score_request(form) is Err,
{
}

/// A mesh is prepared where it is fit and the form names a preparation and a format that
/// there are.
pub proof fn fit_meshes_are_prepared(form: FormView, mesh: UploadView)
    requires
        form.upload("mesh"@) == Ok::<UploadView, ApiErrorView>(mesh),
    ensures
        prepare_request(form) is Ok <==> is_fit(mesh) && prep_of(form) is Ok && format_value(
            "body"@,
            form.value_or("format"@, "obj"@),
        ) is Ok,
{
}

} // verus!
