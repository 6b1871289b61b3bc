//! Stage 2 of the robot pipeline: what to pack, and the sphere JSON
//! `<output_dir>/spheres/<link>_<index>.json` that it is written to.

use vstd::prelude::*;

use crate::inspect;
use crate::config::{PackParams, Settings};
use crate::inspect::{Action, CollisionItem};
use crate::json;
use crate::numeral;
use crate::text;
use crate::{Error, ErrorView};

verus! {

/// `<output_dir>/spheres`.
pub fn spheres_dir(output_dir: &str) -> (out: String)
    ensures
        out@ == inspect::path_join(output_dir@, "spheres"@),
{
    inspect::join_path(output_dir, "spheres")
}

/// `<link>_<index>.json`.
pub open spec fn result_name(link: Seq<char>, index: nat) -> Seq<char> {
    link + "_"@ + text::decimal(index) + ".json"@
}

/// `<link>_<index>.json`.
pub fn json_filename(link_name: &str, collision_index: usize) -> (out: String)
    ensures
        out@ == result_name(link_name@, collision_index as nat),
{
    let mut out = String::from_str(link_name);
    out.append("_");
    text::push_decimal(&mut out, collision_index);
    out.append(".json");
    out
}

/// `link[index]`.
pub open spec fn item_label(link: Seq<char>, index: nat) -> Seq<char> {
    link + "["@ + text::decimal(index) + "]"@
}

/// The mesh path of a `pack` item; why not, for any other item.
pub open spec fn mesh_to_pack(item: inspect::ItemView) -> Result<Seq<char>, ErrorView> {
    let label = item_label(item.link_name, item.collision_index as nat);
    if !(item.action is Pack) {
        Err(ErrorView::Invalid("pack_one_link called on non-PACK item: "@ + label))
    } else {
        match item.mesh_path {
            Some(p) => Ok(p),
            None => Err(
                ErrorView::Invalid(
                    "pack_one_link called on item with no resolved mesh_path: "@ + label,
                ),
            ),
        }
    }
}

/// The mesh path of a `pack` item; errors for any other item. Packing uses
/// unscaled mesh coordinates, whatever scale the URDF gives the mesh.
pub fn pack_mesh_path(item: &CollisionItem) -> (res: Result<String, Error>)
    ensures
        match res {
            Ok(p) => mesh_to_pack(item@) == Ok::<Seq<char>, ErrorView>(p@),
            Err(e) => mesh_to_pack(item@) == Err::<Seq<char>, ErrorView>(e@),
        },
{
    let mut label = item.link_name.clone();
    label.append("[");
    text::push_decimal(&mut label, item.collision_index);
    label.append("]");
    if item.action != Action::Pack {
        let mut m = String::from_str("pack_one_link called on non-PACK item: ");
        m.append(label.as_str());
        return Err(Error::Invalid(m));
    }
    match &item.mesh_path {
        Some(p) => Ok(p.clone()),
        None => {
            let mut m = String::from_str(
                "pack_one_link called on item with no resolved mesh_path: ",
            );
            m.append(label.as_str());
            Err(Error::Invalid(m))
        },
    }
}

/// How a mesh is prepared before packing.
#[derive(Clone, Copy, Debug, PartialEq, Eq, Structural)]
pub struct MeshPrep {
    /// Merge overlapping closed bodies into their union.
    pub union_overlapping_bodies: bool,
    /// Replace each body by its convex hull.
    pub convex_hull: bool,
}

/// `flag`, or `default` when it is absent.
pub open spec fn flag_or(flag: Option<bool>, default: bool) -> bool {
    match flag {
        Some(b) => b,
        None => default,
    }
}

/// The preparation that the two flags of a result ask for: the union unless it
/// is switched off, hulls only when they are switched on.
pub fn mesh_prep_of(union_flag: Option<bool>, hull_flag: Option<bool>) -> (out: MeshPrep)
    ensures
        out.union_overlapping_bodies == flag_or(union_flag, true),
        out.convex_hull == flag_or(hull_flag, false),
{
    MeshPrep {
        union_overlapping_bodies: match union_flag {
            Some(b) => b,
            None => true,
        },
        convex_hull: match hull_flag {
            Some(b) => b,
            None => false,
        },
    }
}

/// The mesh preparation the result JSON `text` (a saved pack result) was
/// packed with: `config.model.union_overlapping_bodies` (true when absent)
/// and `config.model.convex_hull` (false when absent). Quality metrics must
/// use the same mesh.
pub fn result_mesh_prep(text: &str) -> (out: MeshPrep)
    ensures
        out.union_overlapping_bodies == flag_or(
            json::json_bool(text@, "/config/model/union_overlapping_bodies"@),
            true,
        ),
        out.convex_hull == flag_or(json::json_bool(text@, "/config/model/convex_hull"@), false),
{
    mesh_prep_of(
        json::bool_at(text, "/config/model/union_overlapping_bodies"),
        json::bool_at(text, "/config/model/convex_hull"),
    )
}

/// The optimizer's settings for packing `item`, whose result is saved as
/// `<results_dir>/<link>_<index>.json`, and that file name.
pub fn link_config(
    item: &CollisionItem,
    params: &PackParams,
    device: &str,
    results_dir: &str,
) -> (out: (Settings, String))
    ensures
        out.1@ == result_name(item@.link_name, item@.collision_index as nat),
        out.0.output_filename@ == out.1@,
        out.0.is_for(params@, device@, results_dir@),
{
    let name = json_filename(item.link_name.as_str(), item.collision_index);
    let settings = params.config(device, results_dir, name.as_str());
    (settings, name)
}

/// What packing one link reports.
#[derive(Debug)]
pub struct PackLinkOutcome {
    pub link_name: String,
    pub collision_index: usize,
    /// The requested sphere count.
    pub num_spheres: usize,
    pub json_path: String,
    /// The time it took, in nanoseconds.
    pub elapsed: u128,
}

/// What to do to pack one link.
#[derive(Debug)]
pub struct PackPlan {
    pub mesh_path: String,
    /// The directory of the result, to be created.
    pub results_dir: String,
    pub settings: Settings,
    /// Where the result is saved.
    pub json_path: String,
}

/// Plan the packing of one `pack` item into `output_dir`; errors for any other
/// item.
pub fn plan_link(
    item: &CollisionItem,
    params: &PackParams,
    device: &str,
    output_dir: &str,
) -> (res: Result<PackPlan, Error>)
    ensures
        match res {
            Ok(p) => {
                &&& mesh_to_pack(item@) == Ok::<Seq<char>, ErrorView>(p.mesh_path@)
                &&& p.results_dir@ == inspect::path_join(output_dir@, "spheres"@)
                &&& p.settings.output_filename@ == result_name(
                    item@.link_name,
                    item@.collision_index as nat,
                )
                &&& p.settings.is_for(params@, device@, p.results_dir@)
                &&& p.json_path@ == inspect::path_join(
                    p.results_dir@,
                    result_name(item@.link_name, item@.collision_index as nat),
                )
            },
            Err(e) => mesh_to_pack(item@) == Err::<Seq<char>, ErrorView>(e@),
        },
{
    let mesh_path = match pack_mesh_path(item) {
        Ok(p) => p,
        Err(e) => return Err(e),
    };
    let results_dir = spheres_dir(output_dir);
    let (settings, name) = link_config(item, params, device, results_dir.as_str());
    let json_path = inspect::join_path(results_dir.as_str(), name.as_str());
    Ok(PackPlan { mesh_path, results_dir, settings, json_path })
}

/// The report on a link that was packed as planned.
pub fn link_outcome(
    item: &CollisionItem,
    params: &PackParams,
    plan: &PackPlan,
    elapsed: u128,
) -> (out: PackLinkOutcome)
    ensures
        out.link_name@ == item@.link_name,
        out.collision_index == item@.collision_index,
        out.num_spheres == params.num_spheres,
        out.json_path@ == plan.json_path@,
        out.elapsed == elapsed,
{
    PackLinkOutcome {
        link_name: item.link_name.clone(),
        collision_index: item.collision_index,
        num_spheres: params.num_spheres,
        json_path: plan.json_path.clone(),
        elapsed,
    }
}

/// The results of different collisions of a link have different file names.
pub proof fn results_of_a_link_have_different_names(link: Seq<char>, a: nat, b: nat)
    requires
        a != b,
    ensures
        result_name(link, a) != result_name(link, b),
        item_label(link, a) != item_label(link, b),
{
    let l = link.len() as int;
    reveal_strlit("_");
    reveal_strlit(".json");
    reveal_strlit("[");
    reveal_strlit("]");
    if result_name(link, a) == result_name(link, b) {
        let x = result_name(link, a);
        assert(x.subrange(l + 1, x.len() - 5) =~= text::decimal(a));
        assert(result_name(link, b).subrange(l + 1, x.len() - 5) =~= text::decimal(b));
        numeral::written_numbers_are_read_back(a);
        numeral::written_numbers_are_read_back(b);
    }
    if item_label(link, a) == item_label(link, b) {
        let x = item_label(link, a);
        assert(x.subrange(l + 1, x.len() - 1) =~= text::decimal(a));
        assert(item_label(link, b).subrange(l + 1, x.len() - 1) =~= text::decimal(b));
        numeral::written_numbers_are_read_back(a);
        numeral::written_numbers_are_read_back(b);
    }
}

/// A result is named after its link and the place of its collision in it.
pub proof fn results_are_named_after_their_link(link: Seq<char>, index: nat)
    ensures
        text::begins(result_name(link, index), link + seq!['_'] + text::decimal(index)),
        text::ends(result_name(link, index), seq!['.', 'j', 's', 'o', 'n']),
        result_name(link, index).len() == link.len() + text::decimal(index).len() + 6,
        item_label(link, index) == link + seq!['['] + text::decimal(index) + seq![']'],
{
    reveal_strlit("_");
    reveal_strlit(".json");
    reveal_strlit("[");
    reveal_strlit("]");
    let x = result_name(link, index);
    let front = link + seq!['_'] + text::decimal(index);
    assert(x.subrange(0, front.len() as int) =~= front);
    assert(x.subrange(x.len() - 5, x.len() as int) =~= seq!['.', 'j', 's', 'o', 'n']);
    assert(item_label(link, index) =~= link + seq!['['] + text::decimal(index) + seq![']']);
}

/// What is packed is the mesh of the item, and only for an item that is to be packed.
pub proof fn only_found_meshes_are_packed(item: inspect::ItemView)
    ensures
        mesh_to_pack(item) is Ok <==> item.action is Pack && item.mesh_path is Some,
        mesh_to_pack(item) matches Ok(p) ==> item.mesh_path == Some(p),
{
}

} // verus!
