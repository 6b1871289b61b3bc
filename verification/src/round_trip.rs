//! What is read back from an object URDF is what was written into it.

use vstd::prelude::*;

use crate::markup;
use crate::numeral;
use crate::numeral::TripleView;
use crate::object_document;
use crate::object_model;
use crate::object_model::{ObjectPartsView, ObjectSphereView};
use crate::text;
use crate::xml;
use crate::xml::NodeView;
use crate::ErrorView;

verus! {

/// Different numbers have different digits.
proof fn lemma_decimal_injective(a: nat, b: nat)
    requires
        text::decimal(a) == text::decimal(b),
    ensures
        a == b,
    decreases a,
{
    lemma_decimal_nonempty(a);
    lemma_decimal_nonempty(b);
    let d = text::decimal(a);
    if a < 10 && b < 10 {
        assert(d.last() == text::digit(a) && d.last() == text::digit(b));
    } else if a < 10 {
        lemma_decimal_nonempty(b / 10);
        assert(text::decimal(b).len() > 1);
    } else if b < 10 {
        lemma_decimal_nonempty(a / 10);
        assert(text::decimal(a).len() > 1);
    } else {
        assert(text::decimal(a).drop_last() =~= text::decimal(a / 10));
        assert(text::decimal(b).drop_last() =~= text::decimal(b / 10));
        lemma_decimal_injective(a / 10, b / 10);
        assert(d.last() == text::digit(a % 10) && d.last() == text::digit(b % 10));
    }
}

proof fn lemma_decimal_nonempty(a: nat)
    ensures
        text::decimal(a).len() > 0,
{
}

/// Different spheres have different names, and none is called `base`.
proof fn lemma_names_differ(i: int, j: int)
    requires
        0 <= i,
        0 <= j,
        i != j,
    ensures
        object_model::sphere_id(i) != object_model::sphere_id(j),
{
    let a = object_model::sphere_id(i);
    let b = object_model::sphere_id(j);
    if a == b {
        let n = "sphere_"@.len() as int;
        assert(a.skip(n) =~= text::decimal(i as nat));
        assert(b.skip(n) =~= text::decimal(j as nat));
        lemma_decimal_injective(i as nat, j as nat);
    }
}

proof fn lemma_no_sphere_is_base(i: int)
    requires
        0 <= i,
    ensures
        object_model::sphere_id(i) != "base"@,
{
    reveal_strlit("sphere_");
    reveal_strlit("base");
    assert(object_model::sphere_id(i)[0] == 's');
}

/// Whether the link element at `link` is that of sphere `i`.
pub open spec fn link_holds(nodes: Seq<NodeView>, link: int, s: ObjectSphereView, i: int) -> bool {
    &&& xml::attribute_of(nodes[link], "name"@) == Some(object_model::sphere_id(i))
    &&& object_model::sphere_of_link(nodes, link) matches Some(n)
    &&& xml::attribute_of(nodes[n], "radius"@) == Some(s.radius)
}

/// Whether the joint element at `joint` holds sphere `i`.
pub open spec fn joint_holds(nodes: Seq<NodeView>, joint: int, s: ObjectSphereView, i: int) -> bool {
    &&& xml::child_of(nodes, joint, "child"@) matches Some(c)
    &&& xml::attribute_of(nodes[c], "link"@) == Some(object_model::sphere_id(i))
    &&& xml::child_of(nodes, joint, "origin"@) matches Some(o)
    &&& xml::attribute_of(nodes[o], "xyz"@) == Some(s.center.spaced())
}

/// How many links come before those of the spheres: the base, and the world of
/// an anchored object.
pub open spec fn first_links(p: ObjectPartsView) -> int {
    if p.anchored {
        2
    } else {
        1
    }
}

/// How many joints come before those of the spheres: the weld of an anchored
/// object.
pub open spec fn first_joints(p: ObjectPartsView) -> int {
    if p.anchored {
        1
    } else {
        0
    }
}

/// Whether the document `nodes` holds the links and joints that are written
/// for `p`, in their order.
pub open spec fn describes(nodes: Seq<NodeView>, p: ObjectPartsView) -> bool {
    xml::root_of(nodes) matches Some(root) && {
        let links = xml::children_of(nodes, root, "link"@);
        let joints = xml::children_of(nodes, root, "joint"@);
        let n = p.spheres.len();
        let l = first_links(p);
        let j = first_joints(p);
        &&& links.len() == l + n
        &&& forall|i: int|
            0 <= i < l ==> object_model::sphere_of_link(nodes, #[trigger] links[i]) is None
        &&& forall|i: int|
            l <= i < l + n ==> link_holds(nodes, #[trigger] links[i], p.spheres[i - l], i - l)
        &&& joints.len() == j + n
        &&& p.anchored ==> (xml::child_of(nodes, joints[0], "child"@) matches Some(c)
            && xml::attribute_of(nodes[c], "link"@) == Some("base"@))
        &&& forall|i: int|
            j <= i < j + n ==> joint_holds(nodes, #[trigger] joints[i], p.spheres[i - j], i - j)
    }
}

/// Whether the radii and centers are numbers.
pub open spec fn has_numbers(spheres: Seq<ObjectSphereView>) -> bool {
    forall|i: int|
        0 <= i < spheres.len() ==> {
            let s = #[trigger] spheres[i];
            numeral::is_number(s.radius) && numeral::is_number(s.center.x) && numeral::is_number(
                s.center.y,
            ) && numeral::is_number(s.center.z)
        }
}

/// The names and radii of the first `k` spheres.
spec fn named_radii(spheres: Seq<ObjectSphereView>, k: int) -> Seq<(Seq<char>, Seq<char>)> {
    Seq::new(
        if k > 0 {
            k as nat
        } else {
            0
        },
        |i: int| (object_model::sphere_id(i), spheres[i].radius),
    )
}

/// The centers and radii of the spheres, as they are read back.
pub open spec fn placed(spheres: Seq<ObjectSphereView>) -> Seq<(TripleView, Seq<char>)> {
    spheres.map_values(|s: ObjectSphereView| (s.center, s.radius))
}

proof fn lemma_links_read(nodes: Seq<NodeView>, p: ObjectPartsView, k: int)
    requires
        describes(nodes, p),
        has_numbers(p.spheres),
        0 <= k <= first_links(p) + p.spheres.len(),
    ensures
        object_model::link_radii(
            nodes,
            xml::children_of(nodes, xml::root_of(nodes)->0, "link"@).take(k),
        ) == Ok::<Seq<(Seq<char>, Seq<char>)>, ErrorView>(
            named_radii(p.spheres, k - first_links(p)),
        ),
    decreases k,
{
    let links = xml::children_of(nodes, xml::root_of(nodes)->0, "link"@);
    let l = first_links(p);
    if k == 0 {
        assert(links.take(0) =~= Seq::empty());
        assert(named_radii(p.spheres, -l) =~= Seq::empty());
    } else {
        lemma_links_read(nodes, p, k - 1);
        assert(links.take(k).drop_last() =~= links.take(k - 1));
        assert(links.take(k).last() == links[k - 1]);
        if k - 1 < l {
            assert(object_model::sphere_of_link(nodes, links[k - 1]) is None);
            assert(named_radii(p.spheres, k - 1 - l) =~= named_radii(p.spheres, k - l));
        } else {
            let i = k - 1 - l;
            assert(link_holds(nodes, links[k - 1], p.spheres[i], i));
            numeral::lemma_number_is_word(p.spheres[i].radius);
            numeral::lemma_trim_word(p.spheres[i].radius);
            assert(named_radii(p.spheres, i).push(
                (object_model::sphere_id(i), p.spheres[i].radius),
            ) =~= named_radii(p.spheres, i + 1));
        }
    }
}

/// The radius of a sphere is found under its name.
proof fn lemma_radius_found(spheres: Seq<ObjectSphereView>, i: int, n: int)
    requires
        0 <= i < n <= spheres.len(),
    ensures
        object_model::radius_named(
            named_radii(spheres, spheres.len() as int),
            object_model::sphere_id(i),
            n,
        ) == Some(spheres[i].radius),
    decreases n,
{
    if i < n - 1 {
        lemma_names_differ(i, n - 1);
        lemma_radius_found(spheres, i, n - 1);
    }
}

proof fn lemma_base_has_no_radius(spheres: Seq<ObjectSphereView>, n: int)
    requires
        0 <= n <= spheres.len(),
    ensures
        object_model::radius_named(named_radii(spheres, spheres.len() as int), "base"@, n) is None,
    decreases n,
{
    if n > 0 {
        lemma_no_sphere_is_base(n - 1);
        lemma_base_has_no_radius(spheres, n - 1);
    }
}

proof fn lemma_joints_read(nodes: Seq<NodeView>, p: ObjectPartsView, k: int)
    requires
        describes(nodes, p),
        has_numbers(p.spheres),
        0 <= k <= first_joints(p) + p.spheres.len(),
    ensures
        object_model::joint_spheres(
            nodes,
            named_radii(p.spheres, p.spheres.len() as int),
            xml::children_of(nodes, xml::root_of(nodes)->0, "joint"@).take(k),
        ) == Ok::<Seq<(TripleView, Seq<char>)>, ErrorView>(
            placed(
                p.spheres.take(
                    if k > first_joints(p) {
                        k - first_joints(p)
                    } else {
                        0
                    },
                ),
            ),
        ),
    decreases k,
{
    let joints = xml::children_of(nodes, xml::root_of(nodes)->0, "joint"@);
    let j = first_joints(p);
    let n = p.spheres.len() as int;
    if k == 0 {
        assert(joints.take(0) =~= Seq::empty());
        assert(placed(p.spheres.take(0)) =~= Seq::empty());
    } else {
        lemma_joints_read(nodes, p, k - 1);
        assert(joints.take(k).drop_last() =~= joints.take(k - 1));
        assert(joints.take(k).last() == joints[k - 1]);
        if k - 1 < j {
            lemma_base_has_no_radius(p.spheres, n);
            assert(named_radii(p.spheres, n).len() == n);
        } else {
            let i = k - 1 - j;
            assert(joint_holds(nodes, joints[k - 1], p.spheres[i], i));
            lemma_radius_found(p.spheres, i, n);
            assert(named_radii(p.spheres, n).len() == n);
            numeral::lemma_three_numbers(p.spheres[i].center);
            assert(placed(p.spheres.take(i)).push((p.spheres[i].center, p.spheres[i].radius))
                =~= placed(p.spheres.take(i + 1)));
        }
    }
}

/// A document that holds what is written for an object gives its spheres back:
/// every center and every radius, in their order.
pub proof fn written_spheres_are_read_back(nodes: Seq<NodeView>, p: ObjectPartsView)
    requires
        describes(nodes, p),
        has_numbers(p.spheres),
        p.spheres.len() > 0,
    ensures
        object_model::spheres_of(nodes) == Ok::<Seq<(TripleView, Seq<char>)>, ErrorView>(
            placed(p.spheres),
        ),
{
    let root = xml::root_of(nodes)->0;
    let links = xml::children_of(nodes, root, "link"@);
    let joints = xml::children_of(nodes, root, "joint"@);
    lemma_links_read(nodes, p, links.len() as int);
    lemma_joints_read(nodes, p, joints.len() as int);
    assert(links.take(links.len() as int) =~= links);
    assert(joints.take(joints.len() as int) =~= joints);
    assert(p.spheres.take(p.spheres.len() as int) =~= p.spheres);
}

/// The document that is written for an object holds its links and joints.
proof fn lemma_describes(nodes: Seq<NodeView>, p: ObjectPartsView)
    requires
        markup::holds_document(nodes, object_document::object_root(p)),
    ensures
        describes(nodes, p),
{
    let root = object_document::object_root(p);
    let items = object_model::recorded_items(p);
    let h = object_document::body_start(p);
    let n = p.spheres.len() as int;
    let l = first_links(p);
    let j = first_joints(p);
    reveal_strlit("robot");
    markup::lemma_root(nodes, root);
    object_document::lemma_links(nodes, p);
    object_document::lemma_joints(nodes, p);
    object_document::lemma_recorded_items(p);
    let links = xml::children_of(nodes, 1, "link"@);
    let joints = xml::children_of(nodes, 1, "joint"@);
    let ls = object_document::link_places(p);
    let js = object_document::joint_places(p);
    assert forall|i: int| 0 <= i < l implies object_model::sphere_of_link(
        nodes,
        #[trigger] links[i],
    ) is None by {
        assert(markup::stands_at(nodes, items[ls[i]], 1, links[i]));
        if p.anchored && i == 0 {
            object_document::lemma_world_has_no_sphere(nodes, 1, links[i]);
        } else {
            object_document::lemma_base_has_no_sphere(nodes, p, 1, links[i]);
        }
    }
    assert forall|i: int| l <= i < l + n implies link_holds(
        nodes,
        #[trigger] links[i],
        p.spheres[i - l],
        i - l,
    ) by {
        assert(markup::stands_at(nodes, items[ls[i]], 1, links[i]));
        assert(ls[i] == h + 4 * (i - l) + 1);
        object_document::lemma_sphere_places(p, i - l);
        object_document::lemma_link_of_sphere(nodes, p.spheres[i - l], i - l, 1, links[i]);
    }
    if p.anchored {
        assert(markup::stands_at(nodes, items[js[0]], 1, joints[0]));
        object_document::lemma_joint(
            nodes,
            "world_to_base"@,
            "world"@,
            "base"@,
            p.centroid.spaced(),
            1,
            joints[0],
        );
    }
    assert forall|i: int| j <= i < j + n implies joint_holds(
        nodes,
        #[trigger] joints[i],
        p.spheres[i - j],
        i - j,
    ) by {
        let s = p.spheres[i - j];
        assert(markup::stands_at(nodes, items[js[i]], 1, joints[i]));
        assert(js[i] == h + 4 * (i - j) + 3);
        object_document::lemma_sphere_places(p, i - j);
        object_document::lemma_joint(
            nodes,
            object_model::sphere_id(i - j) + "_fixed"@,
            "base"@,
            object_model::sphere_id(i - j),
            s.center.spaced(),
            1,
            joints[i],
        );
    }
}

/// The URDF that is written for an object.
pub open spec fn written(p: ObjectPartsView) -> Seq<char> {
    object_model::with_centroid(object_model::plain_urdf(p), p.centroid_comment)
}

/// Whether an object can be read back: it has spheres, its radii, centers and
/// centroid are numbers, and its other texts stand for themselves.
pub open spec fn is_readable(p: ObjectPartsView) -> bool {
    &&& p.spheres.len() > 0
    &&& has_numbers(p.spheres)
    &&& object_model::is_comment_number(p.centroid_comment.x)
    &&& object_model::is_comment_number(p.centroid_comment.y)
    &&& object_model::is_comment_number(p.centroid_comment.z)
    &&& object_document::is_plain_object(p)
}

/// What is read from the URDF that was written for an object, given the nodes that a
/// parser finds in it: the centroid and the spheres of that object, in their order.
pub proof fn a_written_object_is_read_back(p: ObjectPartsView, nodes: Option<Seq<NodeView>>)
    requires
        is_readable(p),
        written(p).len() < u32::MAX,
        xml::reads_plain_documents(written(p), nodes),
    ensures
        object_model::recorded_centroid(written(p), 0) == Some(p.centroid_comment),
        nodes matches Some(n) && object_model::spheres_of(n) == Ok::<
            Seq<(TripleView, Seq<char>)>,
            ErrorView,
        >(placed(p.spheres)),
{
    let root = object_document::object_root(p);
    assert(!p.robot_name.contains('<')) by {
        if p.robot_name.contains('<') {
            let i = choose|i: int| 0 <= i < p.robot_name.len() && p.robot_name[i] == '<';
            assert(p.robot_name[i] != '<');
        }
    }
    object_model::lemma_written_document(p);
    object_model::lemma_written_centroid(p);
    object_document::lemma_plain_document(p);
    assert(markup::is_plain(root));
    lemma_describes(nodes->0, p);
    written_spheres_are_read_back(nodes->0, p);
}

} // verus!
