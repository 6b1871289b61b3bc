//! What the links and joints of an object's URDF say: shapes, masses, inertias and where
//! the links are held.

use vstd::prelude::*;

use crate::markup;
use crate::markup::Item;
use crate::numeral::TripleView;
use crate::object_document;
use crate::object_model;
use crate::object_model::{ObjectPartsView, ObjectSphereView};
use crate::round_trip;
use crate::text;
use crate::xml;
use crate::xml::NodeView;

verus! {

/// Whether the node `at` holds a `tag` element with the attribute `name` set to `value`.
pub open spec fn holds_value(
    nodes: Seq<NodeView>,
    at: int,
    tag: Seq<char>,
    name: Seq<char>,
    value: Seq<char>,
) -> bool {
    xml::child_of(nodes, at, tag) matches Some(c) && xml::attribute_of(nodes[c], name) == Some(
        value,
    )
}

/// Whether the link at `at` has the mass, and the same moment of inertia about every axis.
pub open spec fn has_mass(nodes: Seq<NodeView>, at: int, mass: Seq<char>, moment: Seq<char>) -> bool {
    &&& xml::child_of(nodes, at, "inertial"@) matches Some(i)
    &&& holds_value(nodes, i, "mass"@, "value"@, mass)
    &&& holds_value(nodes, i, "inertia"@, "ixx"@, moment)
    &&& holds_value(nodes, i, "inertia"@, "iyy"@, moment)
    &&& holds_value(nodes, i, "inertia"@, "izz"@, moment)
    &&& holds_value(nodes, i, "inertia"@, "ixy"@, "0.0"@)
    &&& holds_value(nodes, i, "inertia"@, "ixz"@, "0.0"@)
    &&& holds_value(nodes, i, "inertia"@, "iyz"@, "0.0"@)
}

/// Whether the `tag` element of the link at `at` is a sphere of the radius in its middle.
pub open spec fn has_sphere(nodes: Seq<NodeView>, at: int, tag: Seq<char>, radius: Seq<char>) -> bool {
    &&& xml::child_of(nodes, at, tag) matches Some(v)
    &&& holds_value(nodes, v, "origin"@, "xyz"@, "0 0 0"@)
    &&& xml::child_of(nodes, v, "geometry"@) matches Some(g)
    &&& holds_value(nodes, g, "sphere"@, "radius"@, radius)
}

/// Whether the joint at `at` holds `child` on `parent`, at `xyz` and not rotated.
pub open spec fn holds_fixed(
    nodes: Seq<NodeView>,
    at: int,
    parent: Seq<char>,
    child: Seq<char>,
    xyz: TripleView,
) -> bool {
    &&& xml::attribute_of(nodes[at], "type"@) == Some("fixed"@)
    &&& holds_value(nodes, at, "parent"@, "link"@, parent)
    &&& holds_value(nodes, at, "child"@, "link"@, child)
    &&& holds_value(nodes, at, "origin"@, "xyz"@, xyz.x + " "@ + xyz.y + " "@ + xyz.z)
    &&& holds_value(nodes, at, "origin"@, "rpy"@, "0 0 0"@)
}

/// Whether the nodes are those of the object's URDF: its color, a `base` link with its mass,
/// a `world` link that holds the base where it is anchored, and for every sphere a link of
/// its shape and mass that a joint holds at its center.
pub open spec fn is_object(nodes: Seq<NodeView>, p: ObjectPartsView) -> bool {
    &&& xml::root_of(nodes) matches Some(root)
    &&& nodes[root].name == "robot"@
    &&& xml::attribute_of(nodes[root], "name"@) == Some(p.robot_name)
    &&& xml::child_of(nodes, root, "material"@) matches Some(m)
    &&& xml::attribute_of(nodes[m], "name"@) == Some("default_color"@)
    &&& holds_value(nodes, m, "color"@, "rgba"@, p.rgba)
    &&& {
        let links = xml::children_of(nodes, root, "link"@);
        let joints = xml::children_of(nodes, root, "joint"@);
        let n = p.spheres.len();
        let l: int = if p.anchored {
            2
        } else {
            1
        };
        &&& links.len() == l + n
        &&& joints.len() == l - 1 + n
        &&& xml::attribute_of(nodes[links[l - 1]], "name"@) == Some("base"@)
        &&& has_mass(nodes, links[l - 1], p.base_mass, p.base_inertia)
        &&& p.anchored ==> xml::attribute_of(nodes[links[0]], "name"@) == Some("world"@)
            && holds_fixed(nodes, joints[0], "world"@, "base"@, p.centroid)
        &&& forall|i: int| 0 <= i < n ==> #[trigger] sphere_is_held(nodes, links, joints, l, i, p)
    }
}

/// Whether the link and the joint of sphere `i` say what the sphere is.
pub open spec fn sphere_is_held(
    nodes: Seq<NodeView>,
    links: Seq<int>,
    joints: Seq<int>,
    l: int,
    i: int,
    p: ObjectPartsView,
) -> bool {
    let s = p.spheres[i];
    let name = "sphere_"@ + text::decimal(i as nat);
    &&& xml::attribute_of(nodes[links[l + i]], "name"@) == Some(name)
    &&& has_sphere(nodes, links[l + i], "visual"@, s.radius)
    &&& has_sphere(nodes, links[l + i], "collision"@, s.radius)
    &&& has_mass(nodes, links[l + i], s.mass, s.inertia)
    &&& holds_fixed(nodes, joints[l - 1 + i], "base"@, name, s.center)
}

proof fn lemma_names()
    ensures
        "visual"@.len() > 0,
        "inertial"@.len() > 0,
        "mass"@.len() > 0,
        "inertia"@.len() > 0,
        "material"@.len() > 0,
        "color"@.len() > 0,
        "parent"@.len() > 0,
        "visual"@ != "collision"@,
        "visual"@ != "inertial"@,
        "collision"@ != "inertial"@,
        "mass"@ != "inertia"@,
        "parent"@ != "child"@,
        "parent"@ != "origin"@,
        "child"@ != "origin"@,
        "geometry"@ != "material"@,
        "geometry"@ != "origin"@,
        "material"@ != "origin"@,
        "material"@ != "link"@,
        "material"@ != "joint"@,
        "xyz"@ != "rpy"@,
        "name"@ != "type"@,
        "ixx"@ != "ixy"@,
        "ixx"@ != "ixz"@,
        "ixx"@ != "iyy"@,
        "ixx"@ != "iyz"@,
        "ixx"@ != "izz"@,
        "ixy"@ != "ixz"@,
        "ixy"@ != "iyy"@,
        "ixy"@ != "iyz"@,
        "ixy"@ != "izz"@,
        "ixz"@ != "iyy"@,
        "ixz"@ != "iyz"@,
        "ixz"@ != "izz"@,
        "iyy"@ != "iyz"@,
        "iyy"@ != "izz"@,
        "iyz"@ != "izz"@,
{
    reveal_strlit("visual");
    reveal_strlit("collision");
    reveal_strlit("inertial");
    reveal_strlit("mass");
    reveal_strlit("inertia");
    reveal_strlit("material");
    reveal_strlit("color");
    reveal_strlit("parent");
    reveal_strlit("child");
    reveal_strlit("origin");
    reveal_strlit("geometry");
    reveal_strlit("link");
    reveal_strlit("joint");
    reveal_strlit("xyz");
    reveal_strlit("rpy");
    reveal_strlit("name");
    reveal_strlit("type");
    reveal_strlit("ixx");
    reveal_strlit("ixy");
    reveal_strlit("ixz");
    reveal_strlit("iyy");
    reveal_strlit("iyz");
    reveal_strlit("izz");
    assert("visual"@[0] == 'v' && "collision"@[0] == 'c' && "inertial"@[0] == 'i');
    assert("mass"@[0] == 'm' && "inertia"@[0] == 'i');
    assert("parent"@[0] == 'p' && "child"@[0] == 'c' && "origin"@[0] == 'o');
    assert("geometry"@[0] == 'g' && "material"@[0] == 'm' && "link"@[0] == 'l' && "joint"@[0]
        == 'j');
    assert("xyz"@[0] == 'x' && "rpy"@[0] == 'r' && "name"@[0] == 'n' && "type"@[0] == 't');
    assert("ixx"@[1] == 'x' && "ixx"@[2] == 'x');
    assert("ixy"@[1] == 'x' && "ixy"@[2] == 'y');
    assert("ixz"@[1] == 'x' && "ixz"@[2] == 'z');
    assert("iyy"@[1] == 'y' && "iyy"@[2] == 'y');
    assert("iyz"@[1] == 'y' && "iyz"@[2] == 'z');
    assert("izz"@[1] == 'z' && "izz"@[2] == 'z');
}

proof fn lemma_inertia(nodes: Seq<NodeView>, v: Seq<char>, parent: int, at: int)
    requires
        markup::stands_at(nodes, object_model::inertia_item(v), parent, at),
    ensures
        xml::attribute_of(nodes[at], "ixx"@) == Some(v),
        xml::attribute_of(nodes[at], "iyy"@) == Some(v),
        xml::attribute_of(nodes[at], "izz"@) == Some(v),
        xml::attribute_of(nodes[at], "ixy"@) == Some("0.0"@),
        xml::attribute_of(nodes[at], "ixz"@) == Some("0.0"@),
        xml::attribute_of(nodes[at], "iyz"@) == Some("0.0"@),
{
    lemma_names();
    let a = nodes[at].attributes;
    assert(a.len() == 6);
    assert(a[0].0 == "ixx"@ && a[1].0 == "ixy"@ && a[2].0 == "ixz"@ && a[3].0 == "iyy"@ && a[4].0
        == "iyz"@ && a[5].0 == "izz"@);
    xml::attributes_are_found_by_name(nodes[at], "ixx"@, 0);
    xml::attributes_are_found_by_name(nodes[at], "ixy"@, 1);
    xml::attributes_are_found_by_name(nodes[at], "ixz"@, 2);
    xml::attributes_are_found_by_name(nodes[at], "iyy"@, 3);
    xml::attributes_are_found_by_name(nodes[at], "iyz"@, 4);
    xml::attributes_are_found_by_name(nodes[at], "izz"@, 5);
}

proof fn lemma_inertial(
    nodes: Seq<NodeView>,
    mass: Seq<char>,
    moment: Seq<char>,
    parent: int,
    at: int,
)
    requires
        markup::stands_at(nodes, object_model::inertial_item(mass, moment), parent, at),
    ensures
        holds_value(nodes, at, "mass"@, "value"@, mass),
        xml::child_of(nodes, at, "inertia"@) matches Some(i) && markup::stands_at(
            nodes,
            object_model::inertia_item(moment),
            at,
            i,
        ),
{
    lemma_names();
    let none = Seq::<(Seq<char>, Seq<char>)>::empty();
    let items = seq![
        object_model::gap3(),
        object_model::leaf("mass"@, "value"@, mass),
        object_model::gap3(),
        object_model::inertia_item(moment),
        object_model::gap2(),
    ];
    let m = object_document::lemma_one_child(
        nodes,
        "inertial"@,
        none,
        items,
        parent,
        at,
        "mass"@,
        1,
    );
    object_document::lemma_leaf_value(nodes, "mass"@, "value"@, mass, at, m);
    let i = object_document::lemma_one_child(
        nodes,
        "inertial"@,
        none,
        items,
        parent,
        at,
        "inertia"@,
        3,
    );
}

proof fn lemma_has_mass(
    nodes: Seq<NodeView>,
    mass: Seq<char>,
    moment: Seq<char>,
    link: int,
    at: int,
)
    requires
        xml::child_of(nodes, link, "inertial"@) == Some(at),
        markup::stands_at(nodes, object_model::inertial_item(mass, moment), link, at),
    ensures
        has_mass(nodes, link, mass, moment),
{
    lemma_inertial(nodes, mass, moment, link, at);
    let i = xml::child_of(nodes, at, "inertia"@)->0;
    lemma_inertia(nodes, moment, at, i);
}

proof fn lemma_origin(nodes: Seq<NodeView>, xyz: Seq<char>, parent: int, at: int)
    requires
        markup::stands_at(nodes, object_model::origin_item(xyz), parent, at),
    ensures
        xml::attribute_of(nodes[at], "xyz"@) == Some(xyz),
        xml::attribute_of(nodes[at], "rpy"@) == Some("0 0 0"@),
{
    lemma_names();
    let a = nodes[at].attributes;
    assert(a.len() == 2);
    assert(a[0].0 == "xyz"@ && a[1].0 == "rpy"@);
    xml::attributes_are_found_by_name(nodes[at], "xyz"@, 0);
    xml::attributes_are_found_by_name(nodes[at], "rpy"@, 1);
}

proof fn lemma_shape(
    nodes: Seq<NodeView>,
    tag: Seq<char>,
    items: Seq<Item>,
    radius: Seq<char>,
    link: int,
    at: int,
)
    requires
        xml::child_of(nodes, link, tag) == Some(at),
        markup::stands_at(nodes, markup::element(tag, Seq::empty(), items), link, at),
        4 <= items.len() <= 7,
        items[1] == object_model::origin_item("0 0 0"@),
        items[3] == object_model::geometry_item(radius),
        forall|m: int|
            0 <= m < items.len() && m != 1 ==> !markup::is_tagged(#[trigger] items[m], "origin"@),
        forall|m: int|
            0 <= m < items.len() && m != 3 ==> !markup::is_tagged(#[trigger] items[m], "geometry"@),
    ensures
        has_sphere(nodes, link, tag, radius),
{
    object_document::lemma_tags();
    lemma_names();
    let none = Seq::<(Seq<char>, Seq<char>)>::empty();
    reveal_strlit("origin");
    reveal_strlit("geometry");
    reveal_strlit("sphere");
    let o = object_document::lemma_one_child(nodes, tag, none, items, link, at, "origin"@, 1);
    lemma_origin(nodes, "0 0 0"@, at, o);
    let g = object_document::lemma_one_child(nodes, tag, none, items, link, at, "geometry"@, 3);
    let shape = seq![object_model::leaf("sphere"@, "radius"@, radius)];
    let n = object_document::lemma_one_child(
        nodes,
        "geometry"@,
        none,
        shape,
        at,
        g,
        "sphere"@,
        0,
    );
    object_document::lemma_leaf_value(nodes, "sphere"@, "radius"@, radius, g, n);
}

proof fn lemma_sphere_link(
    nodes: Seq<NodeView>,
    s: ObjectSphereView,
    i: int,
    parent: int,
    at: int,
)
    requires
        markup::stands_at(nodes, object_model::link_item(s, i), parent, at),
    ensures
        xml::attribute_of(nodes[at], "name"@) == Some("sphere_"@ + text::decimal(i as nat)),
        has_sphere(nodes, at, "visual"@, s.radius),
        has_sphere(nodes, at, "collision"@, s.radius),
        has_mass(nodes, at, s.mass, s.inertia),
{
    object_document::lemma_tags();
    lemma_names();
    let name = seq![("name"@, object_model::sphere_id(i))];
    let items = seq![
        object_model::gap2(),
        object_model::visual_item(s.radius),
        object_model::gap2(),
        object_model::collision_item(s.radius),
        object_model::gap2(),
        object_model::inertial_item(s.mass, s.inertia),
        object_model::gap1(),
    ];
    reveal_strlit("collision");
    let v = object_document::lemma_one_child(
        nodes,
        "link"@,
        name,
        items,
        parent,
        at,
        "visual"@,
        1,
    );
    let c = object_document::lemma_one_child(
        nodes,
        "link"@,
        name,
        items,
        parent,
        at,
        "collision"@,
        3,
    );
    let m = object_document::lemma_one_child(
        nodes,
        "link"@,
        name,
        items,
        parent,
        at,
        "inertial"@,
        5,
    );
    let shown = seq![
        object_model::gap3(),
        object_model::origin_item("0 0 0"@),
        object_model::gap3(),
        object_model::geometry_item(s.radius),
        object_model::gap3(),
        object_model::leaf("material"@, "name"@, "default_color"@),
        object_model::gap2(),
    ];
    lemma_shape(nodes, "visual"@, shown, s.radius, at, v);
    let hit = seq![
        object_model::gap3(),
        object_model::origin_item("0 0 0"@),
        object_model::gap3(),
        object_model::geometry_item(s.radius),
        object_model::gap2(),
    ];
    lemma_shape(nodes, "collision"@, hit, s.radius, at, c);
    lemma_has_mass(nodes, s.mass, s.inertia, at, m);
    assert(nodes[at].attributes[0] == ("name"@, object_model::sphere_id(i)));
    xml::attributes_are_found_by_name(nodes[at], "name"@, 0);
}

proof fn lemma_base_link(nodes: Seq<NodeView>, p: ObjectPartsView, parent: int, at: int)
    requires
        markup::stands_at(nodes, object_model::base_item(p), parent, at),
    ensures
        xml::attribute_of(nodes[at], "name"@) == Some("base"@),
        has_mass(nodes, at, p.base_mass, p.base_inertia),
{
    lemma_names();
    let name = seq![("name"@, "base"@)];
    let items = seq![
        object_model::gap2(),
        object_model::inertial_item(p.base_mass, p.base_inertia),
        object_model::gap1(),
    ];
    let m = object_document::lemma_one_child(
        nodes,
        "link"@,
        name,
        items,
        parent,
        at,
        "inertial"@,
        1,
    );
    lemma_has_mass(nodes, p.base_mass, p.base_inertia, at, m);
    assert(nodes[at].attributes[0] == ("name"@, "base"@));
    xml::attributes_are_found_by_name(nodes[at], "name"@, 0);
}

proof fn lemma_held(
    nodes: Seq<NodeView>,
    name: Seq<char>,
    base: Seq<char>,
    child: Seq<char>,
    xyz: TripleView,
    parent: int,
    at: int,
)
    requires
        markup::stands_at(
            nodes,
            object_model::joint_item(name, base, child, xyz.spaced()),
            parent,
            at,
        ),
    ensures
        holds_fixed(nodes, at, base, child, xyz),
{
    object_document::lemma_tags();
    lemma_names();
    let attributes = seq![("name"@, name), ("type"@, "fixed"@)];
    let items = seq![
        object_model::gap2(),
        object_model::leaf("parent"@, "link"@, base),
        object_model::gap2(),
        object_model::leaf("child"@, "link"@, child),
        object_model::gap2(),
        object_model::origin_item(xyz.spaced()),
        object_model::gap1(),
    ];
    reveal_strlit("child");
    reveal_strlit("origin");
    let b = object_document::lemma_one_child(
        nodes,
        "joint"@,
        attributes,
        items,
        parent,
        at,
        "parent"@,
        1,
    );
    object_document::lemma_leaf_value(nodes, "parent"@, "link"@, base, at, b);
    let c = object_document::lemma_one_child(
        nodes,
        "joint"@,
        attributes,
        items,
        parent,
        at,
        "child"@,
        3,
    );
    object_document::lemma_leaf_value(nodes, "child"@, "link"@, child, at, c);
    let o = object_document::lemma_one_child(
        nodes,
        "joint"@,
        attributes,
        items,
        parent,
        at,
        "origin"@,
        5,
    );
    lemma_origin(nodes, xyz.spaced(), at, o);
    reveal_strlit(" ");
    assert(xyz.spaced() =~= xyz.x + " "@ + xyz.y + " "@ + xyz.z);
    assert(nodes[at].attributes == attributes);
    assert(attributes[0].0 == "name"@ && attributes[1].0 == "type"@);
    xml::attributes_are_found_by_name(nodes[at], "type"@, 1);
}

proof fn lemma_material(nodes: Seq<NodeView>, p: ObjectPartsView)
    requires
        markup::stands_at(nodes, object_document::object_root(p), 0, 1),
    ensures
        xml::child_of(nodes, 1, "material"@) matches Some(m) && xml::attribute_of(
            nodes[m],
            "name"@,
        ) == Some("default_color"@) && holds_value(nodes, m, "color"@, "rgba"@, p.rgba),
{
    object_document::lemma_tags();
    lemma_names();
    object_document::lemma_recorded_items(p);
    let items = object_model::recorded_items(p);
    let h = object_document::body_start(p);
    assert forall|m: int| 0 <= m < items.len() && m != 3 implies !markup::is_tagged(
        #[trigger] items[m],
        "material"@,
    ) by {
        if h <= m < items.len() - 1 {
            assert(items[m] == object_document::body_item(p.spheres, m - h));
        }
    }
    let name = seq![("name"@, p.robot_name)];
    let m = object_document::lemma_one_child(
        nodes,
        "robot"@,
        name,
        items,
        0,
        1,
        "material"@,
        3,
    );
    assert(nodes[m].attributes[0] == ("name"@, "default_color"@));
    xml::attributes_are_found_by_name(nodes[m], "name"@, 0);
    let inner = seq![
        object_model::gap2(),
        object_model::leaf("color"@, "rgba"@, p.rgba),
        object_model::gap1(),
    ];
    let c = object_document::lemma_one_child(
        nodes,
        "material"@,
        seq![("name"@, "default_color"@)],
        inner,
        1,
        m,
        "color"@,
        1,
    );
    object_document::lemma_leaf_value(nodes, "color"@, "rgba"@, p.rgba, m, c);
}

proof fn lemma_is_object(nodes: Seq<NodeView>, p: ObjectPartsView)
    requires
        markup::holds_document(nodes, object_document::object_root(p)),
    ensures
        is_object(nodes, p),
{
    let root = object_document::object_root(p);
    let items = object_model::recorded_items(p);
    let h = object_document::body_start(p);
    let n = p.spheres.len() as int;
    let l: int = if p.anchored {
        2
    } else {
        1
    };
    reveal_strlit("robot");
    markup::lemma_root(nodes, root);
    lemma_material(nodes, p);
    object_document::lemma_links(nodes, p);
    object_document::lemma_joints(nodes, p);
    object_document::lemma_recorded_items(p);
    let links = xml::children_of(nodes, 1, "link"@);
    let joints = xml::children_of(nodes, 1, "joint"@);
    let ls = object_document::link_places(p);
    let js = object_document::joint_places(p);
    assert(nodes[1].attributes == seq![("name"@, p.robot_name)]);
    assert(nodes[1].attributes[0] == ("name"@, p.robot_name));
    xml::attributes_are_found_by_name(nodes[1], "name"@, 0);
    assert(markup::stands_at(nodes, items[ls[l - 1]], 1, links[l - 1]));
    lemma_base_link(nodes, p, 1, links[l - 1]);
    if p.anchored {
        assert(markup::stands_at(nodes, items[ls[0]], 1, links[0]));
        object_document::lemma_leaf_value(nodes, "link"@, "name"@, "world"@, 1, links[0]);
        assert(markup::stands_at(nodes, items[js[0]], 1, joints[0]));
        lemma_held(nodes, "world_to_base"@, "world"@, "base"@, p.centroid, 1, joints[0]);
    }
    assert forall|i: int| 0 <= i < n implies #[trigger] sphere_is_held(
        nodes,
        links,
        joints,
        l,
        i,
        p,
    ) by {
        let s = p.spheres[i];
        object_document::lemma_sphere_places(p, i);
        assert(markup::stands_at(nodes, items[ls[l + i]], 1, links[l + i]));
        assert(ls[l + i] == h + 4 * i + 1);
        lemma_sphere_link(nodes, s, i, 1, links[l + i]);
        assert(markup::stands_at(nodes, items[js[l - 1 + i]], 1, joints[l - 1 + i]));
        assert(js[l - 1 + i] == h + 4 * i + 3);
        lemma_held(
            nodes,
            object_model::sphere_id(i) + "_fixed"@,
            "base"@,
            object_model::sphere_id(i),
            s.center,
            1,
            joints[l - 1 + i],
        );
    }
}

/// A reader of an object's URDF finds the whole object in it: the masses and moments of the
/// base and of every sphere, their shapes, and the joints that hold them in place.
pub proof fn a_written_object_has_its_parts(p: ObjectPartsView, nodes: Option<Seq<NodeView>>)
    requires
        object_document::is_plain_object(p),
        object_model::is_comment_number(p.centroid_comment.x),
        object_model::is_comment_number(p.centroid_comment.y),
        object_model::is_comment_number(p.centroid_comment.z),
        round_trip::written(p).len() < u32::MAX,
        xml::reads_plain_documents(round_trip::written(p), nodes),
    ensures
        nodes matches Some(n) && is_object(n, p),
{
    object_model::lemma_written_document(p);
    object_document::lemma_plain_document(p);
    assert(markup::is_plain(object_document::object_root(p)));
    lemma_is_object(nodes->0, p);
}

} // verus!
