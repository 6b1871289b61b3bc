//! The document that is written for an object: it is a plain one, and its nodes
//! hold the links and joints of the spheres.

use vstd::prelude::*;

use crate::markup;
use crate::markup::Item;
use crate::numeral::TripleView;
use crate::object_model;
use crate::object_model::{ObjectPartsView, ObjectSphereView};
use crate::text;
use crate::xml;
use crate::xml::NodeView;

verus! {

/// Whether what is written for a sphere stands for itself.
pub open spec fn is_plain_sphere(s: ObjectSphereView) -> bool {
    &&& markup::is_plain_value(s.radius)
    &&& markup::is_plain_value(s.mass)
    &&& markup::is_plain_value(s.inertia)
    &&& is_plain_triple(s.center)
}

/// Whether three texts stand for themselves.
pub open spec fn is_plain_triple(t: TripleView) -> bool {
    markup::is_plain_value(t.x) && markup::is_plain_value(t.y) && markup::is_plain_value(t.z)
}

/// Whether what is written for an object stands for itself: no text holds a quote,
/// `<` or `&`, and its name no `>`.
pub open spec fn is_plain_object(p: ObjectPartsView) -> bool {
    &&& markup::is_plain_value(p.robot_name)
    &&& !p.robot_name.contains('>')
    &&& markup::is_plain_value(p.rgba)
    &&& markup::is_plain_value(p.base_mass)
    &&& markup::is_plain_value(p.base_inertia)
    &&& is_plain_triple(p.centroid)
    &&& forall|i: int| 0 <= i < p.spheres.len() ==> is_plain_sphere(#[trigger] p.spheres[i])
}

/// Whether the pieces of an item are plain.
pub open spec fn plain(item: Item) -> bool {
    markup::are_plain_pieces(markup::item_pieces(item))
}

pub proof fn lemma_plain_spaced(t: TripleView)
    requires
        is_plain_triple(t),
    ensures
        markup::is_plain_value(t.spaced()),
{
    reveal_strlit(" ");
    let v = t.spaced();
    assert forall|i: int| 0 <= i < v.len() implies markup::is_line_char(#[trigger] v[i]) && v[i]
        != '"' && v[i] != '<' && v[i] != '&' by {
        let a = t.x.len() as int;
        let b = a + 1 + t.y.len();
        if i < a {
            assert(v[i] == t.x[i]);
        } else if i > a && i < b {
            assert(v[i] == t.y[i - a - 1]);
        } else if i > b {
            assert(v[i] == t.z[i - b - 1]);
        }
    }
}

pub proof fn lemma_plain_decimal(n: nat)
    ensures
        markup::is_plain_value(text::decimal(n)),
    decreases n,
{
    if n >= 10 {
        lemma_plain_decimal(n / 10);
    }
}

proof fn lemma_plain_names(i: int)
    ensures
        markup::is_plain_value(object_model::sphere_id(i)),
        markup::is_plain_value(object_model::sphere_id(i) + "_fixed"@),
{
    lemma_plain_decimal(i as nat);
    reveal_strlit("sphere_");
    reveal_strlit("_fixed");
}

proof fn lemma_plain_gaps()
    ensures
        plain(object_model::gap1()),
        plain(object_model::gap2()),
        plain(object_model::gap3()),
        plain(Item::Blank("\n"@)),
{
    reveal_strlit("\n  ");
    reveal_strlit("\n    ");
    reveal_strlit("\n      ");
    reveal_strlit("\n");
    markup::lemma_plain_single(object_model::gap1());
    markup::lemma_plain_single(object_model::gap2());
    markup::lemma_plain_single(object_model::gap3());
    markup::lemma_plain_single(Item::Blank("\n"@));
}

/// A few items are plain where each of them is and white space never meets white
/// space.
pub proof fn lemma_plain_few(items: Seq<Item>)
    requires
        items.len() <= 8,
        0 < items.len() ==> plain(items[0]),
        1 < items.len() ==> plain(items[1]) && !(items[0] is Blank && items[1] is Blank),
        2 < items.len() ==> plain(items[2]) && !(items[1] is Blank && items[2] is Blank),
        3 < items.len() ==> plain(items[3]) && !(items[2] is Blank && items[3] is Blank),
        4 < items.len() ==> plain(items[4]) && !(items[3] is Blank && items[4] is Blank),
        5 < items.len() ==> plain(items[5]) && !(items[4] is Blank && items[5] is Blank),
        6 < items.len() ==> plain(items[6]) && !(items[5] is Blank && items[6] is Blank),
        7 < items.len() ==> plain(items[7]) && !(items[6] is Blank && items[7] is Blank),
    ensures
        markup::are_plain_pieces(markup::list_pieces(items)),
{
    assert forall|k: int| 0 <= k < items.len() implies markup::are_plain_pieces(
        markup::item_pieces(#[trigger] items[k]),
    ) by {
        assert(plain(items[k]));
    }
    markup::lemma_plain_list(items);
}

/// One attribute.
pub proof fn lemma_plain_leaf(tag: Seq<char>, name: Seq<char>, value: Seq<char>)
    requires
        markup::is_plain_name(tag),
        markup::is_plain_name(name),
        name != "xmlns"@,
        markup::is_plain_value(value),
    ensures
        plain(object_model::leaf(tag, name, value)),
{
    let none = Seq::<Item>::empty();
    lemma_plain_few(none);
    markup::lemma_plain_element(tag, seq![(name, value)], none);
}

proof fn lemma_plain_origin(xyz: Seq<char>)
    requires
        markup::is_plain_value(xyz),
    ensures
        plain(object_model::origin_item(xyz)),
{
    reveal_strlit("origin");
    reveal_strlit("xyz");
    reveal_strlit("rpy");
    reveal_strlit("xmlns");
    reveal_strlit("0 0 0");
    let none = Seq::<Item>::empty();
    let attributes = seq![("xyz"@, xyz), ("rpy"@, "0 0 0"@)];
    lemma_plain_few(none);
    assert("xyz"@[0] != "rpy"@[0]);
    assert("xyz"@.len() != "xmlns"@.len() && "rpy"@.len() != "xmlns"@.len());
    assert(markup::are_plain_attributes(attributes));
    markup::lemma_plain_element("origin"@, attributes, none);
}

proof fn lemma_plain_inertia(v: Seq<char>)
    requires
        markup::is_plain_value(v),
    ensures
        plain(object_model::inertia_item(v)),
{
    reveal_strlit("inertia");
    reveal_strlit("ixx");
    reveal_strlit("ixy");
    reveal_strlit("ixz");
    reveal_strlit("iyy");
    reveal_strlit("iyz");
    reveal_strlit("izz");
    reveal_strlit("xmlns");
    reveal_strlit("0.0");
    let none = Seq::<Item>::empty();
    let a = seq![
        ("ixx"@, v),
        ("ixy"@, "0.0"@),
        ("ixz"@, "0.0"@),
        ("iyy"@, v),
        ("iyz"@, "0.0"@),
        ("izz"@, v),
    ];
    lemma_plain_few(none);
    assert forall|i: int, j: int| 0 <= i < j < a.len() implies (#[trigger] a[i]).0 != (
    #[trigger] a[j]).0 by {
        assert(a[i].0[1] != a[j].0[1] || a[i].0[2] != a[j].0[2]);
    }
    assert forall|i: int| 0 <= i < a.len() implies markup::is_plain_name((#[trigger] a[i]).0)
        && a[i].0 != "xmlns"@ && markup::is_plain_value(a[i].1) by {
        assert(a[i].0.len() == 3);
    }
    markup::lemma_plain_element("inertia"@, a, none);
}

proof fn lemma_plain_inertial(mass: Seq<char>, inertia: Seq<char>)
    requires
        markup::is_plain_value(mass),
        markup::is_plain_value(inertia),
    ensures
        plain(object_model::inertial_item(mass, inertia)),
{
    reveal_strlit("inertial");
    reveal_strlit("mass");
    reveal_strlit("value");
    reveal_strlit("xmlns");
    assert("value"@[0] != "xmlns"@[0]);
    lemma_plain_gaps();
    lemma_plain_leaf("mass"@, "value"@, mass);
    lemma_plain_inertia(inertia);
    let items = seq![
        object_model::gap3(),
        object_model::leaf("mass"@, "value"@, mass),
        object_model::gap3(),
        object_model::inertia_item(inertia),
        object_model::gap2(),
    ];
    lemma_plain_few(items);
    markup::lemma_plain_element("inertial"@, Seq::empty(), items);
}

proof fn lemma_plain_geometry(radius: Seq<char>)
    requires
        markup::is_plain_value(radius),
    ensures
        plain(object_model::geometry_item(radius)),
{
    reveal_strlit("geometry");
    reveal_strlit("sphere");
    reveal_strlit("radius");
    reveal_strlit("xmlns");
    assert("radius"@.len() != "xmlns"@.len());
    lemma_plain_leaf("sphere"@, "radius"@, radius);
    let items = seq![object_model::leaf("sphere"@, "radius"@, radius)];
    lemma_plain_few(items);
    markup::lemma_plain_element("geometry"@, Seq::empty(), items);
}

proof fn lemma_plain_shapes(radius: Seq<char>)
    requires
        markup::is_plain_value(radius),
    ensures
        plain(object_model::visual_item(radius)),
        plain(object_model::collision_item(radius)),
{
    reveal_strlit("visual");
    reveal_strlit("collision");
    reveal_strlit("material");
    reveal_strlit("name");
    reveal_strlit("xmlns");
    reveal_strlit("default_color");
    reveal_strlit("0 0 0");
    assert("name"@.len() != "xmlns"@.len());
    lemma_plain_gaps();
    lemma_plain_origin("0 0 0"@);
    lemma_plain_geometry(radius);
    lemma_plain_leaf("material"@, "name"@, "default_color"@);
    let a = seq![
        object_model::gap3(),
        object_model::origin_item("0 0 0"@),
        object_model::gap3(),
        object_model::geometry_item(radius),
        object_model::gap3(),
        object_model::leaf("material"@, "name"@, "default_color"@),
        object_model::gap2(),
    ];
    lemma_plain_few(a);
    markup::lemma_plain_element("visual"@, Seq::empty(), a);
    let b = seq![
        object_model::gap3(),
        object_model::origin_item("0 0 0"@),
        object_model::gap3(),
        object_model::geometry_item(radius),
        object_model::gap2(),
    ];
    lemma_plain_few(b);
    markup::lemma_plain_element("collision"@, Seq::empty(), b);
}

proof fn lemma_plain_link(s: ObjectSphereView, i: int)
    requires
        is_plain_sphere(s),
    ensures
        plain(object_model::link_item(s, i)),
{
    reveal_strlit("link");
    reveal_strlit("name");
    reveal_strlit("xmlns");
    assert("name"@.len() != "xmlns"@.len());
    lemma_plain_gaps();
    lemma_plain_names(i);
    lemma_plain_shapes(s.radius);
    lemma_plain_inertial(s.mass, s.inertia);
    let items = seq![
        object_model::gap2(),
        object_model::visual_item(s.radius),
        object_model::gap2(),
        object_model::collision_item(s.radius),
        object_model::gap2(),
        object_model::inertial_item(s.mass, s.inertia),
        object_model::gap1(),
    ];
    lemma_plain_few(items);
    markup::lemma_plain_element("link"@, seq![("name"@, object_model::sphere_id(i))], items);
}

proof fn lemma_plain_joint(name: Seq<char>, parent: Seq<char>, child: Seq<char>, xyz: Seq<char>)
    requires
        markup::is_plain_value(name),
        markup::is_plain_value(parent),
        markup::is_plain_value(child),
        markup::is_plain_value(xyz),
    ensures
        plain(object_model::joint_item(name, parent, child, xyz)),
{
    reveal_strlit("joint");
    reveal_strlit("name");
    reveal_strlit("type");
    reveal_strlit("fixed");
    reveal_strlit("parent");
    reveal_strlit("child");
    reveal_strlit("link");
    reveal_strlit("xmlns");
    lemma_plain_gaps();
    lemma_plain_origin(xyz);
    assert("link"@.len() != "xmlns"@.len());
    lemma_plain_leaf("parent"@, "link"@, parent);
    lemma_plain_leaf("child"@, "link"@, child);
    let items = seq![
        object_model::gap2(),
        object_model::leaf("parent"@, "link"@, parent),
        object_model::gap2(),
        object_model::leaf("child"@, "link"@, child),
        object_model::gap2(),
        object_model::origin_item(xyz),
        object_model::gap1(),
    ];
    lemma_plain_few(items);
    let attributes = seq![("name"@, name), ("type"@, "fixed"@)];
    assert("name"@[0] != "type"@[0]);
    assert("name"@.len() != "xmlns"@.len() && "type"@.len() != "xmlns"@.len());
    assert(markup::are_plain_attributes(attributes));
    markup::lemma_plain_element("joint"@, attributes, items);
}

proof fn lemma_plain_holder(s: ObjectSphereView, i: int)
    requires
        is_plain_sphere(s),
    ensures
        plain(object_model::holder_item(s, i)),
{
    reveal_strlit("base");
    lemma_plain_names(i);
    lemma_plain_spaced(s.center);
    lemma_plain_joint(
        object_model::sphere_id(i) + "_fixed"@,
        "base"@,
        object_model::sphere_id(i),
        s.center.spaced(),
    );
}

proof fn lemma_plain_material(p: ObjectPartsView)
    requires
        is_plain_object(p),
    ensures
        plain(object_model::material_item(p)),
{
    reveal_strlit("material");
    reveal_strlit("name");
    reveal_strlit("default_color");
    reveal_strlit("color");
    reveal_strlit("rgba");
    reveal_strlit("xmlns");
    assert("name"@.len() != "xmlns"@.len() && "rgba"@.len() != "xmlns"@.len());
    lemma_plain_gaps();
    lemma_plain_leaf("color"@, "rgba"@, p.rgba);
    let items = seq![
        object_model::gap2(),
        object_model::leaf("color"@, "rgba"@, p.rgba),
        object_model::gap1(),
    ];
    lemma_plain_few(items);
    markup::lemma_plain_element("material"@, seq![("name"@, "default_color"@)], items);
}

proof fn lemma_plain_base(p: ObjectPartsView)
    requires
        is_plain_object(p),
    ensures
        plain(object_model::base_item(p)),
{
    reveal_strlit("link");
    reveal_strlit("name");
    reveal_strlit("base");
    reveal_strlit("xmlns");
    assert("name"@.len() != "xmlns"@.len());
    lemma_plain_gaps();
    lemma_plain_inertial(p.base_mass, p.base_inertia);
    let items = seq![
        object_model::gap2(),
        object_model::inertial_item(p.base_mass, p.base_inertia),
        object_model::gap1(),
    ];
    lemma_plain_few(items);
    markup::lemma_plain_element("link"@, seq![("name"@, "base"@)], items);
}

/// The items for the spheres, one by one.
pub open spec fn body_item(spheres: Seq<ObjectSphereView>, k: int) -> Item {
    if k % 4 == 1 {
        object_model::link_item(spheres[k / 4], k / 4)
    } else if k % 4 == 3 {
        object_model::holder_item(spheres[k / 4], k / 4)
    } else {
        object_model::gap1()
    }
}

proof fn lemma_body(spheres: Seq<ObjectSphereView>, n: int)
    requires
        0 <= n <= spheres.len(),
    ensures
        object_model::body_items(spheres, n).len() == 4 * n,
        forall|k: int|
            0 <= k < 4 * n ==> #[trigger] object_model::body_items(spheres, n)[k] == body_item(
                spheres,
                k,
            ),
    decreases n,
{
    if n > 0 {
        lemma_body(spheres, n - 1);
        let front = object_model::body_items(spheres, n - 1);
        let last = object_model::sphere_items(spheres[n - 1], n - 1);
        let all = object_model::body_items(spheres, n);
        assert forall|k: int| 0 <= k < 4 * n implies #[trigger] all[k] == body_item(spheres, k) by {
            if k < 4 * (n - 1) {
                assert(all[k] == front[k]);
            } else {
                assert(all[k] == last[k - 4 * (n - 1)]);
                assert(k / 4 == n - 1);
            }
        }
    }
}

proof fn lemma_plain_comment(c: TripleView)
    requires
        object_model::is_comment_number(c.x),
        object_model::is_comment_number(c.y),
        object_model::is_comment_number(c.z),
    ensures
        plain(Item::Comment(" morphit:centroid "@ + c.spaced() + " "@)),
{
    reveal_strlit(" morphit:centroid ");
    reveal_strlit(" ");
    object_model::lemma_comment_number(c.x);
    object_model::lemma_comment_number(c.y);
    object_model::lemma_comment_number(c.z);
    let s = " morphit:centroid "@ + c.spaced() + " "@;
    let a = 18 + c.x.len() as int;
    let b = a + 1 + c.y.len();
    let d = b + 1 + c.z.len();
    assert forall|i: int| 0 <= i < s.len() implies markup::is_line_char(#[trigger] s[i]) && (i > 0
        && s[i] == '-' ==> s[i - 1] != '-') by {
        if 18 <= i < a {
            assert(s[i] == c.x[i - 18]);
            if i > 18 {
                assert(s[i - 1] == c.x[i - 19]);
            } else {
                assert(s[i - 1] == ' ');
            }
        } else if a < i < b {
            assert(s[i] == c.y[i - a - 1]);
            if i > a + 1 {
                assert(s[i - 1] == c.y[i - a - 2]);
            } else {
                assert(s[i - 1] == ' ');
            }
        } else if b < i < d {
            assert(s[i] == c.z[i - b - 1]);
            if i > b + 1 {
                assert(s[i - 1] == c.z[i - b - 2]);
            } else {
                assert(s[i - 1] == ' ');
            }
        }
    }
    assert(s.last() == ' ');
    markup::lemma_plain_single(Item::Comment(s));
}

/// Where the items of the spheres start in the `robot` element.
pub open spec fn body_start(p: ObjectPartsView) -> int {
    if p.anchored {
        10
    } else {
        6
    }
}

/// What the `robot` element holds, item by item.
pub proof fn lemma_recorded_items(p: ObjectPartsView)
    ensures
        ({
            let items = object_model::recorded_items(p);
            let h = body_start(p);
            let n = p.spheres.len() as int;
            &&& items.len() == h + 4 * n + 1
            &&& items[0] == object_model::gap1()
            &&& items[1] == Item::Comment(
                " morphit:centroid "@ + p.centroid_comment.spaced() + " "@,
            )
            &&& items[2] == object_model::gap1()
            &&& items[3] == object_model::material_item(p)
            &&& items[4] == object_model::gap1()
            &&& p.anchored ==> {
                &&& items[5] == object_model::leaf("link"@, "name"@, "world"@)
                &&& items[6] == object_model::gap1()
                &&& items[7] == object_model::base_item(p)
                &&& items[8] == object_model::gap1()
                &&& items[9] == object_model::joint_item(
                    "world_to_base"@,
                    "world"@,
                    "base"@,
                    p.centroid.spaced(),
                )
            }
            &&& !p.anchored ==> items[5] == object_model::base_item(p)
            &&& forall|k: int|
                h <= k < h + 4 * n ==> #[trigger] items[k] == body_item(p.spheres, k - h)
            &&& items[h + 4 * n] == Item::Blank("\n"@)
        }),
{
    let n = p.spheres.len() as int;
    let h = body_start(p);
    lemma_body(p.spheres, n);
    let items = object_model::recorded_items(p);
    let body = object_model::body_items(p.spheres, n);
    let head = object_model::head_items(p);
    assert(head.len() == h - 2);
    assert forall|k: int| h <= k < h + 4 * n implies #[trigger] items[k] == body_item(
        p.spheres,
        k - h,
    ) by {
        assert(items[k] == body[k - h]);
    }
    assert forall|k: int| 2 <= k < h implies #[trigger] items[k] == head[k - 2] by {}
}

/// Each item of the `robot` element is plain.
proof fn lemma_plain_item(p: ObjectPartsView, k: int)
    requires
        is_plain_object(p),
        object_model::is_comment_number(p.centroid_comment.x),
        object_model::is_comment_number(p.centroid_comment.y),
        object_model::is_comment_number(p.centroid_comment.z),
        0 <= k < object_model::recorded_items(p).len(),
    ensures
        plain(object_model::recorded_items(p)[k]),
{
    let h = body_start(p);
    let n = p.spheres.len() as int;
    lemma_recorded_items(p);
    if h <= k < h + 4 * n {
        let i = (k - h) / 4;
        assert(is_plain_sphere(p.spheres[i]));
        lemma_plain_gaps();
        lemma_plain_link(p.spheres[i], i);
        lemma_plain_holder(p.spheres[i], i);
        assert(object_model::recorded_items(p)[k] == body_item(p.spheres, k - h));
    } else if k == 1 {
        lemma_plain_comment(p.centroid_comment);
    } else if k == 3 {
        lemma_plain_material(p);
    } else if (p.anchored && k == 7) || (!p.anchored && k == 5) {
        lemma_plain_base(p);
    } else if p.anchored && k == 5 {
        reveal_strlit("world");
        reveal_strlit("link");
        reveal_strlit("name");
        reveal_strlit("xmlns");
        assert("name"@.len() != "xmlns"@.len());
        lemma_plain_leaf("link"@, "name"@, "world"@);
    } else if p.anchored && k == 9 {
        reveal_strlit("world_to_base");
        reveal_strlit("world");
        reveal_strlit("base");
        lemma_plain_spaced(p.centroid);
        lemma_plain_joint("world_to_base"@, "world"@, "base"@, p.centroid.spaced());
    } else {
        lemma_plain_gaps();
    }
}

/// White space stands between the items of the `robot` element only.
proof fn lemma_blanks_apart(p: ObjectPartsView, k: int)
    requires
        0 < k < object_model::recorded_items(p).len(),
        object_model::recorded_items(p)[k] is Blank,
    ensures
        !(object_model::recorded_items(p)[k - 1] is Blank),
{
    let h = body_start(p);
    let n = p.spheres.len() as int;
    let items = object_model::recorded_items(p);
    lemma_recorded_items(p);
    if h < k <= h + 4 * n {
        assert(items[k - 1] == body_item(p.spheres, k - 1 - h));
        if k < h + 4 * n {
            assert(items[k] == body_item(p.spheres, k - h));
            assert((k - h) % 4 == 2 || (k - h) % 4 == 0);
        }
    }
}

/// The document that is written for an object is a plain one.
pub proof fn lemma_plain_document(p: ObjectPartsView)
    requires
        is_plain_object(p),
        object_model::is_comment_number(p.centroid_comment.x),
        object_model::is_comment_number(p.centroid_comment.y),
        object_model::is_comment_number(p.centroid_comment.z),
    ensures
        markup::is_plain(object_model::robot_item(p, object_model::recorded_items(p))),
{
    let items = object_model::recorded_items(p);
    assert forall|k: int| 0 <= k < items.len() implies markup::are_plain_pieces(
        markup::item_pieces(#[trigger] items[k]),
    ) by {
        lemma_plain_item(p, k);
    }
    assert forall|k: int| 0 < k < items.len() && #[trigger] items[k] is Blank implies !(items[k
        - 1] is Blank) by {
        lemma_blanks_apart(p, k);
    }
    markup::lemma_plain_list(items);
    reveal_strlit("name");
    reveal_strlit("robot");
    reveal_strlit("xmlns");
    assert("name"@.len() != "xmlns"@.len());
    markup::lemma_plain_element("robot"@, seq![("name"@, p.robot_name)], items);
}

/// The tags that are looked for differ from the others beside them.
pub proof fn lemma_tags()
    ensures
        "link"@ != "joint"@,
        "link"@ != "material"@,
        "joint"@ != "material"@,
        "collision"@ != "visual"@,
        "collision"@ != "inertial"@,
        "geometry"@ != "origin"@,
        "child"@ != "parent"@,
        "child"@ != "origin"@,
        "origin"@ != "parent"@,
        "link"@.len() > 0,
        "joint"@.len() > 0,
        "collision"@.len() > 0,
        "geometry"@.len() > 0,
        "sphere"@.len() > 0,
        "child"@.len() > 0,
        "origin"@.len() > 0,
        "robot"@.len() > 0,
{
    reveal_strlit("link");
    reveal_strlit("joint");
    reveal_strlit("material");
    reveal_strlit("collision");
    reveal_strlit("visual");
    reveal_strlit("inertial");
    reveal_strlit("geometry");
    reveal_strlit("origin");
    reveal_strlit("child");
    reveal_strlit("parent");
    reveal_strlit("sphere");
    reveal_strlit("robot");
    assert("link"@.len() == 4 && "joint"@.len() == 5 && "material"@.len() == 8);
    assert("collision"@.len() == 9 && "visual"@.len() == 6 && "inertial"@.len() == 8);
    assert("geometry"@.len() == 8 && "origin"@.len() == 6);
    assert("child"@.len() == 5 && "parent"@.len() == 6);
    assert("origin"@[0] != "parent"@[0]);
}

/// The one item `k` with the tag `name` is the one child with it.
pub proof fn lemma_one_child(
    nodes: Seq<NodeView>,
    tag: Seq<char>,
    attributes: Seq<(Seq<char>, Seq<char>)>,
    items: Seq<Item>,
    parent: int,
    at: int,
    name: Seq<char>,
    k: int,
) -> (x: int)
    requires
        markup::stands_at(nodes, markup::element(tag, attributes, items), parent, at),
        name.len() > 0,
        0 <= k < items.len(),
        markup::is_tagged(items[k], name),
        forall|m: int|
            0 <= m < items.len() && m != k ==> !markup::is_tagged(#[trigger] items[m], name),
    ensures
        xml::child_of(nodes, at, name) == Some(x),
        markup::stands_at(nodes, items[k], at, x),
{
    let ks = seq![k];
    assert(ks.contains(k)) by {
        assert(ks[0] == k);
    }
    markup::lemma_children(nodes, tag, attributes, items, parent, at, name, ks);
    markup::lemma_stands_inside(nodes, tag, attributes, items, parent, at, k);
    let x = markup::item_at(items, at + 1, k);
    assert(xml::children_of(nodes, at, name)[0] == x);
    x
}

/// Without an item with the tag `name` there is no child with it.
pub proof fn lemma_no_child(
    nodes: Seq<NodeView>,
    tag: Seq<char>,
    attributes: Seq<(Seq<char>, Seq<char>)>,
    items: Seq<Item>,
    parent: int,
    at: int,
    name: Seq<char>,
)
    requires
        markup::stands_at(nodes, markup::element(tag, attributes, items), parent, at),
        name.len() > 0,
        forall|m: int|
            0 <= m < items.len() ==> !markup::is_tagged(#[trigger] items[m], name),
    ensures
        xml::child_of(nodes, at, name) is None,
{
    markup::lemma_children(nodes, tag, attributes, items, parent, at, name, Seq::empty());
}

/// The value of the attribute of a leaf.
pub proof fn lemma_leaf_value(
    nodes: Seq<NodeView>,
    tag: Seq<char>,
    name: Seq<char>,
    value: Seq<char>,
    parent: int,
    at: int,
)
    requires
        markup::stands_at(nodes, object_model::leaf(tag, name, value), parent, at),
    ensures
        xml::attribute_of(nodes[at], name) == Some(value),
{
}

/// The link of a sphere holds its name and its radius.
pub proof fn lemma_link_of_sphere(
    nodes: Seq<NodeView>,
    s: ObjectSphereView,
    i: int,
    parent: int,
    at: int,
)
    requires
        markup::stands_at(nodes, object_model::link_item(s, i), parent, at),
    ensures
        xml::attribute_of(nodes[at], "name"@) == Some(object_model::sphere_id(i)),
        object_model::sphere_of_link(nodes, at) matches Some(n) && xml::attribute_of(
            nodes[n],
            "radius"@,
        ) == Some(s.radius),
{
    lemma_tags();
    let name = seq![("name"@, object_model::sphere_id(i))];
    let none = Seq::<(Seq<char>, Seq<char>)>::empty();
    let items = seq![
        object_model::gap2(),
        object_model::visual_item(s.radius),
        object_model::gap2(),
        object_model::collision_item(s.radius),
        object_model::gap2(),
        object_model::inertial_item(s.mass, s.inertia),
        object_model::gap1(),
    ];
    let c = lemma_one_child(nodes, "link"@, name, items, parent, at, "collision"@, 3);
    let inner = seq![
        object_model::gap3(),
        object_model::origin_item("0 0 0"@),
        object_model::gap3(),
        object_model::geometry_item(s.radius),
        object_model::gap2(),
    ];
    let g = lemma_one_child(nodes, "collision"@, none, inner, at, c, "geometry"@, 3);
    let shape = seq![object_model::leaf("sphere"@, "radius"@, s.radius)];
    let n = lemma_one_child(nodes, "geometry"@, none, shape, c, g, "sphere"@, 0);
    lemma_leaf_value(nodes, "sphere"@, "radius"@, s.radius, g, n);
}

/// The `base` link has no sphere.
pub proof fn lemma_base_has_no_sphere(
    nodes: Seq<NodeView>,
    p: ObjectPartsView,
    parent: int,
    at: int,
)
    requires
        markup::stands_at(nodes, object_model::base_item(p), parent, at),
    ensures
        object_model::sphere_of_link(nodes, at) is None,
{
    lemma_tags();
    let items = seq![
        object_model::gap2(),
        object_model::inertial_item(p.base_mass, p.base_inertia),
        object_model::gap1(),
    ];
    lemma_no_child(nodes, "link"@, seq![("name"@, "base"@)], items, parent, at, "collision"@);
}

/// The `world` link has no sphere.
pub proof fn lemma_world_has_no_sphere(nodes: Seq<NodeView>, parent: int, at: int)
    requires
        markup::stands_at(nodes, object_model::leaf("link"@, "name"@, "world"@), parent, at),
    ensures
        object_model::sphere_of_link(nodes, at) is None,
{
    lemma_tags();
    lemma_no_child(
        nodes,
        "link"@,
        seq![("name"@, "world"@)],
        Seq::empty(),
        parent,
        at,
        "collision"@,
    );
}

/// A joint holds the name of its child and where it is.
pub proof fn lemma_joint(
    nodes: Seq<NodeView>,
    name: Seq<char>,
    base: Seq<char>,
    child: Seq<char>,
    xyz: Seq<char>,
    parent: int,
    at: int,
)
    requires
        markup::stands_at(nodes, object_model::joint_item(name, base, child, xyz), parent, at),
    ensures
        xml::child_of(nodes, at, "child"@) matches Some(c) && xml::attribute_of(nodes[c], "link"@)
            == Some(child),
        xml::child_of(nodes, at, "origin"@) matches Some(o) && xml::attribute_of(nodes[o], "xyz"@)
            == Some(xyz),
{
    lemma_tags();
    let attributes = seq![("name"@, name), ("type"@, "fixed"@)];
    let items = seq![
        object_model::gap2(),
        object_model::leaf("parent"@, "link"@, base),
        object_model::gap2(),
        object_model::leaf("child"@, "link"@, child),
        object_model::gap2(),
        object_model::origin_item(xyz),
        object_model::gap1(),
    ];
    let c = lemma_one_child(nodes, "joint"@, attributes, items, parent, at, "child"@, 3);
    lemma_leaf_value(nodes, "child"@, "link"@, child, at, c);
    let o = lemma_one_child(nodes, "joint"@, attributes, items, parent, at, "origin"@, 5);
    assert(nodes[o].attributes[0] == ("xyz"@, xyz));
}

/// Where the links stand among the items of the `robot` element.
pub open spec fn link_places(p: ObjectPartsView) -> Seq<int> {
    (if p.anchored {
        seq![5int, 7]
    } else {
        seq![5int]
    }) + Seq::new(p.spheres.len(), |i: int| body_start(p) + 4 * i + 1)
}

/// Where the joints stand among the items of the `robot` element.
pub open spec fn joint_places(p: ObjectPartsView) -> Seq<int> {
    (if p.anchored {
        seq![9int]
    } else {
        Seq::empty()
    }) + Seq::new(p.spheres.len(), |i: int| body_start(p) + 4 * i + 3)
}

/// The document that is written for an object.
pub open spec fn object_root(p: ObjectPartsView) -> Item {
    object_model::robot_item(p, object_model::recorded_items(p))
}

/// A link stands at one of the places of links.
proof fn lemma_place_of_link(p: ObjectPartsView, m: int)
    requires
        0 <= m < object_model::recorded_items(p).len(),
        markup::is_tagged(object_model::recorded_items(p)[m], "link"@),
    ensures
        link_places(p).contains(m),
{
    let h = body_start(p);
    let n = p.spheres.len() as int;
    let ks = link_places(p);
    lemma_tags();
    lemma_recorded_items(p);
    if h <= m < h + 4 * n {
        assert(object_model::recorded_items(p)[m] == body_item(p.spheres, m - h));
        assert((m - h) % 4 == 1);
        assert(ks[ks.len() - n + (m - h) / 4] == m);
    } else if p.anchored {
        assert(m == 5 || m == 7);
        assert(ks[0] == 5 && ks[1] == 7);
    } else {
        assert(m == 5);
        assert(ks[0] == 5);
    }
}

/// The places of the links hold links, and no other place does.
proof fn lemma_link_places(p: ObjectPartsView)
    ensures
        ({
            let items = object_model::recorded_items(p);
            let ks = link_places(p);
            &&& forall|a: int, b: int| 0 <= a < b < ks.len() ==> #[trigger] ks[a] < #[trigger] ks[b]
            &&& forall|a: int|
                0 <= a < ks.len() ==> 0 <= #[trigger] ks[a] < items.len() && markup::is_tagged(
                    items[ks[a]],
                    "link"@,
                )
            &&& forall|m: int|
                0 <= m < items.len() && markup::is_tagged(#[trigger] items[m], "link"@)
                    ==> ks.contains(m)
        }),
{
    let items = object_model::recorded_items(p);
    let h = body_start(p);
    let n = p.spheres.len() as int;
    let ks = link_places(p);
    let l = ks.len() - n;
    lemma_tags();
    lemma_recorded_items(p);
    assert forall|a: int| 0 <= a < ks.len() implies 0 <= #[trigger] ks[a] < items.len()
        && markup::is_tagged(items[ks[a]], "link"@) by {
        if a >= l {
            assert(ks[a] == h + 4 * (a - l) + 1);
            assert(items[ks[a]] == body_item(p.spheres, ks[a] - h));
            assert((ks[a] - h) % 4 == 1);
        }
    }
    assert forall|m: int| 0 <= m < items.len() && markup::is_tagged(
        #[trigger] items[m],
        "link"@,
    ) implies ks.contains(m) by {
        lemma_place_of_link(p, m);
    }
}

/// The links of the document, in their order.
pub proof fn lemma_links(nodes: Seq<NodeView>, p: ObjectPartsView)
    requires
        markup::stands_at(nodes, object_root(p), 0, 1),
    ensures
        ({
            let links = xml::children_of(nodes, 1, "link"@);
            let ks = link_places(p);
            &&& links.len() == ks.len()
            &&& forall|i: int|
                0 <= i < ks.len() ==> markup::stands_at(
                    nodes,
                    object_model::recorded_items(p)[ks[i]],
                    1,
                    #[trigger] links[i],
                )
        }),
{
    let items = object_model::recorded_items(p);
    let ks = link_places(p);
    let attributes = seq![("name"@, p.robot_name)];
    reveal_strlit("link");
    lemma_link_places(p);
    markup::lemma_children(nodes, "robot"@, attributes, items, 0, 1, "link"@, ks);
    let links = xml::children_of(nodes, 1, "link"@);
    assert forall|i: int| 0 <= i < ks.len() implies markup::stands_at(
        nodes,
        items[ks[i]],
        1,
        #[trigger] links[i],
    ) by {
        assert(0 <= ks[i] < items.len());
        markup::lemma_stands_inside(nodes, "robot"@, attributes, items, 0, 1, ks[i]);
    }
}

/// The places of the joints hold joints, and no other place does.
proof fn lemma_joint_places(p: ObjectPartsView)
    ensures
        ({
            let items = object_model::recorded_items(p);
            let ks = joint_places(p);
            &&& forall|a: int, b: int| 0 <= a < b < ks.len() ==> #[trigger] ks[a] < #[trigger] ks[b]
            &&& forall|a: int|
                0 <= a < ks.len() ==> 0 <= #[trigger] ks[a] < items.len() && markup::is_tagged(
                    items[ks[a]],
                    "joint"@,
                )
            &&& forall|m: int|
                0 <= m < items.len() && markup::is_tagged(#[trigger] items[m], "joint"@)
                    ==> ks.contains(m)
        }),
{
    let items = object_model::recorded_items(p);
    let h = body_start(p);
    let n = p.spheres.len() as int;
    let ks = joint_places(p);
    let l = ks.len() - n;
    lemma_tags();
    lemma_recorded_items(p);
    assert forall|a: int| 0 <= a < ks.len() implies 0 <= #[trigger] ks[a] < items.len()
        && markup::is_tagged(items[ks[a]], "joint"@) by {
        if a >= l {
            assert(ks[a] == h + 4 * (a - l) + 3);
            assert(items[ks[a]] == body_item(p.spheres, ks[a] - h));
            assert((ks[a] - h) % 4 == 3);
        }
    }
    assert forall|m: int| 0 <= m < items.len() && markup::is_tagged(
        #[trigger] items[m],
        "joint"@,
    ) implies ks.contains(m) by {
        if h <= m < h + 4 * n {
            assert(items[m] == body_item(p.spheres, m - h));
            assert((m - h) % 4 == 3);
            assert(ks[l + (m - h) / 4] == m);
        } else {
            assert(p.anchored ==> ks[0] == 9);
        }
    }
}

/// The joints of the document, in their order.
pub proof fn lemma_joints(nodes: Seq<NodeView>, p: ObjectPartsView)
    requires
        markup::stands_at(nodes, object_root(p), 0, 1),
    ensures
        ({
            let joints = xml::children_of(nodes, 1, "joint"@);
            let ks = joint_places(p);
            &&& joints.len() == ks.len()
            &&& forall|i: int|
                0 <= i < ks.len() ==> markup::stands_at(
                    nodes,
                    object_model::recorded_items(p)[ks[i]],
                    1,
                    #[trigger] joints[i],
                )
        }),
{
    let items = object_model::recorded_items(p);
    let ks = joint_places(p);
    let attributes = seq![("name"@, p.robot_name)];
    reveal_strlit("joint");
    lemma_joint_places(p);
    markup::lemma_children(nodes, "robot"@, attributes, items, 0, 1, "joint"@, ks);
    let joints = xml::children_of(nodes, 1, "joint"@);
    assert forall|i: int| 0 <= i < ks.len() implies markup::stands_at(
        nodes,
        items[ks[i]],
        1,
        #[trigger] joints[i],
    ) by {
        assert(0 <= ks[i] < items.len());
        markup::lemma_stands_inside(nodes, "robot"@, attributes, items, 0, 1, ks[i]);
    }
}

/// The item of the `robot` element for sphere `i`: its link and its joint.
pub proof fn lemma_sphere_places(p: ObjectPartsView, i: int)
    requires
        0 <= i < p.spheres.len(),
    ensures
        object_model::recorded_items(p)[body_start(p) + 4 * i + 1] == object_model::link_item(
            p.spheres[i],
            i,
        ),
        object_model::recorded_items(p)[body_start(p) + 4 * i + 3] == object_model::holder_item(
            p.spheres[i],
            i,
        ),
{
    lemma_recorded_items(p);
    let h = body_start(p);
    let items = object_model::recorded_items(p);
    assert(items[h + 4 * i + 1] == body_item(p.spheres, 4 * i + 1));
    assert(items[h + 4 * i + 3] == body_item(p.spheres, 4 * i + 3));
    assert((4 * i + 1) / 4 == i && (4 * i + 1) % 4 == 1);
    assert((4 * i + 3) / 4 == i && (4 * i + 3) % 4 == 3);
}

} // verus!
