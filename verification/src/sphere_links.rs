//! What a rewritten URDF holds for every sphere: a link with its radius, and a fixed joint
//! that puts it at its center.

use vstd::prelude::*;

use crate::assemble;
use crate::assemble::{EditView, Scene, SphereView};
use crate::inspect::ItemView;
use crate::markup;
use crate::numeral::TripleView;
use crate::text;
use crate::xml;
use crate::xml::NodeView;
use crate::ErrorView;

verus! {

/// `<tag name="value" ...>`.
pub open spec fn open_tag(tag: Seq<char>, attributes: Seq<(Seq<char>, Seq<char>)>) -> Seq<char> {
    seq!['<'] + tag + markup::attributes_text(attributes) + seq!['>']
}

/// `<tag name="value" ... />`.
pub open spec fn empty_tag(tag: Seq<char>, attributes: Seq<(Seq<char>, Seq<char>)>) -> Seq<char> {
    seq!['<'] + tag + markup::attributes_text(attributes) + seq![' ', '/', '>']
}

/// A fixed joint that puts the link `child` at `xyz` in the frame of the link `parent`, not
/// turned.
pub open spec fn joint_element(parent: Seq<char>, child: Seq<char>, xyz: Seq<char>) -> Seq<char> {
    open_tag("joint"@, seq![("name"@, parent + "_to_"@ + child), ("type"@, "fixed"@)])
        + "\n    "@ + empty_tag("parent"@, seq![("link"@, parent)]) + "\n    "@ + empty_tag(
        "child"@,
        seq![("link"@, child)],
    ) + "\n    "@ + empty_tag("origin"@, seq![("xyz"@, xyz), ("rpy"@, "0 0 0"@)])
        + "\n  </joint>"@
}

/// The link `name`: a light sphere of the radius around its origin, in the color `rgba`,
/// that collides as it looks; `drake` are further properties of what collides.
pub open spec fn link_element(
    name: Seq<char>,
    radius: Seq<char>,
    rgba: Seq<char>,
    drake: Option<Seq<char>>,
) -> Seq<char> {
    let origin = empty_tag("origin"@, seq![("xyz"@, "0 0 0"@), ("rpy"@, "0 0 0"@)]);
    let sphere = empty_tag("sphere"@, seq![("radius"@, radius)]);
    open_tag("link"@, seq![("name"@, name)]) + light_inertia() + "    <visual>\n      "@ + origin
        + "\n      <geometry>\n        "@ + sphere + "\n      </geometry>\n      "@ + open_tag(
        "material"@,
        seq![("name"@, "color_"@ + name)],
    ) + "\n        "@ + empty_tag("color"@, seq![("rgba"@, rgba)])
        + "\n      </material>\n    </visual>\n    <collision>\n      "@ + origin
        + "\n      <geometry>\n        "@ + sphere + "\n      </geometry>\n"@ + (match drake {
        Some(d) => "      "@ + d + "\n"@,
        None => Seq::empty(),
    }) + "    </collision>\n  </link>"@
}

/// The mass and the inertia of the link of a sphere.
pub open spec fn light_inertia() -> Seq<char> {
    "\n    <inertial>\n      <origin xyz=\"0 0 0\" rpy=\"0 0 0\" />\n      <mass value=\"0.001000\" />\n      <inertia ixx=\"0.000010\" ixy=\"0\" ixz=\"0\" iyy=\"0.000010\" iyz=\"0\" izz=\"0.000010\" />\n    </inertial>\n"@
}

/// The text of one and of two attributes.
proof fn lemma_attributes(a: (Seq<char>, Seq<char>), b: (Seq<char>, Seq<char>))
    ensures
        markup::attributes_text(seq![a]) == markup::attribute_text(a),
        markup::attributes_text(seq![a, b]) == markup::attribute_text(a) + markup::attribute_text(
            b,
        ),
{
    let f = |x: (Seq<char>, Seq<char>)| markup::attribute_text(x);
    let none = Seq::<(Seq<char>, Seq<char>)>::empty();
    none.lemma_flat_map_push(f, a);
    none.push(a).lemma_flat_map_push(f, b);
    assert(none.flat_map(f) =~= Seq::<char>::empty());
    assert(none.push(a) =~= seq![a]);
    assert(none.push(a).push(b) =~= seq![a, b]);
    assert(Seq::<char>::empty() + f(a) =~= f(a));
}

/// One attribute with what stands before and after its value.
proof fn lemma_one_attribute(tag: Seq<char>, name: Seq<char>, value: Seq<char>)
    ensures
        empty_tag(tag, seq![(name, value)]) == (seq!['<'] + tag + seq![' '] + name + seq!['=', '"'])
            + value + seq!['"', ' ', '/', '>'],
        open_tag(tag, seq![(name, value)]) == (seq!['<'] + tag + seq![' '] + name + seq!['=', '"'])
            + value + seq!['"', '>'],
{
    let a = (name, value);
    lemma_attributes(a, a);
    assert(empty_tag(tag, seq![a]) =~= (seq!['<'] + tag + seq![' '] + name + seq!['=', '"']) + value
        + seq!['"', ' ', '/', '>']);
    assert(open_tag(tag, seq![a]) =~= (seq!['<'] + tag + seq![' '] + name + seq!['=', '"']) + value
        + seq!['"', '>']);
}

proof fn lemma_joint_tags(
    p: Seq<char>,
    c: Seq<char>,
    xyz: Seq<char>,
)
    ensures
        "  <joint name=\""@ + p + "_to_"@ + c + "\" type=\"fixed\">\n"@ == "  "@ + open_tag(
            "joint"@,
            seq![("name"@, p + "_to_"@ + c), ("type"@, "fixed"@)],
        ) + "\n"@,
        "    <parent link=\""@ + p + "\" />\n"@ == "    "@ + empty_tag(
            "parent"@,
            seq![("link"@, p)],
        ) + "\n"@,
        "    <child link=\""@ + c + "\" />\n"@ == "    "@ + empty_tag("child"@, seq![("link"@, c)])
            + "\n"@,
        "    <origin xyz=\""@ + xyz + "\" rpy=\"0 0 0\" />\n"@ == "    "@ + empty_tag(
            "origin"@,
            seq![("xyz"@, xyz), ("rpy"@, "0 0 0"@)],
        ) + "\n"@,
{
    lemma_one_attribute("parent"@, "link"@, p);
    lemma_one_attribute("child"@, "link"@, c);
    let n = ("name"@, p + "_to_"@ + c);
    let t = ("type"@, "fixed"@);
    let x = ("xyz"@, xyz);
    let y = ("rpy"@, "0 0 0"@);
    lemma_attributes(n, t);
    lemma_attributes(x, y);
    reveal_strlit("  <joint name=\"");
    reveal_strlit("\" type=\"fixed\">\n");
    reveal_strlit("  ");
    reveal_strlit("joint");
    reveal_strlit("name");
    reveal_strlit("type");
    reveal_strlit("fixed");
    reveal_strlit("\n");
    assert("  <joint name=\""@ =~= "  "@ + (seq!['<'] + "joint"@ + (seq![' '] + "name"@ + seq![
        '=',
        '"',
    ])));
    assert("\" type=\"fixed\">\n"@ =~= seq!['"'] + markup::attribute_text(t) + seq!['>'] + "\n"@);
    assert("  <joint name=\""@ + p + "_to_"@ + c + "\" type=\"fixed\">\n"@ =~= "  "@ + open_tag(
        "joint"@,
        seq![n, t],
    ) + "\n"@);
    lemma_link_tags(p, c);
    reveal_strlit("    <origin xyz=\"");
    reveal_strlit("\" rpy=\"0 0 0\" />\n");
    reveal_strlit("    ");
    reveal_strlit("origin");
    reveal_strlit("xyz");
    reveal_strlit("rpy");
    reveal_strlit("0 0 0");
    assert("    <origin xyz=\""@ =~= "    "@ + (seq!['<'] + "origin"@ + (seq![' '] + "xyz"@ + seq![
        '=',
        '"',
    ])));
    assert("\" rpy=\"0 0 0\" />\n"@ =~= seq!['"'] + markup::attribute_text(y) + seq![' ', '/', '>']
        + "\n"@);
    assert("    <origin xyz=\""@ + xyz + "\" rpy=\"0 0 0\" />\n"@ =~= "    "@ + empty_tag(
        "origin"@,
        seq![x, y],
    ) + "\n"@);
}

proof fn lemma_link_tags(p: Seq<char>, c: Seq<char>)
    ensures
        "    <parent link=\""@ + p + "\" />\n"@ == "    "@ + empty_tag(
            "parent"@,
            seq![("link"@, p)],
        ) + "\n"@,
        "    <child link=\""@ + c + "\" />\n"@ == "    "@ + empty_tag("child"@, seq![("link"@, c)])
            + "\n"@,
{
    lemma_one_attribute("parent"@, "link"@, p);
    lemma_one_attribute("child"@, "link"@, c);
    reveal_strlit("    <parent link=\"");
    reveal_strlit("    <child link=\"");
    reveal_strlit("\" />\n");
    reveal_strlit("    ");
    reveal_strlit("parent");
    reveal_strlit("child");
    reveal_strlit("link");
    reveal_strlit("\n");
    assert("    <parent link=\""@ =~= "    "@ + (seq!['<'] + "parent"@ + seq![' '] + "link"@ + seq![
        '=',
        '"',
    ]));
    assert("    <child link=\""@ =~= "    "@ + (seq!['<'] + "child"@ + seq![' '] + "link"@ + seq![
        '=',
        '"',
    ]));
    assert("\" />\n"@ =~= seq!['"', ' ', '/', '>'] + "\n"@);
    assert("    <parent link=\""@ + p + "\" />\n"@ =~= "    "@ + empty_tag(
        "parent"@,
        seq![("link"@, p)],
    ) + "\n"@);
    assert("    <child link=\""@ + c + "\" />\n"@ =~= "    "@ + empty_tag(
        "child"@,
        seq![("link"@, c)],
    ) + "\n"@);
}

/// The joint of a sphere holds the names of both links and where the sphere is.
pub proof fn joints_put_links_in_place(
    parent: Seq<char>,
    child: Seq<char>,
    at: TripleView,
)
    ensures
        assemble::joint_text(parent, child, at) == "  "@ + joint_element(
            assemble::escaped(parent),
            assemble::escaped(child),
            at.x + " "@ + at.y + " "@ + at.z,
        ) + "\n"@,
{
    let p = assemble::escaped(parent);
    let c = assemble::escaped(child);
    let xyz = at.x + " "@ + at.y + " "@ + at.z;
    lemma_joint_tags(p, c, xyz);
    reveal_strlit("\" type=\"fixed\">\n    <parent link=\"");
    reveal_strlit("\" type=\"fixed\">\n");
    reveal_strlit("    <parent link=\"");
    assert("\" type=\"fixed\">\n    <parent link=\""@ =~= "\" type=\"fixed\">\n"@
        + "    <parent link=\""@);
    reveal_strlit("\" />\n    <child link=\"");
    reveal_strlit("\" />\n");
    reveal_strlit("    <child link=\"");
    assert("\" />\n    <child link=\""@ =~= "\" />\n"@ + "    <child link=\""@);
    reveal_strlit("\" />\n    <origin xyz=\"");
    reveal_strlit("    <origin xyz=\"");
    assert("\" />\n    <origin xyz=\""@ =~= "\" />\n"@ + "    <origin xyz=\""@);
    reveal_strlit("\" rpy=\"0 0 0\" />\n  </joint>\n");
    reveal_strlit("\" rpy=\"0 0 0\" />\n");
    reveal_strlit("  </joint>\n");
    assert("\" rpy=\"0 0 0\" />\n  </joint>\n"@ =~= "\" rpy=\"0 0 0\" />\n"@ + "  </joint>\n"@);
    let t = assemble::joint_text(parent, child, at);
    let l1 = "  <joint name=\""@ + p + "_to_"@ + c + "\" type=\"fixed\">\n"@;
    let l2 = "    <parent link=\""@ + p + "\" />\n"@;
    let l3 = "    <child link=\""@ + c + "\" />\n"@;
    let l4 = "    <origin xyz=\""@ + xyz + "\" rpy=\"0 0 0\" />\n"@;
    assert(t =~= l1 + l2 + l3 + l4 + "  </joint>\n"@);
    lemma_joint_lines(p, c, xyz);
}

/// The joint of a sphere, line by line.
proof fn lemma_joint_lines(p: Seq<char>, c: Seq<char>, xyz: Seq<char>)
    ensures
        "  "@ + joint_element(p, c, xyz) + "\n"@ == ("  "@ + open_tag(
            "joint"@,
            seq![("name"@, p + "_to_"@ + c), ("type"@, "fixed"@)],
        ) + "\n"@) + ("    "@ + empty_tag("parent"@, seq![("link"@, p)]) + "\n"@) + ("    "@
            + empty_tag("child"@, seq![("link"@, c)]) + "\n"@) + ("    "@ + empty_tag(
            "origin"@,
            seq![("xyz"@, xyz), ("rpy"@, "0 0 0"@)],
        ) + "\n"@) + "  </joint>\n"@,
{
    reveal_strlit("\n    ");
    reveal_strlit("    ");
    reveal_strlit("\n");
    reveal_strlit("\n  </joint>");
    reveal_strlit("  </joint>\n");
    assert("\n    "@ =~= "\n"@ + "    "@);
    assert("\n  </joint>"@ + "\n"@ =~= "\n"@ + "  </joint>\n"@);
    let a = open_tag("joint"@, seq![("name"@, p + "_to_"@ + c), ("type"@, "fixed"@)]);
    let b = empty_tag("parent"@, seq![("link"@, p)]);
    let d = empty_tag("child"@, seq![("link"@, c)]);
    let e = empty_tag("origin"@, seq![("xyz"@, xyz), ("rpy"@, "0 0 0"@)]);
    lemma_regroup(a, b, d, e, "  "@, "    "@, "\n"@, "\n    "@, "\n  </joint>"@, "  </joint>\n"@);
}

proof fn lemma_regroup(
    a: Seq<char>,
    b: Seq<char>,
    c: Seq<char>,
    d: Seq<char>,
    two: Seq<char>,
    four: Seq<char>,
    end: Seq<char>,
    both: Seq<char>,
    last: Seq<char>,
    closing: Seq<char>,
)
    requires
        both == end + four,
        last + end == end + closing,
    ensures
        two + (a + both + b + both + c + both + d + last) + end == (two + a + end) + (four + b + end)
            + (four + c + end) + (four + d + end) + closing,
{
    let l = two + (a + both + b + both + c + both + d + last) + end;
    let r = (two + a + end) + (four + b + end) + (four + c + end) + (four + d + end) + closing;
    assert(l =~= two + (a + both + b + both + c + both + d) + (last + end));
    assert(l =~= r);
}

/// Where everything in the link of a sphere is.
proof fn lemma_origin()
    ensures
        empty_tag("origin"@, seq![("xyz"@, "0 0 0"@), ("rpy"@, "0 0 0"@)]) == "<origin xyz=\"0 0 0\" rpy=\"0 0 0\" />"@,
{
    let x = ("xyz"@, "0 0 0"@);
    let y = ("rpy"@, "0 0 0"@);
    lemma_attributes(x, y);
    reveal_strlit("origin");
    reveal_strlit("xyz");
    reveal_strlit("rpy");
    reveal_strlit("0 0 0");
    reveal_strlit("<origin xyz=\"0 0 0\" rpy=\"0 0 0\" />");
    assert(empty_tag("origin"@, seq![x, y]) =~= "<origin xyz=\"0 0 0\" rpy=\"0 0 0\" />"@);
}

proof fn lemma_first_part()
    ensures
        "\">\n    <inertial>\n      <origin xyz=\"0 0 0\" rpy=\"0 0 0\" />\n      <mass value=\"0.001000\" />\n      <inertia ixx=\"0.000010\" ixy=\"0\" ixz=\"0\" iyy=\"0.000010\" iyz=\"0\" izz=\"0.000010\" />\n    </inertial>\n    <visual>\n      <origin xyz=\"0 0 0\" rpy=\"0 0 0\" />\n      <geometry>\n        <sphere radius=\""@ == seq!['"', '>'] + light_inertia() + "    <visual>\n      "@ + "<origin xyz=\"0 0 0\" rpy=\"0 0 0\" />"@
            + "\n      <geometry>\n        "@ + "<sphere radius=\""@,
{
    reveal_strlit("\">\n    <inertial>\n      <origin xyz=\"0 0 0\" rpy=\"0 0 0\" />\n      <mass value=\"0.001000\" />\n      <inertia ixx=\"0.000010\" ixy=\"0\" ixz=\"0\" iyy=\"0.000010\" iyz=\"0\" izz=\"0.000010\" />\n    </inertial>\n    <visual>\n      <origin xyz=\"0 0 0\" rpy=\"0 0 0\" />\n      <geometry>\n        <sphere radius=\"");
    reveal_strlit("\n    <inertial>\n      <origin xyz=\"0 0 0\" rpy=\"0 0 0\" />\n      <mass value=\"0.001000\" />\n      <inertia ixx=\"0.000010\" ixy=\"0\" ixz=\"0\" iyy=\"0.000010\" iyz=\"0\" izz=\"0.000010\" />\n    </inertial>\n");
    reveal_strlit("    <visual>\n      ");
    reveal_strlit("<origin xyz=\"0 0 0\" rpy=\"0 0 0\" />");
    reveal_strlit("\n      <geometry>\n        ");
    reveal_strlit("<sphere radius=\"");
    assert("\">\n    <inertial>\n      <origin xyz=\"0 0 0\" rpy=\"0 0 0\" />\n      <mass value=\"0.001000\" />\n      <inertia ixx=\"0.000010\" ixy=\"0\" ixz=\"0\" iyy=\"0.000010\" iyz=\"0\" izz=\"0.000010\" />\n    </inertial>\n    <visual>\n      <origin xyz=\"0 0 0\" rpy=\"0 0 0\" />\n      <geometry>\n        <sphere radius=\""@ =~= seq!['"', '>'] + light_inertia() + "    <visual>\n      "@ + "<origin xyz=\"0 0 0\" rpy=\"0 0 0\" />"@
        + "\n      <geometry>\n        "@ + "<sphere radius=\""@);
}

proof fn lemma_second_part()
    ensures
        "\" />\n      </material>\n    </visual>\n    <collision>\n      <origin xyz=\"0 0 0\" rpy=\"0 0 0\" />\n      <geometry>\n        <sphere radius=\""@ == seq!['"', ' ', '/', '>']
            + "\n      </material>\n    </visual>\n    <collision>\n      "@ + "<origin xyz=\"0 0 0\" rpy=\"0 0 0\" />"@
            + "\n      <geometry>\n        "@ + "<sphere radius=\""@,
{
    reveal_strlit("\" />\n      </material>\n    </visual>\n    <collision>\n      <origin xyz=\"0 0 0\" rpy=\"0 0 0\" />\n      <geometry>\n        <sphere radius=\"");
    reveal_strlit("\n      </material>\n    </visual>\n    <collision>\n      ");
    reveal_strlit("<origin xyz=\"0 0 0\" rpy=\"0 0 0\" />");
    reveal_strlit("\n      <geometry>\n        ");
    reveal_strlit("<sphere radius=\"");
    assert("\" />\n      </material>\n    </visual>\n    <collision>\n      <origin xyz=\"0 0 0\" rpy=\"0 0 0\" />\n      <geometry>\n        <sphere radius=\""@ =~= seq!['"', ' ', '/', '>']
        + "\n      </material>\n    </visual>\n    <collision>\n      "@ + "<origin xyz=\"0 0 0\" rpy=\"0 0 0\" />"@
        + "\n      <geometry>\n        "@ + "<sphere radius=\""@);
}

proof fn lemma_small_parts()
    ensures
        "  <link name=\""@ == "  "@ + "<link name=\""@,
        "\" />\n      </geometry>\n      <material name=\"color_"@ == seq!['"', ' ', '/', '>']
            + "\n      </geometry>\n      "@ + "<material name=\""@ + "color_"@,
        "\">\n        <color rgba=\""@ == seq!['"', '>'] + "\n        "@ + "<color rgba=\""@,
        "\" />\n      </geometry>\n"@ == seq!['"', ' ', '/', '>'] + "\n      </geometry>\n"@,
        "    </collision>\n  </link>\n"@ == "    </collision>\n  </link>"@ + "\n"@,
{
    reveal_strlit("  <link name=\"");
    reveal_strlit("  ");
    reveal_strlit("<link name=\"");
    assert("  <link name=\""@ =~= "  "@ + "<link name=\""@);
    reveal_strlit("\" />\n      </geometry>\n      <material name=\"color_");
    reveal_strlit("\n      </geometry>\n      ");
    reveal_strlit("<material name=\"");
    reveal_strlit("color_");
    assert("\" />\n      </geometry>\n      <material name=\"color_"@ =~= seq!['"', ' ', '/', '>']
        + "\n      </geometry>\n      "@ + "<material name=\""@ + "color_"@);
    reveal_strlit("\">\n        <color rgba=\"");
    reveal_strlit("\n        ");
    reveal_strlit("<color rgba=\"");
    assert("\">\n        <color rgba=\""@ =~= seq!['"', '>'] + "\n        "@ + "<color rgba=\""@);
    reveal_strlit("\" />\n      </geometry>\n");
    reveal_strlit("\n      </geometry>\n");
    assert("\" />\n      </geometry>\n"@ =~= seq!['"', ' ', '/', '>'] + "\n      </geometry>\n"@);
    reveal_strlit("    </collision>\n  </link>\n");
    reveal_strlit("    </collision>\n  </link>");
    reveal_strlit("\n");
    assert("    </collision>\n  </link>\n"@ =~= "    </collision>\n  </link>"@ + "\n"@);
}

proof fn lemma_link_heads(n: Seq<char>, radius: Seq<char>, rgba: Seq<char>)
    ensures
        open_tag("link"@, seq![("name"@, n)]) == "<link name=\""@ + n + seq!['"', '>'],
        empty_tag("sphere"@, seq![("radius"@, radius)]) == "<sphere radius=\""@ + radius + seq![
            '"',
            ' ',
            '/',
            '>',
        ],
        open_tag("material"@, seq![("name"@, "color_"@ + n)]) == "<material name=\""@ + ("color_"@
            + n) + seq!['"', '>'],
        empty_tag("color"@, seq![("rgba"@, rgba)]) == "<color rgba=\""@ + rgba + seq![
            '"',
            ' ',
            '/',
            '>',
        ],
{
    lemma_one_attribute("link"@, "name"@, n);
    lemma_one_attribute("sphere"@, "radius"@, radius);
    lemma_one_attribute("material"@, "name"@, "color_"@ + n);
    lemma_one_attribute("color"@, "rgba"@, rgba);
    reveal_strlit("<link name=\"");
    reveal_strlit("link");
    reveal_strlit("name");
    assert(seq!['<'] + "link"@ + seq![' '] + "name"@ + seq!['=', '"'] =~= "<link name=\""@);
    reveal_strlit("<sphere radius=\"");
    reveal_strlit("sphere");
    reveal_strlit("radius");
    assert(seq!['<'] + "sphere"@ + seq![' '] + "radius"@ + seq!['=', '"'] =~= "<sphere radius=\""@);
    reveal_strlit("<material name=\"");
    reveal_strlit("material");
    assert(seq!['<'] + "material"@ + seq![' '] + "name"@ + seq!['=', '"'] =~= "<material name=\""@);
    reveal_strlit("<color rgba=\"");
    reveal_strlit("color");
    reveal_strlit("rgba");
    assert(seq!['<'] + "color"@ + seq![' '] + "rgba"@ + seq!['=', '"'] =~= "<color rgba=\""@);
}

/// How the parts of the link of a sphere are grouped.
proof fn lemma_link_parts(
    pre: Seq<char>,
    h: Seq<char>,
    n: Seq<char>,
    q: Seq<char>,
    a: Seq<char>,
    b: Seq<char>,
    o: Seq<char>,
    c: Seq<char>,
    sp: Seq<char>,
    r: Seq<char>,
    z: Seq<char>,
    d: Seq<char>,
    m: Seq<char>,
    cn: Seq<char>,
    e: Seq<char>,
    co: Seq<char>,
    g: Seq<char>,
    f: Seq<char>,
    k: Seq<char>,
    dr: Seq<char>,
    l: Seq<char>,
    end: Seq<char>,
)
    ensures
        (pre + h) + n + (q + a + b + o + c + sp) + r + (z + d + m + cn) + n + (q + e + co) + g + (z
            + f + o + c + sp) + r + (z + k) + dr + (l + end) == pre + ((h + n + q) + a + b + o + c
            + (sp + r + z) + d + (m + (cn + n) + q) + e + (co + g + z) + f + o + c + (sp + r + z) + k
            + dr + l) + end,
{
    lemma_cat(seq![pre, h]);
    lemma_cat(seq![q, a, b, o, c, sp]);
    lemma_cat(seq![z, d, m, cn]);
    lemma_cat(seq![q, e, co]);
    lemma_cat(seq![z, f, o, c, sp]);
    lemma_cat(seq![z, k]);
    lemma_cat(seq![l, end]);
    lemma_cat(seq![h, n, q]);
    lemma_cat(seq![sp, r, z]);
    lemma_cat(seq![cn, n]);
    lemma_cat(seq![co, g, z]);
    lemma_cat(seq![m, cn + n, q]);
    let u0 = seq![pre, h].push(n);
    let u1 = u0 + seq![q, a, b, o, c, sp];
    let u2 = u1.push(r) + seq![z, d, m, cn];
    let u3 = u2.push(n) + seq![q, e, co];
    let u4 = u3.push(g) + seq![z, f, o, c, sp];
    let u5 = u4.push(r) + seq![z, k];
    let u6 = u5.push(dr) + seq![l, end];
    lemma_cat_push(seq![pre, h], n);
    lemma_cat_concat(u0, seq![q, a, b, o, c, sp]);
    lemma_cat_push(u1, r);
    lemma_cat_concat(u1.push(r), seq![z, d, m, cn]);
    lemma_cat_push(u2, n);
    lemma_cat_concat(u2.push(n), seq![q, e, co]);
    lemma_cat_push(u3, g);
    lemma_cat_concat(u3.push(g), seq![z, f, o, c, sp]);
    lemma_cat_push(u4, r);
    lemma_cat_concat(u4.push(r), seq![z, k]);
    lemma_cat_push(u5, dr);
    lemma_cat_concat(u5.push(dr), seq![l, end]);
    let v0 = seq![h, n, q].push(a).push(b).push(o).push(c);
    let v1 = v0 + seq![sp, r, z];
    let v2 = v1.push(d) + seq![m, cn + n, q];
    let v3 = v2.push(e) + seq![co, g, z];
    let v4 = v3.push(f).push(o).push(c) + seq![sp, r, z];
    let v5 = v4.push(k).push(dr).push(l);
    lemma_cat_push(seq![h, n, q], a);
    lemma_cat_push(seq![h, n, q].push(a), b);
    lemma_cat_push(seq![h, n, q].push(a).push(b), o);
    lemma_cat_push(seq![h, n, q].push(a).push(b).push(o), c);
    lemma_cat_concat(v0, seq![sp, r, z]);
    lemma_cat_push(v1, d);
    lemma_cat_concat(v1.push(d), seq![m, cn + n, q]);
    lemma_cat_push(v2, e);
    lemma_cat_concat(v2.push(e), seq![co, g, z]);
    lemma_cat_push(v3, f);
    lemma_cat_push(v3.push(f), o);
    lemma_cat_push(v3.push(f).push(o), c);
    lemma_cat_concat(v3.push(f).push(o).push(c), seq![sp, r, z]);
    lemma_cat_push(v4, k);
    lemma_cat_push(v4.push(k), dr);
    lemma_cat_push(v4.push(k).push(dr), l);
    lemma_cat(seq![pre]);
    lemma_cat_concat(seq![pre], v5);
    lemma_cat_push(seq![pre] + v5, end);
    // Both sides are the same parts in a row, but for one that the second groups once more.
    let w1 = seq![pre] + v0 + seq![sp, r, z].push(d).push(m);
    let w2 = seq![q].push(e) + seq![co, g, z] + seq![f, o, c] + seq![sp, r, z] + seq![k, dr, l]
        + seq![end];
    assert(u6 =~= w1 + seq![cn, n] + w2);
    assert((seq![pre] + v5).push(end) =~= w1 + seq![cn + n] + w2);
    lemma_cat_concat(w1, seq![cn, n]);
    lemma_cat_concat(w1 + seq![cn, n], w2);
    lemma_cat(seq![cn + n]);
    lemma_cat_concat(w1, seq![cn + n]);
    lemma_cat_concat(w1 + seq![cn + n], w2);
}

/// The texts, one after the other.
spec fn cat(parts: Seq<Seq<char>>) -> Seq<char>
    decreases parts.len(),
{
    if parts.len() == 0 {
        Seq::empty()
    } else {
        cat(parts.drop_last()) + parts.last()
    }
}

proof fn lemma_cat_push(parts: Seq<Seq<char>>, x: Seq<char>)
    ensures
        cat(parts.push(x)) == cat(parts) + x,
{
    assert(parts.push(x).drop_last() =~= parts);
}

proof fn lemma_cat_concat(a: Seq<Seq<char>>, b: Seq<Seq<char>>)
    ensures
        cat(a + b) == cat(a) + cat(b),
    decreases b.len(),
{
    if b.len() == 0 {
        assert(a + b =~= a);
        assert(cat(a) + cat(b) =~= cat(a));
    } else {
        lemma_cat_concat(a, b.drop_last());
        assert((a + b).drop_last() =~= a + b.drop_last());
        assert(cat(a + b) =~= cat(a) + cat(b));
    }
}

/// A few texts, written out.
proof fn lemma_cat(p: Seq<Seq<char>>)
    ensures
        p.len() == 1 ==> cat(p) == p[0],
        p.len() == 2 ==> cat(p) == p[0] + p[1],
        p.len() == 3 ==> cat(p) == p[0] + p[1] + p[2],
        p.len() == 4 ==> cat(p) == p[0] + p[1] + p[2] + p[3],
        p.len() == 5 ==> cat(p) == p[0] + p[1] + p[2] + p[3] + p[4],
        p.len() == 6 ==> cat(p) == p[0] + p[1] + p[2] + p[3] + p[4] + p[5],
    decreases p.len(),
{
    if 1 < p.len() <= 6 {
        lemma_cat(p.drop_last());
    } else if p.len() == 1 {
        assert(cat(p.drop_last()) =~= Seq::<char>::empty());
        assert(cat(p) =~= p[0]);
    }
}

/// The link of a sphere has its name, its radius and its color; it collides as it looks.
pub proof fn links_have_the_radius_of_their_sphere(
    name: Seq<char>,
    radius: Seq<char>,
    rgba: Seq<char>,
    drake: Option<Seq<char>>,
)
    ensures
        assemble::sphere_link_text(name, radius, rgba, drake) == "  "@ + link_element(
            assemble::escaped(name),
            radius,
            rgba,
            drake,
        ) + "\n"@,
{
    let n = assemble::escaped(name);
    lemma_origin();
    lemma_first_part();
    lemma_second_part();
    lemma_small_parts();
    lemma_link_heads(n, radius, rgba);
    let dr = match drake {
        Some(d) => "      "@ + d + "\n"@,
        None => Seq::empty(),
    };
    lemma_link_parts(
        "  "@,
        "<link name=\""@,
        n,
        seq!['"', '>'],
        light_inertia(),
        "    <visual>\n      "@,
        "<origin xyz=\"0 0 0\" rpy=\"0 0 0\" />"@,
        "\n      <geometry>\n        "@,
        "<sphere radius=\""@,
        radius,
        seq!['"', ' ', '/', '>'],
        "\n      </geometry>\n      "@,
        "<material name=\""@,
        "color_"@,
        "\n        "@,
        "<color rgba=\""@,
        rgba,
        "\n      </material>\n    </visual>\n    <collision>\n      "@,
        "\n      </geometry>\n"@,
        dr,
        "    </collision>\n  </link>"@,
        "\n"@,
    );
}

/// Whether `part` stands in the text at `at`.
pub open spec fn stands_in(t: Seq<char>, part: Seq<char>, at: int) -> bool {
    0 <= at && at + part.len() <= t.len() && t.subrange(at, at + part.len()) == part
}

/// Whether the text holds `part`.
pub open spec fn holds(t: Seq<char>, part: Seq<char>) -> bool {
    exists|at: int| stands_in(t, part, at)
}

proof fn lemma_holds(a: Seq<char>, part: Seq<char>, b: Seq<char>)
    ensures
        holds(a + part + b, part),
{
    let t = a + part + b;
    assert(t.subrange(a.len() as int, a.len() as int + part.len()) =~= part);
    assert(stands_in(t, part, a.len() as int));
}

/// What a text holds, a longer one holds too.
proof fn lemma_holds_inside(a: Seq<char>, t: Seq<char>, b: Seq<char>, part: Seq<char>)
    requires
        holds(t, part),
    ensures
        holds(a + t + b, part),
{
    let at = choose|at: int| stands_in(t, part, at);
    let all = a + t + b;
    assert(all.subrange(a.len() + at, a.len() + at + part.len()) =~= t.subrange(
        at,
        at + part.len(),
    ));
    assert(stands_in(all, part, a.len() + at));
}

/// The name of the link of sphere `k`.
pub open spec fn child_name(link: Seq<char>, k: int) -> Seq<char> {
    link + "_sphere"@ + text::decimal((k + 1) as nat)
}

/// The joint that puts sphere `k` in place.
pub open spec fn joint_of(link: Seq<char>, s: SphereView, k: int) -> Seq<char> {
    joint_element(
        assemble::escaped(link),
        assemble::escaped(child_name(link, k)),
        s.at.x + " "@ + s.at.y + " "@ + s.at.z,
    )
}

/// The link of sphere `k`.
pub open spec fn link_of(
    link: Seq<char>,
    s: SphereView,
    rgba: Seq<char>,
    drake: Option<Seq<char>>,
    k: int,
) -> Seq<char> {
    link_element(assemble::escaped(child_name(link, k)), s.radius, rgba, drake)
}

/// The joints of the spheres are one for each sphere, in their order, and nothing else; so
/// are their links.
pub proof fn every_sphere_has_one_joint_and_one_link(
    link: Seq<char>,
    spheres: Seq<SphereView>,
    rgba: Seq<char>,
    drake: Option<Seq<char>>,
    n: int,
)
    requires
        0 <= n < spheres.len(),
    ensures
        assemble::sphere_joints(link, spheres, 0) == Seq::<char>::empty(),
        assemble::sphere_links(link, spheres, rgba, drake, 0) == Seq::<char>::empty(),
        assemble::sphere_joints(link, spheres, n + 1) == assemble::sphere_joints(link, spheres, n)
            + ("  "@ + joint_of(link, spheres[n], n) + "\n"@),
        assemble::sphere_links(link, spheres, rgba, drake, n + 1) == assemble::sphere_links(
            link,
            spheres,
            rgba,
            drake,
            n,
        ) + ("  "@ + link_of(link, spheres[n], rgba, drake, n) + "\n"@),
{
    joints_put_links_in_place(link, assemble::sphere_name(link, n), spheres[n].at);
    links_have_the_radius_of_their_sphere(
        assemble::sphere_name(link, n),
        spheres[n].radius,
        rgba,
        drake,
    );
}

/// The joints and links of the first `n` spheres hold those of sphere `k`.
proof fn lemma_spheres_hold(
    link: Seq<char>,
    spheres: Seq<SphereView>,
    rgba: Seq<char>,
    drake: Option<Seq<char>>,
    n: int,
    k: int,
)
    requires
        0 <= k < n <= spheres.len(),
    ensures
        holds(assemble::sphere_joints(link, spheres, n), joint_of(link, spheres[k], k)),
        holds(
            assemble::sphere_links(link, spheres, rgba, drake, n),
            link_of(link, spheres[k], rgba, drake, k),
        ),
    decreases n,
{
    every_sphere_has_one_joint_and_one_link(link, spheres, rgba, drake, n - 1);
    let js = assemble::sphere_joints(link, spheres, n - 1);
    let ls = assemble::sphere_links(link, spheres, rgba, drake, n - 1);
    let j = joint_of(link, spheres[n - 1], n - 1);
    let l = link_of(link, spheres[n - 1], rgba, drake, n - 1);
    if k == n - 1 {
        lemma_holds("  "@, j, "\n"@);
        lemma_holds("  "@, l, "\n"@);
        lemma_holds_inside(js, "  "@ + j + "\n"@, Seq::empty(), j);
        lemma_holds_inside(ls, "  "@ + l + "\n"@, Seq::empty(), l);
        assert(js + ("  "@ + j + "\n"@) + Seq::<char>::empty() =~= js + ("  "@ + j + "\n"@));
        assert(ls + ("  "@ + l + "\n"@) + Seq::<char>::empty() =~= ls + ("  "@ + l + "\n"@));
    } else {
        lemma_spheres_hold(link, spheres, rgba, drake, n - 1, k);
        let e = Seq::<char>::empty();
        lemma_holds_inside(e, js, "  "@ + j + "\n"@, joint_of(link, spheres[k], k));
        lemma_holds_inside(e, ls, "  "@ + l + "\n"@, link_of(link, spheres[k], rgba, drake, k));
        assert(e + js + ("  "@ + j + "\n"@) =~= js + ("  "@ + j + "\n"@));
        assert(e + ls + ("  "@ + l + "\n"@) =~= ls + ("  "@ + l + "\n"@));
    }
}

/// Whether an edit holds the joint and the link of every one of the spheres.
pub open spec fn edit_holds(
    e: EditView,
    link: Seq<char>,
    spheres: Seq<SphereView>,
    rgba: Seq<char>,
    drake: Option<Seq<char>>,
) -> bool {
    forall|k: int|
        0 <= k < spheres.len() ==> holds(e.joints, joint_of(link, #[trigger] spheres[k], k))
            && holds(e.links, link_of(link, spheres[k], rgba, drake, k))
}

/// Whether an edit comes from another by adding to its links, joints and cuts.
pub open spec fn extends(e: EditView, m: EditView) -> bool {
    &&& e.joints.is_prefix_of(m.joints)
    &&& e.links.is_prefix_of(m.links)
    &&& e.cuts.is_prefix_of(m.cuts)
}

proof fn lemma_extends_holds(
    e: EditView,
    m: EditView,
    link: Seq<char>,
    spheres: Seq<SphereView>,
    rgba: Seq<char>,
    drake: Option<Seq<char>>,
)
    requires
        extends(e, m),
        edit_holds(e, link, spheres, rgba, drake),
    ensures
        edit_holds(m, link, spheres, rgba, drake),
{
    assert forall|k: int| 0 <= k < spheres.len() implies holds(
        m.joints,
        joint_of(link, #[trigger] spheres[k], k),
    ) && holds(m.links, link_of(link, spheres[k], rgba, drake, k)) by {
        let x = Seq::<char>::empty();
        let js = m.joints.skip(e.joints.len() as int);
        let ls = m.links.skip(e.links.len() as int);
        lemma_holds_inside(x, e.joints, js, joint_of(link, spheres[k], k));
        lemma_holds_inside(x, e.links, ls, link_of(link, spheres[k], rgba, drake, k));
        assert(x + e.joints + js =~= m.joints);
        assert(x + e.links + ls =~= m.links);
    }
}

proof fn lemma_extends_trans(a: EditView, b: EditView, c: EditView)
    requires
        extends(a, b),
        extends(b, c),
    ensures
        extends(a, c),
{
    assert(c.joints.subrange(0, a.joints.len() as int) =~= b.joints.subrange(
        0,
        a.joints.len() as int,
    )) by {
        assert(c.joints.subrange(0, b.joints.len() as int) == b.joints);
        assert forall|i: int| 0 <= i < a.joints.len() implies c.joints[i] == b.joints[i] by {
            assert(c.joints.subrange(0, b.joints.len() as int)[i] == c.joints[i]);
        }
    }
    assert(c.links.subrange(0, a.links.len() as int) =~= b.links.subrange(
        0,
        a.links.len() as int,
    )) by {
        assert(c.links.subrange(0, b.links.len() as int) == b.links);
        assert forall|i: int| 0 <= i < a.links.len() implies c.links[i] == b.links[i] by {
            assert(c.links.subrange(0, b.links.len() as int)[i] == c.links[i]);
        }
    }
    assert(c.cuts.subrange(0, a.cuts.len() as int) =~= b.cuts.subrange(0, a.cuts.len() as int)) by {
        assert(c.cuts.subrange(0, b.cuts.len() as int) == b.cuts);
        assert forall|i: int| 0 <= i < a.cuts.len() implies c.cuts[i] == b.cuts[i] by {
            assert(c.cuts.subrange(0, b.cuts.len() as int)[i] == c.cuts[i]);
        }
    }
}

proof fn lemma_extends_self(e: EditView, m: EditView)
    requires
        e.joints == m.joints,
        e.links == m.links,
        e.cuts == m.cuts,
    ensures
        extends(e, m),
{
    assert(m.joints.subrange(0, e.joints.len() as int) =~= e.joints);
    assert(m.links.subrange(0, e.links.len() as int) =~= e.links);
    assert(m.cuts.subrange(0, e.cuts.len() as int) =~= e.cuts);
}

proof fn lemma_item_extends(
    scene: Scene,
    e: EditView,
    link: Seq<char>,
    colls: Seq<int>,
    item: ItemView,
)
    ensures
        assemble::with_item(scene, e, link, colls, item) matches Ok(m) ==> extends(e, m),
{
    if let Ok(m) = assemble::with_item(scene, e, link, colls, item) {
        assert(m.joints.subrange(0, e.joints.len() as int) =~= e.joints);
        assert(m.links.subrange(0, e.links.len() as int) =~= e.links);
        assert(m.cuts.subrange(0, e.cuts.len() as int) =~= e.cuts);
    }
}

proof fn lemma_items_extend(
    scene: Scene,
    e: EditView,
    link: Seq<char>,
    colls: Seq<int>,
    items: Seq<ItemView>,
)
    ensures
        assemble::with_items(scene, e, link, colls, items) matches Ok(m) ==> extends(e, m),
    decreases items.len(),
{
    if items.len() == 0 {
        lemma_extends_self(e, e);
    } else {
        lemma_items_extend(scene, e, link, colls, items.drop_last());
        if let Ok(m) = assemble::with_items(scene, e, link, colls, items.drop_last()) {
            lemma_item_extends(scene, m, link, colls, items.last());
            if let Ok(x) = assemble::with_item(scene, m, link, colls, items.last()) {
                lemma_extends_trans(e, m, x);
            }
        }
    }
}

proof fn lemma_skips_extend(e: EditView, link: Seq<char>, items: Seq<ItemView>, reason: Seq<char>)
    ensures
        assemble::with_skips(e, link, items, reason).joints == e.joints,
        assemble::with_skips(e, link, items, reason).links == e.links,
        assemble::with_skips(e, link, items, reason).cuts == e.cuts,
    decreases items.len(),
{
    if items.len() > 0 {
        lemma_skips_extend(e, link, items.drop_last(), reason);
    }
}

pub proof fn lemma_group_extends(
    scene: Scene,
    e: EditView,
    links: Seq<int>,
    name: Seq<char>,
    items: Seq<ItemView>,
)
    ensures
        assemble::with_group(scene, e, links, name, items) matches Ok(m) ==> extends(e, m),
{
    match assemble::link_named(scene.nodes, links, name, 0) {
        None => {
            let reason = "link <"@ + name + "> not found in URDF"@;
            lemma_skips_extend(e, name, items, reason);
            lemma_extends_self(e, assemble::with_skips(e, name, items, reason));
        },
        Some(l) => {
            let colls = xml::children_of(scene.nodes, l, "collision"@);
            let fresh = EditView { changed: false, ..e };
            lemma_items_extend(scene, fresh, name, colls, assemble::highest_first(items));
            if let Ok(m) = assemble::with_items(
                scene,
                fresh,
                name,
                colls,
                assemble::highest_first(items),
            ) {
                assert(extends(fresh, m));
            }
        },
    }
}

/// The collision that an item replaces, and by which spheres.
pub open spec fn is_replaced(
    scene: Scene,
    link: Seq<char>,
    colls: Seq<int>,
    item: ItemView,
    spheres: Seq<SphereView>,
) -> bool {
    &&& item.action is Pack
    &&& item.link_name == link
    &&& 0 <= item.collision_index < colls.len()
    &&& (scene.found)(link, item.collision_index) == Ok::<Option<Seq<SphereView>>, ErrorView>(
        Some(spheres),
    )
}

/// Going through items that hold one that is replaced adds its spheres.
proof fn lemma_items_replace(
    scene: Scene,
    e: EditView,
    link: Seq<char>,
    colls: Seq<int>,
    items: Seq<ItemView>,
    item: ItemView,
    spheres: Seq<SphereView>,
)
    requires
        items.contains(item),
        is_replaced(scene, link, colls, item, spheres),
    ensures
        assemble::with_items(scene, e, link, colls, items) matches Ok(m) ==> edit_holds(
            m,
            link,
            spheres,
            (scene.color)(link),
            assemble::drake_of(scene.s, scene.nodes, scene.bound, colls[item.collision_index]),
        ),
    decreases items.len(),
{
    let f = items.drop_last();
    let rgba = (scene.color)(link);
    let drake = assemble::drake_of(
        scene.s,
        scene.nodes,
        scene.bound,
        colls[item.collision_index],
    );
    if let Ok(m) = assemble::with_items(scene, e, link, colls, f) {
        if let Ok(x) = assemble::with_item(scene, m, link, colls, items.last()) {
            if items.last() == item {
                assert forall|k: int| 0 <= k < spheres.len() implies holds(
                    x.joints,
                    joint_of(link, #[trigger] spheres[k], k),
                ) && holds(x.links, link_of(link, spheres[k], rgba, drake, k)) by {
                    let n = spheres.len() as int;
                    let none = Seq::<char>::empty();
                    lemma_spheres_hold(link, spheres, rgba, drake, n, k);
                    let js = assemble::sphere_joints(link, spheres, n);
                    let ls = assemble::sphere_links(link, spheres, rgba, drake, n);
                    lemma_holds_inside(m.joints, js, none, joint_of(link, spheres[k], k));
                    lemma_holds_inside(
                        m.links,
                        ls,
                        none,
                        link_of(link, spheres[k], rgba, drake, k),
                    );
                    assert(m.joints + js + none =~= m.joints + js);
                    assert(m.links + ls + none =~= m.links + ls);
                }
            } else {
                let i = choose|i: int| 0 <= i < items.len() && items[i] == item;
                assert(f[i] == item);
                assert(f.contains(item));
                lemma_items_replace(scene, e, link, colls, f, item, spheres);
                lemma_item_extends(scene, m, link, colls, items.last());
                lemma_extends_holds(m, x, link, spheres, rgba, drake);
            }
        }
    }
}

proof fn lemma_insert_contains(v: Seq<ItemView>, x: ItemView, y: ItemView)
    ensures
        assemble::insert_item(v, x).contains(y) <==> v.contains(y) || x == y,
    decreases v.len(),
{
    let all = assemble::insert_item(v, x);
    if v.len() == 0 || v.last().collision_index >= x.collision_index {
        assert(all == v.push(x));
        assert(all[v.len() as int] == x);
        if v.contains(y) {
            let i = choose|i: int| 0 <= i < v.len() && v[i] == y;
            assert(all[i] == y);
        }
    } else {
        let f = v.drop_last();
        lemma_insert_contains(f, x, y);
        let g = assemble::insert_item(f, x);
        assert(all == g.push(v.last()));
        assert(all[g.len() as int] == v.last());
        assert(v[v.len() - 1] == v.last());
        if g.contains(y) {
            let i = choose|i: int| 0 <= i < g.len() && g[i] == y;
            assert(all[i] == y);
        }
        if f.contains(y) {
            let i = choose|i: int| 0 <= i < f.len() && f[i] == y;
            assert(v[i] == y);
        }
        if v.contains(y) && y != v.last() {
            let i = choose|i: int| 0 <= i < v.len() && v[i] == y;
            assert(f[i] == y);
        }
        if all.contains(y) && y != v.last() {
            let i = choose|i: int| 0 <= i < all.len() && all[i] == y;
            assert(g[i] == y);
        }
    }
}

/// The items of a link are gone through from the highest collision index to the lowest, each
/// of them and no other.
pub proof fn items_are_gone_through_from_the_end(items: Seq<ItemView>)
    ensures
        assemble::highest_first(items).len() == items.len(),
        forall|x: ItemView| #[trigger]
            assemble::highest_first(items).contains(x) <==> items.contains(x),
        forall|i: int, j: int|
            0 <= i < j < items.len() ==> (#[trigger] assemble::highest_first(
                items,
            )[i]).collision_index >= (#[trigger] assemble::highest_first(items)[j]).collision_index,
    decreases items.len(),
{
    if items.len() > 0 {
        let f = items.drop_last();
        let x = items.last();
        items_are_gone_through_from_the_end(f);
        let front = assemble::highest_first(f);
        let all = assemble::highest_first(items);
        lemma_insert_ordered(front, x);
        assert forall|y: ItemView| #[trigger] all.contains(y) <==> items.contains(y) by {
            lemma_insert_contains(front, x, y);
            assert(items[items.len() - 1] == x);
            if f.contains(y) {
                let i = choose|i: int| 0 <= i < f.len() && f[i] == y;
                assert(items[i] == y);
            }
            if items.contains(y) && y != x {
                let i = choose|i: int| 0 <= i < items.len() && items[i] == y;
                assert(f[i] == y);
            }
        }
    }
}

proof fn lemma_insert_ordered(v: Seq<ItemView>, x: ItemView)
    requires
        forall|i: int, j: int|
            0 <= i < j < v.len() ==> (#[trigger] v[i]).collision_index >= (
            #[trigger] v[j]).collision_index,
    ensures
        assemble::insert_item(v, x).len() == v.len() + 1,
        forall|i: int, j: int|
            0 <= i < j < v.len() + 1 ==> (#[trigger] assemble::insert_item(
                v,
                x,
            )[i]).collision_index >= (#[trigger] assemble::insert_item(v, x)[j]).collision_index,
    decreases v.len(),
{
    if !(v.len() == 0 || v.last().collision_index >= x.collision_index) {
        let f = v.drop_last();
        lemma_insert_ordered(f, x);
        let g = assemble::insert_item(f, x);
        assert forall|i: int| 0 <= i < g.len() implies (#[trigger] g[i]).collision_index
            >= v.last().collision_index by {
            lemma_insert_contains(f, x, g[i]);
            assert(g.contains(g[i]));
            if f.contains(g[i]) {
                let k = choose|k: int| 0 <= k < f.len() && f[k] == g[i];
                assert(v[k].collision_index >= v[v.len() - 1].collision_index);
            }
        }
    }
}

proof fn lemma_groups_extend(
    scene: Scene,
    e: EditView,
    links: Seq<int>,
    items: Seq<ItemView>,
    names: Seq<Seq<char>>,
)
    ensures
        assemble::with_groups(scene, e, links, items, names) matches Ok(m) ==> extends(e, m),
    decreases names.len(),
{
    if names.len() == 0 {
        lemma_extends_self(e, e);
    } else {
        lemma_groups_extend(scene, e, links, items, names.drop_last());
        if let Ok(m) = assemble::with_groups(scene, e, links, items, names.drop_last()) {
            let group = items.filter(assemble::of_link(names.last()));
            lemma_group_extends(scene, m, links, names.last(), group);
            if let Ok(x) = assemble::with_group(scene, m, links, names.last(), group) {
                lemma_extends_trans(e, m, x);
            }
        }
    }
}

/// Going through links that hold the one of an item that is replaced adds its spheres.
proof fn lemma_groups_replace(
    scene: Scene,
    e: EditView,
    links: Seq<int>,
    items: Seq<ItemView>,
    names: Seq<Seq<char>>,
    item: ItemView,
    l: int,
    spheres: Seq<SphereView>,
)
    requires
        items.contains(item),
        names.contains(item.link_name),
        assemble::link_named(scene.nodes, links, item.link_name, 0) == Some(l),
        is_replaced(
            scene,
            item.link_name,
            xml::children_of(scene.nodes, l, "collision"@),
            item,
            spheres,
        ),
    ensures
        assemble::with_groups(scene, e, links, items, names) matches Ok(m) ==> edit_holds(
            m,
            item.link_name,
            spheres,
            (scene.color)(item.link_name),
            assemble::drake_of(
                scene.s,
                scene.nodes,
                scene.bound,
                xml::children_of(scene.nodes, l, "collision"@)[item.collision_index],
            ),
        ),
    decreases names.len(),
{
    let f = names.drop_last();
    let name = item.link_name;
    let colls = xml::children_of(scene.nodes, l, "collision"@);
    let rgba = (scene.color)(name);
    let drake = assemble::drake_of(
        scene.s,
        scene.nodes,
        scene.bound,
        colls[item.collision_index],
    );
    if let Ok(m) = assemble::with_groups(scene, e, links, items, f) {
        let group = items.filter(assemble::of_link(names.last()));
        if let Ok(x) = assemble::with_group(scene, m, links, names.last(), group) {
            if names.last() == name {
                let at = choose|at: int| 0 <= at < items.len() && items[at] == item;
                items.lemma_filter_contains(assemble::of_link(name), at);
                items_are_gone_through_from_the_end(group);
                let fresh = EditView { changed: false, ..m };
                lemma_items_replace(
                    scene,
                    fresh,
                    name,
                    colls,
                    assemble::highest_first(group),
                    item,
                    spheres,
                );
            } else {
                let i = choose|i: int| 0 <= i < names.len() && names[i] == name;
                assert(f[i] == name);
                assert(f.contains(name));
                lemma_groups_replace(scene, e, links, items, f, item, l, spheres);
                lemma_group_extends(scene, m, links, names.last(), group);
                lemma_extends_holds(m, x, name, spheres, rgba, drake);
            }
        }
    }
}

pub proof fn lemma_names_hold(items: Seq<ItemView>, i: int)
    requires
        0 <= i < items.len(),
    ensures
        assemble::group_names(items).contains(items[i].link_name),
    decreases items.len(),
{
    let f = items.drop_last();
    let front = assemble::group_names(f);
    let all = assemble::group_names(items);
    if i < f.len() {
        lemma_names_hold(f, i);
        let k = choose|k: int| 0 <= k < front.len() && front[k] == f[i].link_name;
        assert(all[k] == items[i].link_name);
    } else if !front.contains(items.last().link_name) {
        assert(all[all.len() - 1] == items[i].link_name);
    }
}

/// The text that the edits make holds the new links and joints.
proof fn lemma_assembled_holds(s: Seq<char>, root: NodeView, e: EditView, part: Seq<char>)
    requires
        holds(e.links, part) || holds(e.joints, part),
    ensures
        holds(assemble::assembled(s, root, e), part),
{
    let none = Seq::<char>::empty();
    let additions = e.links + e.joints;
    if holds(e.links, part) {
        lemma_holds_inside(none, e.links, e.joints, part);
        assert(none + e.links + e.joints =~= additions);
    } else {
        lemma_holds_inside(e.links, e.joints, none, part);
        assert(e.links + e.joints + none =~= additions);
    }
    let cuts = assemble::sorted_cuts(e.cuts);
    let at = assemble::insert_point(s, root)->0;
    let body = assemble::declaration(s) + assemble::kept(s, cuts) + s.subrange(
        assemble::cut_end(cuts),
        at,
    );
    if assemble::closes_itself(s, root) {
        let rest = "</robot>"@ + s.skip(assemble::span_of(s, root).1);
        lemma_holds_inside(body + ">\n"@, additions, rest, part);
        assert(body + ">\n"@ + additions + rest =~= assemble::assembled(s, root, e));
    } else {
        let gap = if additions.len() > 0 && (body.len() == 0 || body.last() != '\n') {
            seq!['\n']
        } else {
            Seq::empty()
        };
        lemma_holds_inside(body + gap, additions, s.skip(at), part);
        assert(body + gap + additions + s.skip(at) =~= assemble::assembled(s, root, e));
    }
}

/// The first link of the document with the name, among those below its root.
pub open spec fn link_node(scene: Scene, name: Seq<char>) -> Option<int> {
    let root = xml::root_of(scene.nodes)->0;
    let links = xml::select(scene.nodes.len(), assemble::is_any_link(scene.nodes, root));
    assemble::link_named(scene.nodes, links, name, 0)
}

/// A rewritten URDF holds, for every sphere of a collision that is replaced, a fixed joint
/// from the link of the collision that puts a link of its own at the sphere's center; and
/// that link, with the sphere's radius.
pub proof fn every_sphere_is_put_in_its_place(
    scene: Scene,
    items: Seq<ItemView>,
    item: ItemView,
    l: int,
    spheres: Seq<SphereView>,
    k: int,
)
    requires
        items.contains(item),
        item.action is Pack,
        link_node(scene, item.link_name) == Some(l),
        0 <= item.collision_index < xml::children_of(scene.nodes, l, "collision"@).len(),
        (scene.found)(item.link_name, item.collision_index) == Ok::<
            Option<Seq<SphereView>>,
            ErrorView,
        >(Some(spheres)),
        0 <= k < spheres.len(),
    ensures
        assemble::rewritten(scene, items) matches Ok((t, _)) ==> {
            &&& holds(t, joint_of(item.link_name, spheres[k], k))
            &&& holds(
                t,
                link_of(
                    item.link_name,
                    spheres[k],
                    (scene.color)(item.link_name),
                    assemble::drake_of(
                        scene.s,
                        scene.nodes,
                        scene.bound,
                        xml::children_of(scene.nodes, l, "collision"@)[item.collision_index],
                    ),
                    k,
                ),
            )
        },
{
    let root = xml::root_of(scene.nodes)->0;
    let links = xml::select(scene.nodes.len(), assemble::is_any_link(scene.nodes, root));
    let acts = assemble::actionable(items);
    let names = assemble::group_names(acts);
    let keep = |c: ItemView| !(c.action is Error);
    let at = choose|at: int| 0 <= at < items.len() && items[at] == item;
    items.lemma_filter_contains(keep, at);
    let i = choose|i: int| 0 <= i < acts.len() && acts[i] == item;
    lemma_names_hold(acts, i);
    lemma_groups_replace(scene, assemble::no_edit(), links, acts, names, item, l, spheres);
    if let Ok(e) = assemble::edited(scene, items) {
        let drake = assemble::drake_of(
            scene.s,
            scene.nodes,
            scene.bound,
            xml::children_of(scene.nodes, l, "collision"@)[item.collision_index],
        );
        assert(edit_holds(e, item.link_name, spheres, (scene.color)(item.link_name), drake));
        lemma_assembled_holds(
            scene.s,
            scene.nodes[root],
            e,
            joint_of(item.link_name, spheres[k], k),
        );
        lemma_assembled_holds(
            scene.s,
            scene.nodes[root],
            e,
            link_of(item.link_name, spheres[k], (scene.color)(item.link_name), drake, k),
        );
    }
}

/// Spheres with different centers get different joints.
pub proof fn different_centers_give_different_joints(
    link: Seq<char>,
    a: SphereView,
    b: SphereView,
    k: int,
)
    requires
        joint_of(link, a, k) == joint_of(link, b, k),
    ensures
        a.at.x + " "@ + a.at.y + " "@ + a.at.z == b.at.x + " "@ + b.at.y + " "@ + b.at.z,
{
    let p = assemble::escaped(link);
    let c = assemble::escaped(child_name(link, k));
    let x = a.at.x + " "@ + a.at.y + " "@ + a.at.z;
    let y = b.at.x + " "@ + b.at.y + " "@ + b.at.z;
    let r = ("rpy"@, "0 0 0"@);
    lemma_attributes(("xyz"@, x), r);
    lemma_attributes(("xyz"@, y), r);
    let head = open_tag("joint"@, seq![("name"@, p + "_to_"@ + c), ("type"@, "fixed"@)])
        + "\n    "@ + empty_tag("parent"@, seq![("link"@, p)]) + "\n    "@ + empty_tag(
        "child"@,
        seq![("link"@, c)],
    ) + "\n    "@;
    let front = head + (seq!['<'] + "origin"@ + (seq![' '] + "xyz"@ + seq!['=', '"']));
    let back = seq!['"'] + markup::attribute_text(r) + seq![' ', '/', '>'] + "\n  </joint>"@;
    lemma_inner(head, x, r);
    lemma_inner(head, y, r);
    let t = front + x + back;
    assert(t.len() == front.len() + x.len() + back.len());
    assert((front + y + back).len() == front.len() + y.len() + back.len());
    assert(t.subrange(front.len() as int, t.len() - back.len()) =~= x);
    assert(t.subrange(front.len() as int, t.len() - back.len()) =~= y);
}

/// Where the coordinates stand in a joint.
proof fn lemma_inner(head: Seq<char>, xyz: Seq<char>, r: (Seq<char>, Seq<char>))
    ensures
        head + empty_tag("origin"@, seq![("xyz"@, xyz), r]) + "\n  </joint>"@ == head + (seq!['<']
            + "origin"@ + (seq![' '] + "xyz"@ + seq!['=', '"'])) + xyz + (seq!['"']
            + markup::attribute_text(r) + seq![' ', '/', '>'] + "\n  </joint>"@),
{
    lemma_attributes(("xyz"@, xyz), r);
    assert(head + empty_tag("origin"@, seq![("xyz"@, xyz), r]) + "\n  </joint>"@ =~= head + (seq![
        '<',
    ] + "origin"@ + (seq![' '] + "xyz"@ + seq!['=', '"'])) + xyz + (seq!['"']
        + markup::attribute_text(r) + seq![' ', '/', '>'] + "\n  </joint>"@));
}

} // verus!
