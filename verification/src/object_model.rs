//! A packed object as a simulator model:
//!
//! - URDF: one link per sphere, each fixed to a light `base` link at its
//!   center relative to the sphere centroid, plus a `morphit:centroid`
//!   comment, which records the centroid so the spheres can be mapped back
//!   into the mesh frame ([`spheres_from_object_urdf`]).
//! - MJCF (MuJoCo XML): a `base` body at the centroid with one sphere body
//!   per sphere; MuJoCo derives mass and inertia from each geom's density.
//!
//! A free (dynamic) object has a floating base; an anchored one is welded to
//! the world (URDF: a `world` link and a fixed joint; MJCF: no free joint).
//!
//! Numbers come in and go out as they are written.

use vstd::prelude::*;

use crate::markup;
use crate::markup::{Item, Piece, Sheet};
use crate::numeral;
use crate::numeral::{Triple, TripleView};
use crate::round_trip;
use crate::text;
use crate::xml;
use crate::xml::{NodeView, XmlNode};
use crate::{Error, ErrorView};

verus! {

/// The radii for `n` spheres: radii beyond the last are equal to it, and the
/// ones that are too many are dropped.
pub open spec fn fitted<T>(radii: Seq<T>, n: nat) -> Seq<T> {
    Seq::new(
        n,
        |i: int|
            if i < radii.len() {
                radii[i]
            } else {
                radii[radii.len() - 1]
            },
    )
}

/// The radii for as many spheres as there are centers: padded with the last
/// value or truncated. An error when there are no centers or no radii.
pub fn load_radii<T: Copy>(centers: usize, radii: &[T]) -> (res: Result<Vec<T>, Error>)
    ensures
        match res {
            Ok(out) => centers > 0 && radii@.len() > 0 && out@ == fitted(radii@, centers as nat),
            Err(e) => (centers == 0 || radii@.len() == 0) && e@ == ErrorView::Invalid(
                "JSON must contain non-empty 'centers' and 'radii' arrays."@,
            ),
        },
{
    if centers == 0 || radii.len() == 0 {
        return Err(
            Error::Invalid(
                String::from_str("JSON must contain non-empty 'centers' and 'radii' arrays."),
            ),
        );
    }
    let mut out: Vec<T> = Vec::new();
    let mut i: usize = 0;
    while i < centers
        invariant
            i <= centers,
            radii@.len() > 0,
            out@.len() == i,
            forall|j: int| 0 <= j < i ==> #[trigger] out@[j] == fitted(radii@, centers as nat)[j],
        decreases centers - i,
    {
        if i < radii.len() {
            out.push(radii[i]);
        } else {
            out.push(radii[radii.len() - 1]);
        }
        i = i + 1;
    }
    assert(out@ =~= fitted(radii@, centers as nat));
    Ok(out)
}

/// A sphere of an object, relative to the centroid.
#[derive(Debug)]
pub struct ObjectSphere {
    pub center: Triple,
    pub radius: String,
    pub mass: String,
    /// URDF: the inertia about every axis.
    pub inertia: String,
    /// MJCF: the density that gives the sphere its mass.
    pub density: String,
}

/// The contents of an [`ObjectSphere`].
pub struct ObjectSphereView {
    pub center: TripleView,
    pub radius: Seq<char>,
    pub mass: Seq<char>,
    pub inertia: Seq<char>,
    pub density: Seq<char>,
}

impl View for ObjectSphere {
    type V = ObjectSphereView;

    open spec fn view(&self) -> ObjectSphereView {
        ObjectSphereView {
            center: self.center@,
            radius: self.radius@,
            mass: self.mass@,
            inertia: self.inertia@,
            density: self.density@,
        }
    }
}

/// The contents of a list of spheres.
pub open spec fn object_spheres(v: Seq<ObjectSphere>) -> Seq<ObjectSphereView> {
    v.map_values(|s: ObjectSphere| s@)
}

/// An object, ready to write.
#[derive(Debug)]
pub struct ObjectParts {
    /// `<robot name>` or `<mujoco model>`.
    pub robot_name: String,
    /// The four color components, with spaces between them.
    pub rgba: String,
    /// URDF: mass and inertia diagonal of the `base` link.
    pub base_mass: String,
    pub base_inertia: String,
    /// Weld the object to the world instead of letting it float.
    pub anchored: bool,
    /// The centroid of the spheres.
    pub centroid: Triple,
    /// The centroid with six decimals, for the comment.
    pub centroid_comment: Triple,
    pub spheres: Vec<ObjectSphere>,
}

/// The contents of an [`ObjectParts`].
pub struct ObjectPartsView {
    pub robot_name: Seq<char>,
    pub rgba: Seq<char>,
    pub base_mass: Seq<char>,
    pub base_inertia: Seq<char>,
    pub anchored: bool,
    pub centroid: TripleView,
    pub centroid_comment: TripleView,
    pub spheres: Seq<ObjectSphereView>,
}

impl View for ObjectParts {
    type V = ObjectPartsView;

    open spec fn view(&self) -> ObjectPartsView {
        ObjectPartsView {
            robot_name: self.robot_name@,
            rgba: self.rgba@,
            base_mass: self.base_mass@,
            base_inertia: self.base_inertia@,
            anchored: self.anchored,
            centroid: self.centroid@,
            centroid_comment: self.centroid_comment@,
            spheres: object_spheres(self.spheres@),
        }
    }
}

/// Three texts in a row.
fn cat3(a: &str, b: &str, c: &str) -> (out: String)
    ensures
        out@ == a@ + b@ + c@,
{
    let mut out = String::from_str(a);
    out.append(b);
    out.append(c);
    out
}

/// A line end and an indentation of one step.
pub open spec fn gap1() -> Item {
    Item::Blank("\n  "@)
}

/// A line end and an indentation of two steps.
pub open spec fn gap2() -> Item {
    Item::Blank("\n    "@)
}

/// A line end and an indentation of three steps.
pub open spec fn gap3() -> Item {
    Item::Blank("\n      "@)
}

/// An element without content and with one attribute.
pub open spec fn leaf(tag: Seq<char>, name: Seq<char>, value: Seq<char>) -> Item {
    markup::element(tag, seq![(name, value)], Seq::empty())
}

/// Where something is, not rotated.
pub open spec fn origin_item(xyz: Seq<char>) -> Item {
    markup::element("origin"@, seq![("xyz"@, xyz), ("rpy"@, "0 0 0"@)], Seq::empty())
}

/// The inertia with the same moment about every axis.
pub open spec fn inertia_item(v: Seq<char>) -> Item {
    markup::element(
        "inertia"@,
        seq![
            ("ixx"@, v),
            ("ixy"@, "0.0"@),
            ("ixz"@, "0.0"@),
            ("iyy"@, v),
            ("iyz"@, "0.0"@),
            ("izz"@, v),
        ],
        Seq::empty(),
    )
}

/// The mass and the inertia of a link.
pub open spec fn inertial_item(mass: Seq<char>, inertia: Seq<char>) -> Item {
    markup::element(
        "inertial"@,
        Seq::empty(),
        seq![gap3(), leaf("mass"@, "value"@, mass), gap3(), inertia_item(inertia), gap2()],
    )
}

/// The shape of a sphere.
pub open spec fn geometry_item(radius: Seq<char>) -> Item {
    markup::element("geometry"@, Seq::empty(), seq![leaf("sphere"@, "radius"@, radius)])
}

/// How a sphere is shown.
pub open spec fn visual_item(radius: Seq<char>) -> Item {
    markup::element(
        "visual"@,
        Seq::empty(),
        seq![
            gap3(),
            origin_item("0 0 0"@),
            gap3(),
            geometry_item(radius),
            gap3(),
            leaf("material"@, "name"@, "default_color"@),
            gap2(),
        ],
    )
}

/// What collides with a sphere.
pub open spec fn collision_item(radius: Seq<char>) -> Item {
    markup::element(
        "collision"@,
        Seq::empty(),
        seq![gap3(), origin_item("0 0 0"@), gap3(), geometry_item(radius), gap2()],
    )
}

/// The name of sphere `i`.
pub open spec fn sphere_id(i: int) -> Seq<char> {
    "sphere_"@ + text::decimal(i as nat)
}

/// The link of sphere `i`.
pub open spec fn link_item(s: ObjectSphereView, i: int) -> Item {
    markup::element(
        "link"@,
        seq![("name"@, sphere_id(i))],
        seq![
            gap2(),
            visual_item(s.radius),
            gap2(),
            collision_item(s.radius),
            gap2(),
            inertial_item(s.mass, s.inertia),
            gap1(),
        ],
    )
}

/// A fixed joint.
pub open spec fn joint_item(
    name: Seq<char>,
    parent: Seq<char>,
    child: Seq<char>,
    xyz: Seq<char>,
) -> Item {
    markup::element(
        "joint"@,
        seq![("name"@, name), ("type"@, "fixed"@)],
        seq![
            gap2(),
            leaf("parent"@, "link"@, parent),
            gap2(),
            leaf("child"@, "link"@, child),
            gap2(),
            origin_item(xyz),
            gap1(),
        ],
    )
}

/// The joint that holds sphere `i`.
pub open spec fn holder_item(s: ObjectSphereView, i: int) -> Item {
    joint_item(sphere_id(i) + "_fixed"@, "base"@, sphere_id(i), s.center.spaced())
}

/// The color of the spheres.
pub open spec fn material_item(p: ObjectPartsView) -> Item {
    markup::element(
        "material"@,
        seq![("name"@, "default_color"@)],
        seq![gap2(), leaf("color"@, "rgba"@, p.rgba), gap1()],
    )
}

/// The `base` link.
pub open spec fn base_item(p: ObjectPartsView) -> Item {
    markup::element(
        "link"@,
        seq![("name"@, "base"@)],
        seq![gap2(), inertial_item(p.base_mass, p.base_inertia), gap1()],
    )
}

/// What comes before the spheres: the color and the `base` link, and for an
/// anchored object the `world` link and the joint that welds the two.
pub open spec fn head_items(p: ObjectPartsView) -> Seq<Item> {
    if p.anchored {
        seq![
            gap1(),
            material_item(p),
            gap1(),
            leaf("link"@, "name"@, "world"@),
            gap1(),
            base_item(p),
            gap1(),
            joint_item("world_to_base"@, "world"@, "base"@, p.centroid.spaced()),
        ]
    } else {
        seq![gap1(), material_item(p), gap1(), base_item(p)]
    }
}

/// The link and the joint of sphere `i`.
pub open spec fn sphere_items(s: ObjectSphereView, i: int) -> Seq<Item> {
    seq![gap1(), link_item(s, i), gap1(), holder_item(s, i)]
}

/// The links and the joints of the first `n` spheres.
pub open spec fn body_items(spheres: Seq<ObjectSphereView>, n: int) -> Seq<Item>
    decreases n,
{
    if n <= 0 {
        Seq::empty()
    } else {
        body_items(spheres, n - 1) + sphere_items(spheres[n - 1], n - 1)
    }
}

/// What the `robot` element holds.
pub open spec fn robot_items(p: ObjectPartsView) -> Seq<Item> {
    head_items(p) + body_items(p.spheres, p.spheres.len() as int) + seq![Item::Blank("\n"@)]
}

/// The `robot` element with the given content.
pub open spec fn robot_item(p: ObjectPartsView, items: Seq<Item>) -> Item {
    markup::element("robot"@, seq![("name"@, p.robot_name)], items)
}

/// The URDF of an object before its centroid is recorded.
pub open spec fn plain_urdf(p: ObjectPartsView) -> Seq<char> {
    markup::document_text(robot_item(p, robot_items(p)))
}

/// Write an element without content and with one attribute.
fn write_leaf(x: &mut Sheet, tag: &str, name: &str, value: &str)
    ensures
        final(x).pieces() == old(x).pieces() + markup::item_pieces(leaf(tag@, name@, value@)),
{
    let attributes = vec![(name, value)];
    assert(markup::attribute_views(attributes@) =~= seq![(name@, value@)]);
    x.empty(tag, attributes);
    assert(x.pieces() =~= old(x).pieces() + markup::item_pieces(leaf(tag@, name@, value@)));
}

/// Write where something is.
fn write_origin(x: &mut Sheet, xyz: &str)
    ensures
        final(x).pieces() == old(x).pieces() + markup::item_pieces(origin_item(xyz@)),
{
    let attributes = vec![("xyz", xyz), ("rpy", "0 0 0")];
    assert(markup::attribute_views(attributes@) =~= seq![("xyz"@, xyz@), ("rpy"@, "0 0 0"@)]);
    x.empty("origin", attributes);
    assert(x.pieces() =~= old(x).pieces() + markup::item_pieces(origin_item(xyz@)));
}

/// Write the mass and the inertia of a link.
fn write_inertial(x: &mut Sheet, mass: &str, inertia: &str)
    ensures
        final(x).pieces() == old(x).pieces() + markup::item_pieces(inertial_item(mass@, inertia@)),
{
    x.open("inertial", Vec::new());
    x.blank("\n      ");
    write_leaf(x, "mass", "value", mass);
    x.blank("\n      ");
    let attributes = vec![
        ("ixx", inertia),
        ("ixy", "0.0"),
        ("ixz", "0.0"),
        ("iyy", inertia),
        ("iyz", "0.0"),
        ("izz", inertia),
    ];
    proof {
        assert(markup::attribute_views(attributes@) =~= seq![
            ("ixx"@, inertia@),
            ("ixy"@, "0.0"@),
            ("ixz"@, "0.0"@),
            ("iyy"@, inertia@),
            ("iyz"@, "0.0"@),
            ("izz"@, inertia@),
        ]);
    }
    x.empty("inertia", attributes);
    x.blank("\n    ");
    x.close("inertial");
    proof {
        markup::lemma_few_pieces(
            seq![
                gap3(),
                leaf("mass"@, "value"@, mass@),
                gap3(),
                inertia_item(inertia@),
                gap2(),
            ],
        );
        lemma_no_attributes();
        assert(x.pieces() =~= old(x).pieces() + markup::item_pieces(
            inertial_item(mass@, inertia@),
        ));
    }
}

proof fn lemma_no_attributes()
    ensures
        forall|v: Seq<(&str, &str)>|
            v.len() == 0 ==> #[trigger] markup::attribute_views(v) == Seq::<
                (Seq<char>, Seq<char>),
            >::empty(),
{
    assert forall|v: Seq<(&str, &str)>| v.len() == 0 implies #[trigger] markup::attribute_views(v)
        == Seq::<(Seq<char>, Seq<char>)>::empty() by {
        assert(markup::attribute_views(v) =~= Seq::<(Seq<char>, Seq<char>)>::empty());
    }
}

/// Write the shape of a sphere.
fn write_geometry(x: &mut Sheet, radius: &str)
    ensures
        final(x).pieces() == old(x).pieces() + markup::item_pieces(geometry_item(radius@)),
{
    x.open("geometry", Vec::new());
    write_leaf(x, "sphere", "radius", radius);
    x.close("geometry");
    proof {
        markup::lemma_few_pieces(seq![leaf("sphere"@, "radius"@, radius@)]);
        lemma_no_attributes();
        assert(x.pieces() =~= old(x).pieces() + markup::item_pieces(geometry_item(radius@)));
    }
}

/// Write how a sphere is shown, and what collides with it.
fn write_shapes(x: &mut Sheet, radius: &str)
    ensures
        final(x).pieces() == old(x).pieces() + markup::item_pieces(visual_item(radius@)) + seq![
            Piece::Blank("\n    "@),
        ] + markup::item_pieces(collision_item(radius@)),
{
    x.open("visual", Vec::new());
    x.blank("\n      ");
    write_origin(x, "0 0 0");
    x.blank("\n      ");
    write_geometry(x, radius);
    x.blank("\n      ");
    write_leaf(x, "material", "name", "default_color");
    x.blank("\n    ");
    x.close("visual");
    proof {
        markup::lemma_few_pieces(
            seq![
                gap3(),
                origin_item("0 0 0"@),
                gap3(),
                geometry_item(radius@),
                gap3(),
                leaf("material"@, "name"@, "default_color"@),
                gap2(),
            ],
        );
        lemma_no_attributes();
        assert(x.pieces() =~= old(x).pieces() + markup::item_pieces(visual_item(radius@)));
    }
    x.blank("\n    ");
    let ghost shown = x.pieces();
    x.open("collision", Vec::new());
    x.blank("\n      ");
    write_origin(x, "0 0 0");
    x.blank("\n      ");
    write_geometry(x, radius);
    x.blank("\n    ");
    x.close("collision");
    proof {
        markup::lemma_few_pieces(
            seq![gap3(), origin_item("0 0 0"@), gap3(), geometry_item(radius@), gap2()],
        );
        assert(x.pieces() =~= shown + markup::item_pieces(collision_item(radius@)));
    }
}

/// Write a fixed joint.
fn write_joint(x: &mut Sheet, name: &str, parent: &str, child: &str, xyz: &str)
    ensures
        final(x).pieces() == old(x).pieces() + markup::item_pieces(
            joint_item(name@, parent@, child@, xyz@),
        ),
{
    let attributes = vec![("name", name), ("type", "fixed")];
    assert(markup::attribute_views(attributes@) =~= seq![("name"@, name@), ("type"@, "fixed"@)]);
    x.open("joint", attributes);
    x.blank("\n    ");
    write_leaf(x, "parent", "link", parent);
    x.blank("\n    ");
    write_leaf(x, "child", "link", child);
    x.blank("\n    ");
    write_origin(x, xyz);
    x.blank("\n  ");
    x.close("joint");
    proof {
        markup::lemma_few_pieces(
            seq![
                gap2(),
                leaf("parent"@, "link"@, parent@),
                gap2(),
                leaf("child"@, "link"@, child@),
                gap2(),
                origin_item(xyz@),
                gap1(),
            ],
        );
        assert(x.pieces() =~= old(x).pieces() + markup::item_pieces(
            joint_item(name@, parent@, child@, xyz@),
        ));
    }
}

/// Write the color of the spheres.
fn write_material(x: &mut Sheet, p: &ObjectParts)
    ensures
        final(x).pieces() == old(x).pieces() + markup::item_pieces(material_item(p@)),
{
    let attributes = vec![("name", "default_color")];
    assert(markup::attribute_views(attributes@) =~= seq![("name"@, "default_color"@)]);
    x.open("material", attributes);
    x.blank("\n    ");
    write_leaf(x, "color", "rgba", p.rgba.as_str());
    x.blank("\n  ");
    x.close("material");
    proof {
        markup::lemma_few_pieces(seq![gap2(), leaf("color"@, "rgba"@, p.rgba@), gap1()]);
        assert(x.pieces() =~= old(x).pieces() + markup::item_pieces(material_item(p@)));
    }
}

/// Write the `base` link.
fn write_base(x: &mut Sheet, p: &ObjectParts)
    ensures
        final(x).pieces() == old(x).pieces() + markup::item_pieces(base_item(p@)),
{
    let attributes = vec![("name", "base")];
    assert(markup::attribute_views(attributes@) =~= seq![("name"@, "base"@)]);
    x.open("link", attributes);
    x.blank("\n    ");
    write_inertial(x, p.base_mass.as_str(), p.base_inertia.as_str());
    x.blank("\n  ");
    x.close("link");
    proof {
        markup::lemma_few_pieces(
            seq![gap2(), inertial_item(p.base_mass@, p.base_inertia@), gap1()],
        );
        assert(x.pieces() =~= old(x).pieces() + markup::item_pieces(base_item(p@)));
    }
}

/// Write what comes before the spheres.
fn write_head(x: &mut Sheet, p: &ObjectParts)
    ensures
        final(x).pieces() == old(x).pieces() + markup::list_pieces(head_items(p@)),
{
    let ghost before = x.pieces();
    x.blank("\n  ");
    write_material(x, p);
    x.blank("\n  ");
    if p.anchored {
        write_leaf(x, "link", "name", "world");
        x.blank("\n  ");
        write_base(x, p);
        x.blank("\n  ");
        write_joint(x, "world_to_base", "world", "base", p.centroid.spaced().as_str());
        proof {
            let all = head_items(p@);
            let a = seq![all[0], all[1], all[2], all[3]];
            let b = seq![all[4], all[5], all[6], all[7]];
            assert(all =~= a + b);
            markup::lemma_pieces_concat(a, b);
            markup::lemma_few_pieces(a);
            markup::lemma_few_pieces(b);
            assert(x.pieces() =~= before + markup::list_pieces(all));
        }
    } else {
        write_base(x, p);
        proof {
            markup::lemma_few_pieces(head_items(p@));
            assert(x.pieces() =~= before + markup::list_pieces(head_items(p@)));
        }
    }
}

/// Write the link and the joint of sphere `i`.
fn write_sphere(x: &mut Sheet, s: &ObjectSphere, i: usize)
    ensures
        final(x).pieces() == old(x).pieces() + markup::list_pieces(sphere_items(s@, i as int)),
{
    let ghost before = x.pieces();
    let mut name = String::from_str("sphere_");
    text::push_decimal(&mut name, i);
    let mut holder = name.clone();
    holder.append("_fixed");
    x.blank("\n  ");
    let attributes = vec![("name", name.as_str())];
    assert(markup::attribute_views(attributes@) =~= seq![("name"@, sphere_id(i as int))]);
    x.open("link", attributes);
    x.blank("\n    ");
    write_shapes(x, s.radius.as_str());
    x.blank("\n    ");
    write_inertial(x, s.mass.as_str(), s.inertia.as_str());
    x.blank("\n  ");
    x.close("link");
    proof {
        markup::lemma_few_pieces(
            seq![
                gap2(),
                visual_item(s.radius@),
                gap2(),
                collision_item(s.radius@),
                gap2(),
                inertial_item(s.mass@, s.inertia@),
                gap1(),
            ],
        );
        assert(x.pieces() =~= before + seq![Piece::Blank("\n  "@)] + markup::item_pieces(
            link_item(s@, i as int),
        ));
    }
    x.blank("\n  ");
    write_joint(x, holder.as_str(), "base", name.as_str(), s.center.spaced().as_str());
    proof {
        markup::lemma_few_pieces(sphere_items(s@, i as int));
        assert(x.pieces() =~= before + markup::list_pieces(sphere_items(s@, i as int)));
    }
}

/// Write the URDF of an object and embed the centroid comment.
pub fn write_object_urdf(p: &ObjectParts) -> (out: String)
    ensures
        out@ == with_centroid(plain_urdf(p@), p@.centroid_comment),
{
    let mut x = Sheet::new();
    let attributes = vec![("name", p.robot_name.as_str())];
    assert(markup::attribute_views(attributes@) =~= seq![("name"@, p.robot_name@)]);
    let ghost open = Piece::Open("robot"@, seq![("name"@, p.robot_name@)]);
    x.open("robot", attributes);
    write_head(&mut x, p);
    let ghost head = seq![open] + markup::list_pieces(head_items(p@));
    assert(x.pieces() =~= head);
    let mut i: usize = 0;
    assert(head + markup::list_pieces(body_items(p@.spheres, 0)) =~= head);
    while i < p.spheres.len()
        invariant
            i <= p.spheres@.len(),
            x.pieces() == head + markup::list_pieces(body_items(p@.spheres, i as int)),
        decreases p.spheres@.len() - i,
    {
        let ghost so_far = x.pieces();
        write_sphere(&mut x, &p.spheres[i], i);
        proof {
            let s = p@.spheres[i as int];
            assert(s == p.spheres@[i as int]@);
            markup::lemma_pieces_concat(
                body_items(p@.spheres, i as int),
                sphere_items(s, i as int),
            );
            assert(x.pieces() =~= head + markup::list_pieces(body_items(p@.spheres, i + 1)));
        }
        i = i + 1;
    }
    x.blank("\n");
    x.close("robot");
    proof {
        let body = body_items(p@.spheres, p@.spheres.len() as int);
        let tail = seq![Item::Blank("\n"@)];
        markup::lemma_pieces_concat(head_items(p@), body);
        markup::lemma_pieces_concat(head_items(p@) + body, tail);
        markup::lemma_few_pieces(tail);
        assert(x.pieces() =~= markup::item_pieces(robot_item(p@, robot_items(p@))));
    }
    let plain = cat3("<?xml version=\"1.0\"?>\n", x.text(), "\n");
    inject_centroid_comment(plain.as_str(), &p.centroid_comment)
}

/// The lines of the MJCF for sphere `i`.
pub open spec fn mjcf_sphere(s: ObjectSphereView, rgba: Seq<char>, i: int) -> Seq<Seq<char>> {
    let name = sphere_id(i);
    seq![
        "      <body name=\""@ + name + "\" pos=\""@ + s.center.spaced() + "\">"@,
        "        <geom name=\""@ + name + "_geom\" type=\"sphere\" size=\""@ + s.radius
            + "\" density=\""@ + s.density + "\" rgba=\""@ + rgba + "\"/>"@,
        "      </body>"@,
    ]
}

/// The lines of the MJCF for the first `n` spheres.
pub open spec fn mjcf_spheres(spheres: Seq<ObjectSphereView>, rgba: Seq<char>, n: int) -> Seq<
    Seq<char>,
>
    decreases n,
{
    if n <= 0 {
        Seq::empty()
    } else {
        mjcf_spheres(spheres, rgba, n - 1) + mjcf_sphere(spheres[n - 1], rgba, n - 1)
    }
}

/// The lines of the MJCF before the spheres.
pub open spec fn mjcf_head(p: ObjectPartsView) -> Seq<Seq<char>> {
    let head = seq![
        "<?xml version=\"1.0\"?>"@,
        "<mujoco model=\""@ + p.robot_name + "\">"@,
        "  <option gravity=\"0 0 -9.8\"/>"@,
        "  <compiler inertiafromgeom=\"true\"/>"@,
        "  <worldbody>"@,
        "    <body name=\"base\" pos=\""@ + p.centroid.spaced() + "\">"@,
    ];
    let free = if p.anchored {
        Seq::empty()
    } else {
        seq!["      <freejoint name=\"base_free\"/>"@]
    };
    head + free
}

/// The MJCF of an object.
pub open spec fn mjcf_text(p: ObjectPartsView) -> Seq<char> {
    let tail = seq!["    </body>"@, "  </worldbody>"@, "</mujoco>\n"@];
    text::join(
        mjcf_head(p) + mjcf_spheres(p.spheres, p.rgba, p.spheres.len() as int) + tail,
        "\n"@,
    )
}

/// Write the MJCF (MuJoCo XML) model of an object: a `base` body at the
/// centroid (with a free joint unless anchored) holding one body per sphere,
/// whose geom density gives the sphere its mass.
pub fn write_object_mjcf(p: &ObjectParts) -> (out: String)
    ensures
        out@ == mjcf_text(p@),
{
    let mut x: Vec<String> = Vec::new();
    x.push(String::from_str("<?xml version=\"1.0\"?>"));
    x.push(cat3("<mujoco model=\"", p.robot_name.as_str(), "\">"));
    x.push(String::from_str("  <option gravity=\"0 0 -9.8\"/>"));
    x.push(String::from_str("  <compiler inertiafromgeom=\"true\"/>"));
    x.push(String::from_str("  <worldbody>"));
    x.push(cat3("    <body name=\"base\" pos=\"", p.centroid.spaced().as_str(), "\">"));
    if !p.anchored {
        x.push(String::from_str("      <freejoint name=\"base_free\"/>"));
    }
    let ghost head = mjcf_head(p@);
    assert(text::texts(x@) =~= head);
    let mut i: usize = 0;
    assert(head + mjcf_spheres(p@.spheres, p@.rgba, 0) =~= head);
    while i < p.spheres.len()
        invariant
            i <= p.spheres@.len(),
            text::texts(x@) == head + mjcf_spheres(p@.spheres, p@.rgba, i as int),
        decreases p.spheres@.len() - i,
    {
        let s = &p.spheres[i];
        let ghost before = text::texts(x@);
        let ghost so_far = mjcf_spheres(p@.spheres, p@.rgba, i as int);
        let mut name = String::from_str("sphere_");
        text::push_decimal(&mut name, i);
        let mut body = cat3("      <body name=\"", name.as_str(), "\" pos=\"");
        body.append(s.center.spaced().as_str());
        body.append("\">");
        let mut geom = cat3(
            "        <geom name=\"",
            name.as_str(),
            "_geom\" type=\"sphere\" size=\"",
        );
        geom.append(s.radius.as_str());
        geom.append("\" density=\"");
        geom.append(s.density.as_str());
        geom.append("\" rgba=\"");
        geom.append(p.rgba.as_str());
        geom.append("\"/>");
        x.push(body);
        x.push(geom);
        x.push(String::from_str("      </body>"));
        proof {
            assert(p@.spheres[i as int] == s@);
            assert(text::texts(x@) =~= before + mjcf_sphere(s@, p@.rgba, i as int));
            assert(head + so_far + mjcf_sphere(s@, p@.rgba, i as int) =~= head + (so_far
                + mjcf_sphere(s@, p@.rgba, i as int)));
        }
        i = i + 1;
    }
    let ghost lines = text::texts(x@);
    x.push(String::from_str("    </body>"));
    x.push(String::from_str("  </worldbody>"));
    x.push(String::from_str("</mujoco>\n"));
    proof {
        let tail = seq!["    </body>"@, "  </worldbody>"@, "</mujoco>\n"@];
        assert(text::texts(x@) =~= lines + tail);
    }
    text::join_with(&x, "\n")
}

/// Whether `char::is_alphanumeric` holds of a character.
pub uninterp spec fn is_alphanumeric(c: char) -> bool;

/// `char::is_alphanumeric`, named [`is_alphanumeric`]. Among the ASCII characters
/// it holds of letters and digits.
#[verifier::external_body]
fn alphanumeric(c: char) -> (yes: bool)
    ensures
        yes == is_alphanumeric(c),
        (c as u32) < 128 ==> yes == (numeral::is_digit(c) || 'a' <= c <= 'z' || 'A' <= c <= 'Z'),
{
    c.is_alphanumeric()
}

/// Whether a word can hold `c`.
pub open spec fn is_word_char(c: char) -> bool {
    c == '_' || if (c as u32) < 128 {
        numeral::is_digit(c) || 'a' <= c <= 'z' || 'A' <= c <= 'Z'
    } else {
        is_alphanumeric(c)
    }
}

/// Whether a name ends at position `at`: at the end of the text or before a
/// character that no word holds.
pub open spec fn word_ends(s: Seq<char>, at: int) -> bool {
    at >= s.len() || !is_word_char(s[at])
}

/// The end of the first match of `<robot\b[^>]*>`, from position `k` on.
pub open spec fn robot_end(s: Seq<char>, k: int) -> Option<int>
    decreases s.len() - k + 1,
{
    if k < 0 || k > s.len() {
        None
    } else if text::occurs_at(s, "<robot"@, k) && word_ends(s, k + 6) && text::first_char(
        s,
        '>',
        k + 6,
    ) is Some {
        Some(text::first_char(s, '>', k + 6)->0 + 1)
    } else {
        robot_end(s, k + 1)
    }
}

/// The end of the first match of `<robot\b[^>]*>`.
fn robot_tag_end(cs: &[char]) -> (end: Option<usize>)
    ensures
        text::opt_int(end) == robot_end(cs@, 0),
        end matches Some(e) ==> e <= cs@.len(),
{
    let n: usize = cs.len();
    let pat = text::to_chars("<robot");
    let mut k: usize = 0;
    proof {
        reveal_strlit("<robot");
    }
    while k < n
        invariant
            k <= n == cs@.len(),
            pat@ == "<robot"@,
            pat@.len() == 6,
            robot_end(cs@, 0) == robot_end(cs@, k as int),
        decreases n - k,
    {
        if text::matches_at(cs, &pat, k) {
            let at: usize = k + 6;
            let boundary = at >= n || !(alphanumeric(cs[at]) || cs[at] == '_');
            if boundary {
                match text::find_char(cs, '>', at) {
                    Some(j) => {
                        return Some(j + 1);
                    },
                    None => {},
                }
            }
        }
        k = k + 1;
    }
    assert(robot_end(cs@, n + 1) is None);
    None
}

/// The comment that records the centroid.
pub open spec fn centroid_comment(c: TripleView) -> Seq<char> {
    "  <!-- morphit:centroid "@ + c.spaced() + " -->"@
}

/// The URDF with its centroid recorded.
pub open spec fn with_centroid(urdf: Seq<char>, c: TripleView) -> Seq<char> {
    match robot_end(urdf, 0) {
        Some(end) => urdf.take(end) + "\n"@ + centroid_comment(c) + urdf.skip(end),
        None => centroid_comment(c) + "\n"@ + urdf,
    }
}

/// `  <!-- morphit:centroid x y z -->` right after the `<robot ...>` tag (or
/// on a first line when there is none).
pub fn inject_centroid_comment(urdf: &str, c: &Triple) -> (out: String)
    ensures
        out@ == with_centroid(urdf@, c@),
{
    let comment = cat3("  <!-- morphit:centroid ", c.spaced().as_str(), " -->");
    let cs = text::to_chars(urdf);
    match robot_tag_end(&cs) {
        Some(end) => {
            let mut out = text::from_range(&cs, 0, end);
            let rest = text::from_range(&cs, end, cs.len());
            assert(out@ =~= urdf@.take(end as int));
            assert(rest@ =~= urdf@.skip(end as int));
            out.append("\n");
            out.append(comment.as_str());
            out.append(rest.as_str());
            out
        },
        None => cat3(comment.as_str(), "\n", urdf),
    }
}

/// The first position at or after `i` that holds no digit.
pub open spec fn digits_end(s: Seq<char>, i: int) -> int
    decreases s.len() - i,
{
    if 0 <= i < s.len() && numeral::is_digit(s[i]) {
        digits_end(s, i + 1)
    } else {
        i
    }
}

/// Where a number `-?\d+(\.\d+)?` that starts at `i` ends.
pub open spec fn number_end(s: Seq<char>, i: int) -> Option<int> {
    let a = if 0 <= i < s.len() && s[i] == '-' {
        i + 1
    } else {
        i
    };
    let b = digits_end(s, a);
    if b == a {
        None
    } else if b < s.len() && s[b] == '.' && digits_end(s, b + 1) > b + 1 {
        Some(digits_end(s, b + 1))
    } else {
        Some(b)
    }
}

/// The first position at or after `i` that holds no digit.
fn skip_digits(cs: &[char], i: usize) -> (at: usize)
    requires
        i <= cs@.len(),
    ensures
        at == digits_end(cs@, i as int),
        i <= at <= cs@.len(),
{
    let mut k: usize = i;
    while k < cs.len() && '0' <= cs[k] && cs[k] <= '9'
        invariant
            i <= k <= cs@.len(),
            digits_end(cs@, i as int) == digits_end(cs@, k as int),
        decreases cs@.len() - k,
    {
        k = k + 1;
    }
    k
}

/// Where a number `-?\d+(\.\d+)?` that starts at `i` ends.
fn number_len(cs: &[char], i: usize) -> (end: Option<usize>)
    requires
        i <= cs@.len(),
    ensures
        text::opt_int(end) == number_end(cs@, i as int),
        end matches Some(e) ==> i <= e <= cs@.len(),
{
    let n: usize = cs.len();
    let a: usize = if i < n && cs[i] == '-' {
        i + 1
    } else {
        i
    };
    let b = skip_digits(cs, a);
    if b == a {
        return None;
    }
    if b < n && cs[b] == '.' {
        let c = skip_digits(cs, b + 1);
        if c > b + 1 {
            return Some(c);
        }
    }
    Some(b)
}

/// The white space and the number after it that start at `r`: where the number
/// starts and ends.
pub open spec fn spaced_number(s: Seq<char>, r: int) -> Option<(int, int)> {
    let w = text::after_white(s, r);
    if w == r {
        None
    } else {
        match number_end(s, w) {
            Some(e) => Some((w, e)),
            None => None,
        }
    }
}

/// The centroid that the comment whose text starts at `p` records.
pub open spec fn centroid_at(s: Seq<char>, p: int) -> Option<TripleView> {
    let q = text::after_white(s, p);
    if !text::occurs_at(s, "morphit:centroid"@, q) {
        None
    } else {
        match spaced_number(s, q + 16) {
            None => None,
            Some((a, b)) => match spaced_number(s, b) {
                None => None,
                Some((c, d)) => match spaced_number(s, d) {
                    None => None,
                    Some((e, f)) => if text::occurs_at(s, "-->"@, text::after_white(s, f)) {
                        Some(
                            TripleView {
                                x: s.subrange(a, b),
                                y: s.subrange(c, d),
                                z: s.subrange(e, f),
                            },
                        )
                    } else {
                        None
                    },
                },
            },
        }
    }
}

/// The centroid of the first comment, from position `k` on, that records one.
pub open spec fn recorded_centroid(s: Seq<char>, k: int) -> Option<TripleView>
    decreases s.len() - k + 1,
{
    if k < 0 || k > s.len() {
        None
    } else if text::occurs_at(s, "<!--"@, k) && centroid_at(s, k + 4) is Some {
        centroid_at(s, k + 4)
    } else {
        recorded_centroid(s, k + 1)
    }
}

/// The white space and the number after it that start at `r`.
fn read_number(cs: &[char], r: usize) -> (out: Option<(usize, usize)>)
    requires
        r <= cs@.len(),
    ensures
        match out {
            Some((a, b)) => spaced_number(cs@, r as int) == Some((a as int, b as int)) && a <= b
                <= cs@.len(),
            None => spaced_number(cs@, r as int) is None,
        },
{
    let w = text::skip_white(cs, r);
    if w == r {
        return None;
    }
    match number_len(cs, w) {
        Some(e) => Some((w, e)),
        None => None,
    }
}

/// The centroid that the comment whose text starts at `p` records.
fn parse_centroid_comment(cs: &[char], p: usize) -> (out: Option<Triple>)
    requires
        p <= cs@.len(),
    ensures
        numeral::opt_triple(out) == centroid_at(cs@, p as int),
{
    let n: usize = cs.len();
    let q = text::skip_white(cs, p);
    let word = text::to_chars("morphit:centroid");
    proof {
        reveal_strlit("morphit:centroid");
    }
    if !text::matches_at(cs, &word, q) {
        return None;
    }
    let (a, b) = match read_number(cs, q + 16) {
        Some(r) => r,
        None => {
            return None;
        },
    };
    let (c, d) = match read_number(cs, b) {
        Some(r) => r,
        None => {
            return None;
        },
    };
    let (e, f) = match read_number(cs, d) {
        Some(r) => r,
        None => {
            return None;
        },
    };
    let g = text::skip_white(cs, f);
    let close = text::to_chars("-->");
    if !text::matches_at(cs, &close, g) {
        return None;
    }
    Some(
        Triple {
            x: text::from_range(cs, a, b),
            y: text::from_range(cs, c, d),
            z: text::from_range(cs, e, f),
        },
    )
}

/// The centroid of the first `<!-- morphit:centroid x y z -->` comment
/// (numbers as `-?\d+(\.\d+)?`), or `None`.
pub fn extract_centroid(urdf: &str) -> (out: Option<Triple>)
    ensures
        numeral::opt_triple(out) == recorded_centroid(urdf@, 0),
{
    let cs = text::to_chars(urdf);
    let n: usize = cs.len();
    let pat = text::to_chars("<!--");
    proof {
        reveal_strlit("<!--");
    }
    let mut k: usize = 0;
    while k < n
        invariant
            cs@ == urdf@,
            k <= n == cs@.len(),
            pat@ == "<!--"@,
            pat@.len() == 4,
            recorded_centroid(urdf@, 0) == recorded_centroid(urdf@, k as int),
        decreases n - k,
    {
        if text::matches_at(&cs, &pat, k) {
            let c = parse_centroid_comment(&cs, k + 4);
            if c.is_some() {
                return c;
            }
        }
        k = k + 1;
    }
    assert(recorded_centroid(urdf@, n + 1) is None);
    None
}

/// Spheres read from an object URDF: the centroid, and each sphere's center
/// relative to it and radius.
#[derive(Debug)]
pub struct ReadSpheres {
    pub centroid: Triple,
    pub spheres: Vec<(Triple, String)>,
}

/// The contents of a list of spheres.
pub open spec fn read_views(v: Seq<(Triple, String)>) -> Seq<(TripleView, Seq<char>)> {
    v.map_values(|s: (Triple, String)| (s.0@, s.1@))
}

/// The first sphere of a link's first collision.
pub open spec fn sphere_of_link(nodes: Seq<NodeView>, link: int) -> Option<int> {
    match xml::child_of(nodes, link, "collision"@) {
        None => None,
        Some(c) => match xml::child_of(nodes, c, "geometry"@) {
            None => None,
            Some(g) => xml::child_of(nodes, g, "sphere"@),
        },
    }
}

/// The radius of the sphere node `s`, when it is a number.
pub open spec fn radius_of(nodes: Seq<NodeView>, s: int) -> Option<Seq<char>> {
    match xml::attribute_of(nodes[s], "radius"@) {
        Some(r) => if numeral::is_number(text::trim(r)) {
            Some(text::trim(r))
        } else {
            None
        },
        None => None,
    }
}

/// The value of an attribute, empty when it is absent.
pub open spec fn attribute_or_empty(n: NodeView, name: Seq<char>) -> Seq<char> {
    match xml::attribute_of(n, name) {
        Some(v) => v,
        None => Seq::empty(),
    }
}

/// The names and radii of the links that have a sphere; an error at the first
/// radius that is no number.
pub open spec fn link_radii(nodes: Seq<NodeView>, links: Seq<int>) -> Result<
    Seq<(Seq<char>, Seq<char>)>,
    ErrorView,
>
    decreases links.len(),
{
    if links.len() == 0 {
        Ok(Seq::empty())
    } else {
        match link_radii(nodes, links.drop_last()) {
            Err(e) => Err(e),
            Ok(front) => match sphere_of_link(nodes, links.last()) {
                None => Ok(front),
                Some(s) => match radius_of(nodes, s) {
                    Some(r) => Ok(
                        front.push((attribute_or_empty(nodes[links.last()], "name"@), r)),
                    ),
                    None => Err(ErrorView::Invalid("URDF is not valid XML: bad radius"@)),
                },
            },
        }
    }
}

/// The radius of the last link named `name` among the first `n`.
pub open spec fn radius_named(radii: Seq<(Seq<char>, Seq<char>)>, name: Seq<char>, n: int) -> Option<
    Seq<char>,
>
    decreases n,
{
    if n <= 0 || n > radii.len() {
        None
    } else if radii[n - 1].0 == name {
        Some(radii[n - 1].1)
    } else {
        radius_named(radii, name, n - 1)
    }
}

/// The radius of the sphere that a joint holds.
pub open spec fn joint_radius(
    nodes: Seq<NodeView>,
    radii: Seq<(Seq<char>, Seq<char>)>,
    joint: int,
) -> Option<Seq<char>> {
    match xml::child_of(nodes, joint, "child"@) {
        Some(c) => radius_named(
            radii,
            attribute_or_empty(nodes[c], "link"@),
            radii.len() as int,
        ),
        None => None,
    }
}

/// Where a joint holds its child: zero without an origin, `None` when the
/// origin is not three numbers.
pub open spec fn joint_offset(nodes: Seq<NodeView>, joint: int) -> Option<TripleView> {
    let xyz = match xml::child_of(nodes, joint, "origin"@) {
        Some(o) => match xml::attribute_of(nodes[o], "xyz"@) {
            Some(v) => v,
            None => "0 0 0"@,
        },
        None => "0 0 0"@,
    };
    numeral::three_numbers(xyz)
}

/// The spheres that the joints hold; an error at the first origin that is not
/// three numbers.
pub open spec fn joint_spheres(
    nodes: Seq<NodeView>,
    radii: Seq<(Seq<char>, Seq<char>)>,
    joints: Seq<int>,
) -> Result<Seq<(TripleView, Seq<char>)>, ErrorView>
    decreases joints.len(),
{
    if joints.len() == 0 {
        Ok(Seq::empty())
    } else {
        match joint_spheres(nodes, radii, joints.drop_last()) {
            Err(e) => Err(e),
            Ok(front) => match joint_radius(nodes, radii, joints.last()) {
                None => Ok(front),
                Some(r) => match joint_offset(nodes, joints.last()) {
                    Some(t) => Ok(front.push((t, r))),
                    None => Err(ErrorView::Invalid("URDF is not valid XML: bad origin"@)),
                },
            },
        }
    }
}

/// The spheres of a parsed object URDF.
pub open spec fn spheres_of(nodes: Seq<NodeView>) -> Result<
    Seq<(TripleView, Seq<char>)>,
    ErrorView,
> {
    let root = xml::root_of(nodes)->0;
    match link_radii(nodes, xml::children_of(nodes, root, "link"@)) {
        Err(e) => Err(e),
        Ok(radii) => match joint_spheres(nodes, radii, xml::children_of(nodes, root, "joint"@)) {
            Err(e) => Err(e),
            Ok(spheres) => if spheres.len() == 0 {
                Err(ErrorView::Invalid("no spheres found in URDF"@))
            } else {
                Ok(spheres)
            },
        },
    }
}

/// What is read from the object URDF `s`: the centroid and the spheres.
pub open spec fn read_object(s: Seq<char>) -> Result<
    (TripleView, Seq<(TripleView, Seq<char>)>),
    ErrorView,
> {
    match recorded_centroid(s, 0) {
        None => Err(
            ErrorView::Invalid(
                "URDF has no morphit:centroid comment; not a MorphIt object URDF"@,
            ),
        ),
        Some(c) => match xml::parsed_xml(s, false) {
            Err(e) => Err(ErrorView::Invalid("URDF is not valid XML: "@ + e)),
            Ok(nodes) => match spheres_of(nodes) {
                Ok(spheres) => Ok((c, spheres)),
                Err(e) => Err(e),
            },
        },
    }
}

/// The value of an attribute, empty when it is absent.
fn attribute_text(n: &XmlNode, name: &str) -> (out: String)
    ensures
        out@ == attribute_or_empty(n@, name@),
{
    match xml::attribute(n, name) {
        Some(v) => v,
        None => String::new(),
    }
}

/// The first sphere of a link's first collision.
fn find_sphere(nodes: &[XmlNode], link: usize) -> (out: Option<usize>)
    ensures
        text::opt_int(out) == sphere_of_link(xml::views(nodes@), link as int),
        out matches Some(s) ==> s < nodes@.len(),
{
    match xml::child(nodes, link, "collision") {
        None => None,
        Some(c) => match xml::child(nodes, c, "geometry") {
            None => None,
            Some(g) => xml::child(nodes, g, "sphere"),
        },
    }
}

/// The contents of a list of names and radii.
pub open spec fn radius_views(v: Seq<(String, String)>) -> Seq<(Seq<char>, Seq<char>)> {
    v.map_values(|r: (String, String)| (r.0@, r.1@))
}

/// A link that fails ends it, whatever follows.
proof fn lemma_radii_fail(nodes: Seq<NodeView>, links: Seq<int>, k: int)
    requires
        0 <= k <= links.len(),
        link_radii(nodes, links.take(k)) is Err,
    ensures
        link_radii(nodes, links) == link_radii(nodes, links.take(k)),
    decreases links.len(),
{
    if k == links.len() {
        assert(links.take(k) =~= links);
    } else {
        assert(links.drop_last().take(k) =~= links.take(k));
        lemma_radii_fail(nodes, links.drop_last(), k);
    }
}

/// A joint that fails ends it, whatever follows.
proof fn lemma_joints_fail(
    nodes: Seq<NodeView>,
    radii: Seq<(Seq<char>, Seq<char>)>,
    joints: Seq<int>,
    k: int,
)
    requires
        0 <= k <= joints.len(),
        joint_spheres(nodes, radii, joints.take(k)) is Err,
    ensures
        joint_spheres(nodes, radii, joints) == joint_spheres(nodes, radii, joints.take(k)),
    decreases joints.len(),
{
    if k == joints.len() {
        assert(joints.take(k) =~= joints);
    } else {
        assert(joints.drop_last().take(k) =~= joints.take(k));
        lemma_joints_fail(nodes, radii, joints.drop_last(), k);
    }
}

/// The names and radii of the links that have a sphere.
fn read_radii(nodes: &[XmlNode], links: &[usize]) -> (res: Result<Vec<(String, String)>, Error>)
    requires
        forall|k: int| 0 <= k < links@.len() ==> #[trigger] links@[k] < nodes@.len(),
    ensures
        match res {
            Ok(radii) => link_radii(xml::views(nodes@), xml::ints(links@)) == Ok::<
                Seq<(Seq<char>, Seq<char>)>,
                ErrorView,
            >(radius_views(radii@)),
            Err(e) => link_radii(xml::views(nodes@), xml::ints(links@)) == Err::<
                Seq<(Seq<char>, Seq<char>)>,
                ErrorView,
            >(e@),
        },
{
    let ghost v = xml::views(nodes@);
    let ghost ls = xml::ints(links@);
    let mut out: Vec<(String, String)> = Vec::new();
    let mut k: usize = 0;
    assert(radius_views(out@) =~= Seq::<(Seq<char>, Seq<char>)>::empty());
    while k < links.len()
        invariant
            k <= links@.len(),
            v == xml::views(nodes@),
            ls == xml::ints(links@),
            forall|i: int| 0 <= i < links@.len() ==> #[trigger] links@[i] < nodes@.len(),
            link_radii(v, ls.take(k as int)) == Ok::<Seq<(Seq<char>, Seq<char>)>, ErrorView>(
                radius_views(out@),
            ),
        decreases links@.len() - k,
    {
        let link: usize = links[k];
        proof {
            assert(ls.take(k + 1).drop_last() =~= ls.take(k as int));
            assert(ls.take(k + 1).last() == link);
            assert(v[link as int] == nodes@[link as int]@);
        }
        match find_sphere(nodes, link) {
            None => {},
            Some(s) => {
                assert(v[s as int] == nodes@[s as int]@);
                let mut radius: Option<String> = None;
                match xml::attribute(&nodes[s], "radius") {
                    Some(r) => {
                        let t = text::trimmed(r.as_str());
                        if numeral::number(t.as_str()) {
                            radius = Some(t);
                        }
                    },
                    None => {},
                }
                match radius {
                    Some(r) => {
                        let ghost seen = radius_views(out@);
                        let ghost rv = r@;
                        let name = attribute_text(&nodes[link], "name");
                        let ghost nv = name@;
                        out.push((name, r));
                        assert(radius_views(out@) =~= seen.push((nv, rv)));
                    },
                    None => {
                        proof {
                            lemma_radii_fail(v, ls, k + 1);
                        }
                        return Err(
                            Error::Invalid(String::from_str("URDF is not valid XML: bad radius")),
                        );
                    },
                }
            },
        }
        k = k + 1;
    }
    assert(ls.take(k as int) =~= ls);
    Ok(out)
}

/// The radius of the last link named `name`.
fn find_radius(radii: &[(String, String)], name: &str) -> (out: Option<String>)
    ensures
        text::opt_text(out) == radius_named(
            radius_views(radii@),
            name@,
            radii@.len() as int,
        ),
{
    let ghost v = radius_views(radii@);
    let mut n: usize = radii.len();
    while n > 0
        invariant
            n <= radii@.len(),
            v == radius_views(radii@),
            radius_named(v, name@, v.len() as int) == radius_named(v, name@, n as int),
        decreases n,
    {
        assert(v[n - 1] == (radii@[n - 1].0@, radii@[n - 1].1@));
        if text::same(radii[n - 1].0.as_str(), name) {
            return Some(radii[n - 1].1.clone());
        }
        n = n - 1;
    }
    None
}

/// Where a joint holds its child.
fn read_offset(nodes: &[XmlNode], joint: usize) -> (out: Option<Triple>)
    ensures
        numeral::opt_triple(out) == joint_offset(xml::views(nodes@), joint as int),
{
    let xyz = match xml::child(nodes, joint, "origin") {
        Some(o) => {
            assert(xml::views(nodes@)[o as int] == nodes@[o as int]@);
            match xml::attribute(&nodes[o], "xyz") {
                Some(v) => v,
                None => String::from_str("0 0 0"),
            }
        },
        None => String::from_str("0 0 0"),
    };
    numeral::floats3(xyz.as_str())
}

/// Sphere centers relative to the centroid, and radii, of a parsed object
/// URDF: radii from each top-level link's `collision/geometry/sphere`, centers
/// from the top-level joints whose child is such a link.
pub fn spheres_of_document(nodes: &[XmlNode]) -> (res: Result<Vec<(Triple, String)>, Error>)
    requires
        xml::root_of(xml::views(nodes@)) is Some,
    ensures
        match res {
            Ok(spheres) => spheres_of(xml::views(nodes@)) == Ok::<
                Seq<(TripleView, Seq<char>)>,
                ErrorView,
            >(read_views(spheres@)),
            Err(e) => spheres_of(xml::views(nodes@)) == Err::<
                Seq<(TripleView, Seq<char>)>,
                ErrorView,
            >(e@),
        },
{
    let ghost v = xml::views(nodes@);
    let root = match xml::root_element(nodes) {
        Some(r) => r,
        None => 0,
    };
    let links = xml::children(nodes, root, "link");
    let radii = match read_radii(nodes, &links) {
        Ok(r) => r,
        Err(e) => {
            return Err(e);
        },
    };
    let ghost rs = radius_views(radii@);
    let joints = xml::children(nodes, root, "joint");
    let ghost js = xml::ints(joints@);
    let mut out: Vec<(Triple, String)> = Vec::new();
    let mut k: usize = 0;
    assert(read_views(out@) =~= Seq::<(TripleView, Seq<char>)>::empty());
    while k < joints.len()
        invariant
            k <= joints@.len(),
            v == xml::views(nodes@),
            rs == radius_views(radii@),
            js == xml::ints(joints@),
            js == xml::children_of(v, root as int, "joint"@),
            xml::root_of(v) == Some(root as int),
            link_radii(v, xml::children_of(v, root as int, "link"@)) == Ok::<
                Seq<(Seq<char>, Seq<char>)>,
                ErrorView,
            >(rs),
            forall|i: int| 0 <= i < joints@.len() ==> #[trigger] joints@[i] < nodes@.len(),
            joint_spheres(v, rs, js.take(k as int)) == Ok::<
                Seq<(TripleView, Seq<char>)>,
                ErrorView,
            >(read_views(out@)),
        decreases joints@.len() - k,
    {
        let joint: usize = joints[k];
        proof {
            assert(js.take(k + 1).drop_last() =~= js.take(k as int));
            assert(js.take(k + 1).last() == joint);
        }
        let radius = match xml::child(nodes, joint, "child") {
            Some(c) => {
                assert(v[c as int] == nodes@[c as int]@);
                find_radius(&radii, attribute_text(&nodes[c], "link").as_str())
            },
            None => None,
        };
        match radius {
            None => {},
            Some(r) => match read_offset(nodes, joint) {
                Some(t) => {
                    let ghost seen = read_views(out@);
                    let ghost tv = t@;
                    let ghost rv = r@;
                    out.push((t, r));
                    assert(read_views(out@) =~= seen.push((tv, rv)));
                },
                None => {
                    proof {
                        lemma_joints_fail(v, rs, js, k + 1);
                    }
                    return Err(
                        Error::Invalid(String::from_str("URDF is not valid XML: bad origin")),
                    );
                },
            },
        }
        k = k + 1;
    }
    assert(js.take(k as int) =~= js);
    if out.len() == 0 {
        return Err(Error::Invalid(String::from_str("no spheres found in URDF")));
    }
    Ok(out)
}

/// The centroid and the spheres of an object URDF. The centers are relative to
/// the centroid: adding it gives them in the mesh frame. An object that was written
/// is read back: its centroid, and its spheres in their order.
pub fn spheres_from_object_urdf(urdf: &str) -> (res: Result<ReadSpheres, Error>)
    ensures
        match res {
            Ok(r) => read_object(urdf@) == Ok::<
                (TripleView, Seq<(TripleView, Seq<char>)>),
                ErrorView,
            >((r.centroid@, read_views(r.spheres@))),
            Err(e) => read_object(urdf@) == Err::<
                (TripleView, Seq<(TripleView, Seq<char>)>),
                ErrorView,
            >(e@),
        },
        forall|p: ObjectPartsView| #[trigger]
            round_trip::is_readable(p) && urdf@ == round_trip::written(p) && urdf@.len() < u32::MAX
                ==> (res matches Ok(r) && r.centroid@ == p.centroid_comment && read_views(
                r.spheres@,
            ) == round_trip::placed(p.spheres)),
{
    let parsed = xml::parse_xml(urdf, false);
    proof {
        assert forall|p: ObjectPartsView| #[trigger]
            round_trip::is_readable(p) && urdf@ == round_trip::written(p) && urdf@.len()
                < u32::MAX implies read_object(urdf@) == Ok::<
            (TripleView, Seq<(TripleView, Seq<char>)>),
            ErrorView,
        >((p.centroid_comment, round_trip::placed(p.spheres))) by {
            round_trip::a_written_object_is_read_back(p, xml::parsed_nodes(parsed));
        }
    }
    let centroid = match extract_centroid(urdf) {
        Some(c) => c,
        None => {
            return Err(
                Error::Invalid(
                    String::from_str(
                        "URDF has no morphit:centroid comment; not a MorphIt object URDF",
                    ),
                ),
            );
        },
    };
    let nodes = match parsed {
        Ok(nodes) => nodes,
        Err(e) => {
            let mut m = String::from_str("URDF is not valid XML: ");
            m.append(e.as_str());
            return Err(Error::Invalid(m));
        },
    };
    match spheres_of_document(&nodes) {
        Ok(spheres) => Ok(ReadSpheres { centroid, spheres }),
        Err(e) => Err(e),
    }
}

/// Whether `t` is a number as the centroid comment writes it.
pub open spec fn is_comment_number(t: Seq<char>) -> bool {
    number_end(t, 0) == Some(t.len() as int)
}

proof fn lemma_digits_end(s: Seq<char>, i: int)
    requires
        0 <= i <= s.len(),
    ensures
        i <= digits_end(s, i) <= s.len(),
        forall|j: int| i <= j < digits_end(s, i) ==> numeral::is_digit(#[trigger] s[j]),
        digits_end(s, i) < s.len() ==> !numeral::is_digit(s[digits_end(s, i)]),
    decreases s.len() - i,
{
    if i < s.len() && numeral::is_digit(s[i]) {
        lemma_digits_end(s, i + 1);
    }
}

/// Digits that end at `e` are found to end there.
proof fn lemma_digits_end_is(s: Seq<char>, i: int, e: int)
    requires
        0 <= i <= e <= s.len(),
        forall|j: int| i <= j < e ==> numeral::is_digit(#[trigger] s[j]),
        e < s.len() ==> !numeral::is_digit(s[e]),
    ensures
        digits_end(s, i) == e,
    decreases e - i,
{
    if i < e {
        lemma_digits_end_is(s, i + 1, e);
    }
}

/// White space that ends at `e` is found to end there.
proof fn lemma_after_white_is(s: Seq<char>, i: int, e: int)
    requires
        0 <= i <= e <= s.len(),
        forall|j: int| i <= j < e ==> text::is_white(#[trigger] s[j]),
        e < s.len() ==> !text::is_white(s[e]),
    ensures
        text::after_white(s, i) == e,
    decreases e - i,
{
    if i < e {
        lemma_after_white_is(s, i + 1, e);
    }
}

/// A number that stands in a text, followed by a character that no number
/// holds, is found there.
proof fn lemma_number_in_text(s: Seq<char>, w: int, t: Seq<char>)
    requires
        0 <= w,
        w + t.len() < s.len(),
        s.subrange(w, w + t.len()) == t,
        is_comment_number(t),
        !numeral::is_digit(s[w + t.len()]),
        s[w + t.len()] != '.',
    ensures
        number_end(s, w) == Some(w + t.len()),
        t.len() > 0,
        !text::is_white(s[w]),
{
    let a = if t.len() > 0 && t[0] == '-' {
        1int
    } else {
        0int
    };
    let b = digits_end(t, a);
    assert forall|j: int| 0 <= j < t.len() implies #[trigger] t[j] == s[w + j] by {
        assert(s.subrange(w, w + t.len())[j] == s[w + j]);
    }
    lemma_digits_end(t, a);
    assert(b > a);
    assert(t[0] == s[w]);
    assert(numeral::is_digit(t[a]));
    assert forall|j: int| w + a <= j < w + b implies numeral::is_digit(#[trigger] s[j]) by {
        assert(t[j - w] == s[j]);
        assert(numeral::is_digit(t[j - w]));
    }
    if b < t.len() {
        lemma_digits_end(t, b + 1);
        assert(t[b] == '.');
        assert(digits_end(t, b + 1) == t.len());
        assert(s[w + b] == '.');
        lemma_digits_end_is(s, w + a, w + b);
        assert forall|j: int| w + b + 1 <= j < w + t.len() implies numeral::is_digit(
            #[trigger] s[j],
        ) by {
            assert(t[j - w] == s[j]);
            assert(numeral::is_digit(t[j - w]));
        }
        lemma_digits_end_is(s, w + b + 1, w + t.len());
    } else {
        lemma_digits_end_is(s, w + a, w + b);
    }
}

/// A number of the comment holds digits and a point, and before them a sign or none.
pub proof fn lemma_comment_number(t: Seq<char>)
    requires
        is_comment_number(t),
    ensures
        t.len() > 0,
        forall|i: int|
            0 <= i < t.len() ==> (numeral::is_digit(#[trigger] t[i]) || t[i] == '.' || (i == 0
                && t[i] == '-')),
{
    let a = if t.len() > 0 && t[0] == '-' {
        1int
    } else {
        0int
    };
    lemma_digits_end(t, a);
    let b = digits_end(t, a);
    if b < t.len() {
        lemma_digits_end(t, b + 1);
    }
}

/// Where the text that [`centroid_at`] matches ends.
spec fn centroid_end(s: Seq<char>, p: int) -> int {
    let q = text::after_white(s, p);
    let (a, b) = spaced_number(s, q + 16)->0;
    let (c, d) = spaced_number(s, b)->0;
    let (e, f) = spaced_number(s, d)->0;
    text::after_white(s, f) + 3
}

/// A number that is found lies inside the text and holds digits, a sign and a
/// point only.
proof fn lemma_number_chars(s: Seq<char>, w: int)
    requires
        0 <= w <= s.len(),
        number_end(s, w) is Some,
    ensures
        w < number_end(s, w)->0 <= s.len(),
        forall|j: int|
            w <= j < number_end(s, w)->0 ==> (numeral::is_digit(#[trigger] s[j]) || s[j] == '-'
                || s[j] == '.'),
{
    let a = if w < s.len() && s[w] == '-' {
        w + 1
    } else {
        w
    };
    lemma_digits_end(s, a);
    let b = digits_end(s, a);
    if b < s.len() {
        lemma_digits_end(s, b + 1);
    }
}

/// Texts that agree up to `m` hold the same number before it.
proof fn lemma_number_local(s: Seq<char>, t: Seq<char>, w: int, m: int)
    requires
        0 <= w <= m <= s.len(),
        m <= t.len(),
        forall|j: int| 0 <= j < m ==> #[trigger] s[j] == t[j],
        number_end(s, w) matches Some(e) && e < m && s[e] != '.',
    ensures
        number_end(t, w) == number_end(s, w),
{
    let e = number_end(s, w)->0;
    lemma_number_chars(s, w);
    let a = if s[w] == '-' {
        w + 1
    } else {
        w
    };
    assert(s[w] == t[w]);
    lemma_digits_end(s, a);
    let b = digits_end(s, a);
    assert(b <= e);
    assert forall|j: int| a <= j < b implies numeral::is_digit(#[trigger] t[j]) by {
        assert(s[j] == t[j]);
    }
    assert(s[b] == t[b]);
    lemma_digits_end_is(t, a, b);
    if b < e {
        lemma_digits_end(s, b + 1);
        assert forall|j: int| b + 1 <= j < e implies numeral::is_digit(#[trigger] t[j]) by {
            assert(s[j] == t[j]);
        }
        assert(s[e] == t[e]);
        lemma_digits_end_is(t, b + 1, e);
    }
}

/// Texts that agree up to `m` hold the same white space before it.
proof fn lemma_white_local(s: Seq<char>, t: Seq<char>, i: int, m: int)
    requires
        0 <= i <= m <= s.len(),
        m <= t.len(),
        forall|j: int| 0 <= j < m ==> #[trigger] s[j] == t[j],
        text::after_white(s, i) < m,
    ensures
        text::after_white(t, i) == text::after_white(s, i),
{
    text::lemma_after_white(s, i);
    let e = text::after_white(s, i);
    assert forall|j: int| i <= j < e implies text::is_white(#[trigger] t[j]) by {
        assert(s[j] == t[j]);
    }
    assert(s[e] == t[e]);
    lemma_after_white_is(t, i, e);
}

/// What [`centroid_at`] matches ends with the first `>` in it.
proof fn lemma_match_ends_with_gt(s: Seq<char>, p: int)
    requires
        0 <= p <= s.len(),
        centroid_at(s, p) is Some,
    ensures
        p < centroid_end(s, p) <= s.len(),
        forall|j: int| p <= j < centroid_end(s, p) - 1 ==> #[trigger] s[j] != '>',
{
    reveal_strlit("morphit:centroid");
    reveal_strlit("-->");
    let q = text::after_white(s, p);
    text::lemma_after_white(s, p);
    let (a, b) = spaced_number(s, q + 16)->0;
    text::lemma_after_white(s, q + 16);
    lemma_number_chars(s, a);
    let (c, d) = spaced_number(s, b)->0;
    text::lemma_after_white(s, b);
    lemma_number_chars(s, c);
    let (e, f) = spaced_number(s, d)->0;
    text::lemma_after_white(s, d);
    lemma_number_chars(s, e);
    text::lemma_after_white(s, f);
    let g = text::after_white(s, f);
    assert forall|j: int| p <= j < g + 2 implies #[trigger] s[j] != '>' by {
        if q <= j < q + 16 {
            assert(s.subrange(q, q + 16)[j - q] == s[j]);
        } else if g <= j < g + 2 {
            assert(s.subrange(g, g + 3)[j - g] == s[j]);
        }
    }
}

/// Texts that agree up to `m` hold the same centroid before it.
proof fn lemma_centroid_local(s: Seq<char>, t: Seq<char>, p: int, m: int)
    requires
        0 <= p <= m <= s.len(),
        m <= t.len(),
        forall|j: int| 0 <= j < m ==> #[trigger] s[j] == t[j],
        centroid_at(s, p) is Some,
        centroid_end(s, p) <= m,
    ensures
        centroid_at(t, p) is Some,
{
    reveal_strlit("morphit:centroid");
    reveal_strlit("-->");
    lemma_match_ends_with_gt(s, p);
    let q = text::after_white(s, p);
    text::lemma_after_white(s, p);
    let (a, b) = spaced_number(s, q + 16)->0;
    text::lemma_after_white(s, q + 16);
    lemma_number_chars(s, a);
    let (c, d) = spaced_number(s, b)->0;
    text::lemma_after_white(s, b);
    lemma_number_chars(s, c);
    let (e, f) = spaced_number(s, d)->0;
    text::lemma_after_white(s, d);
    lemma_number_chars(s, e);
    text::lemma_after_white(s, f);
    let g = text::after_white(s, f);
    lemma_white_local(s, t, p, m);
    assert(s.subrange(q, q + 16) =~= t.subrange(q, q + 16));
    lemma_white_local(s, t, q + 16, m);
    assert(text::is_white(s[b]));
    lemma_number_local(s, t, a, m);
    lemma_white_local(s, t, b, m);
    assert(text::is_white(s[d]));
    lemma_number_local(s, t, c, m);
    lemma_white_local(s, t, d, m);
    assert(s.subrange(g, g + 3)[0] == s[g]);
    assert(f == g ==> s[f] == '-');
    lemma_number_local(s, t, e, m);
    lemma_white_local(s, t, f, m);
    assert(s.subrange(g, g + 3) =~= t.subrange(g, g + 3));
}

/// A comment that records a centroid is read back as that centroid.
proof fn lemma_comment_found(s: Seq<char>, k: int, c: TripleView)
    requires
        0 <= k,
        is_comment_number(c.x),
        is_comment_number(c.y),
        is_comment_number(c.z),
        text::occurs_at(s, "<!-- morphit:centroid "@ + c.spaced() + " -->"@, k),
    ensures
        text::occurs_at(s, "<!--"@, k),
        centroid_at(s, k + 4) == Some(c),
{
    reveal_strlit("<!-- morphit:centroid ");
    reveal_strlit("morphit:centroid");
    reveal_strlit("<!--");
    reveal_strlit("-->");
    reveal_strlit(" -->");
    reveal_strlit(" ");
    let whole = "<!-- morphit:centroid "@ + c.spaced() + " -->"@;
    assert forall|j: int| 0 <= j < whole.len() implies s[k + j] == #[trigger] whole[j] by {
        assert(s.subrange(k, k + whole.len())[j] == s[k + j]);
    }
    let x0 = k + 22;
    let x1 = x0 + c.x.len();
    let y0 = x1 + 1;
    let y1 = y0 + c.y.len();
    let z0 = y1 + 1;
    let z1 = z0 + c.z.len();
    assert(whole.len() == 22 + c.x.len() + 1 + c.y.len() + 1 + c.z.len() + 4);
    assert(s.subrange(k, k + 4) =~= "<!--"@) by {
        assert(whole[0] == '<' && whole[1] == '!' && whole[2] == '-' && whole[3] == '-');
    }
    assert(s[k + 4] == whole[4] && whole[4] == ' ');
    assert(s[k + 5] == whole[5] && whole[5] == 'm');
    lemma_after_white_is(s, k + 4, k + 5);
    assert(s.subrange(k + 5, k + 21) =~= "morphit:centroid"@) by {
        assert forall|j: int| 0 <= j < 16 implies s[k + 5 + j] == #[trigger] "morphit:centroid"@[j] by {
            assert(s[k + (5 + j)] == whole[5 + j]);
            assert(whole[5 + j] == "<!-- morphit:centroid "@[5 + j]);
        }
    }
    assert(s[k + 21] == whole[21] && whole[21] == ' ');
    assert(s.subrange(x0, x1) =~= c.x) by {
        assert forall|j: int| 0 <= j < c.x.len() implies s[x0 + j] == #[trigger] c.x[j] by {
            assert(s[k + (22 + j)] == whole[22 + j]);
        }
    }
    assert(s[x1] == ' ') by {
        assert(s[k + (x1 - k)] == whole[x1 - k]);
    }
    lemma_number_in_text(s, x0, c.x);
    lemma_after_white_is(s, k + 21, x0);
    assert(s.subrange(y0, y1) =~= c.y) by {
        assert forall|j: int| 0 <= j < c.y.len() implies s[y0 + j] == #[trigger] c.y[j] by {
            assert(s[k + (y0 - k + j)] == whole[y0 - k + j]);
        }
    }
    assert(s[y1] == ' ') by {
        assert(s[k + (y1 - k)] == whole[y1 - k]);
    }
    lemma_number_in_text(s, y0, c.y);
    lemma_after_white_is(s, x1, y0);
    assert(s.subrange(z0, z1) =~= c.z) by {
        assert forall|j: int| 0 <= j < c.z.len() implies s[z0 + j] == #[trigger] c.z[j] by {
            assert(s[k + (z0 - k + j)] == whole[z0 - k + j]);
        }
    }
    assert(s[z1] == ' ') by {
        assert(s[k + (z1 - k)] == whole[z1 - k]);
    }
    lemma_number_in_text(s, z0, c.z);
    lemma_after_white_is(s, y1, z0);
    assert(s[z1 + 1] == '-' && s[z1 + 2] == '-' && s[z1 + 3] == '>') by {
        assert(s[k + (z1 - k + 1)] == whole[z1 - k + 1]);
        assert(s[k + (z1 - k + 2)] == whole[z1 - k + 2]);
        assert(s[k + (z1 - k + 3)] == whole[z1 - k + 3]);
    }
    lemma_after_white_is(s, z1, z1 + 1);
    assert(s.subrange(z1 + 1, z1 + 4) =~= "-->"@);
}

/// Whether a comment at position `k` records a centroid.
spec fn records_at(s: Seq<char>, k: int) -> bool {
    text::occurs_at(s, "<!--"@, k) && centroid_at(s, k + 4) is Some
}

proof fn lemma_no_centroid(s: Seq<char>, from: int)
    requires
        0 <= from,
        recorded_centroid(s, from) is None,
    ensures
        forall|k: int| from <= k ==> !#[trigger] records_at(s, k),
    decreases s.len() - from + 1,
{
    if from <= s.len() {
        lemma_no_centroid(s, from + 1);
        assert(!records_at(s, from));
    }
}

proof fn lemma_first_centroid(s: Seq<char>, from: int, k: int)
    requires
        0 <= from <= k,
        records_at(s, k),
        forall|j: int| from <= j < k ==> !#[trigger] records_at(s, j),
    ensures
        recorded_centroid(s, from) == centroid_at(s, k + 4),
    decreases k - from,
{
    if from < k {
        assert(!records_at(s, from));
        lemma_first_centroid(s, from + 1, k);
    }
}

/// The end of a `<robot ...>` tag follows its `>`.
proof fn lemma_robot_end(s: Seq<char>, k: int)
    requires
        0 <= k,
        robot_end(s, k) is Some,
    ensures
        0 < robot_end(s, k)->0 <= s.len(),
        s[robot_end(s, k)->0 - 1] == '>',
    decreases s.len() - k + 1,
{
    if text::occurs_at(s, "<robot"@, k) && word_ends(s, k + 6) && text::first_char(
        s,
        '>',
        k + 6,
    ) is Some {
        text::lemma_first_char(s, '>', k + 6);
    } else {
        lemma_robot_end(s, k + 1);
    }
}

/// The comment without its indentation.
spec fn mark(c: TripleView) -> Seq<char> {
    "<!-- morphit:centroid "@ + c.spaced() + " -->"@
}

proof fn lemma_mark(c: TripleView)
    ensures
        centroid_comment(c) == seq![' ', ' '] + mark(c),
{
    reveal_strlit("  <!-- morphit:centroid ");
    reveal_strlit("<!-- morphit:centroid ");
    let a = "  <!-- morphit:centroid "@;
    let b = "<!-- morphit:centroid "@;
    assert(a =~= seq![' ', ' '] + b);
    assert(centroid_comment(c) =~= seq![' ', ' '] + mark(c));
}

/// No comment before the tag's end records a centroid after the insertion when
/// none did before it.
proof fn lemma_nothing_recorded_before(urdf: Seq<char>, s: Seq<char>, m: int, j: int)
    requires
        0 < m <= urdf.len(),
        m + 3 <= s.len(),
        forall|i: int| 0 <= i < m ==> #[trigger] s[i] == urdf[i],
        s[m - 1] == '>',
        s[m] == '\n',
        s[m + 1] == ' ',
        s[m + 2] == ' ',
        recorded_centroid(urdf, 0) is None,
        0 <= j < m + 3,
    ensures
        !records_at(s, j),
{
    if records_at(s, j) {
        assert("<!--"@.len() == 4 && "<!--"@[0] == '<' && "<!--"@[1] == '!' && "<!--"@[2] == '-'
            && "<!--"@[3] == '-') by {
            reveal_strlit("<!--");
        }
        let open = s.subrange(j, j + 4);
        assert(open[0] == s[j] && open[1] == s[j + 1] && open[2] == s[j + 2] && open[3] == s[j + 3]);
        assert(j + 4 <= m - 1);
        lemma_match_ends_with_gt(s, j + 4);
        if centroid_end(s, j + 4) > m {
            assert(s[m - 1] != '>');
        }
        lemma_centroid_local(s, urdf, j + 4, m);
        assert(urdf.subrange(j, j + 4) =~= open);
        lemma_no_centroid(urdf, 0);
        assert(records_at(urdf, j));
    }
}

proof fn lemma_read_back_at(s: Seq<char>, k: int, c: TripleView)
    requires
        0 <= k,
        is_comment_number(c.x),
        is_comment_number(c.y),
        is_comment_number(c.z),
        text::occurs_at(s, mark(c), k),
        forall|j: int| 0 <= j < k ==> !#[trigger] records_at(s, j),
    ensures
        recorded_centroid(s, 0) == Some(c),
{
    lemma_comment_found(s, k, c);
    assert(records_at(s, k));
    lemma_first_centroid(s, 0, k);
}

/// The centroid that is written into a URDF is read back from it, as it was
/// written, wherever the URDF recorded none before.
pub proof fn the_recorded_centroid_is_read_back(urdf: Seq<char>, c: TripleView)
    requires
        recorded_centroid(urdf, 0) is None,
        is_comment_number(c.x),
        is_comment_number(c.y),
        is_comment_number(c.z),
    ensures
        recorded_centroid(with_centroid(urdf, c), 0) == Some(c),
{
    let s = with_centroid(urdf, c);
    lemma_mark(c);
    assert("\n"@ =~= seq!['\n']) by {
        reveal_strlit("\n");
    }
    match robot_end(urdf, 0) {
        Some(m) => {
            lemma_robot_end(urdf, 0);
            assert(s =~= urdf.take(m) + seq!['\n'] + (seq![' ', ' '] + mark(c)) + urdf.skip(m));
            assert(s.subrange(m + 3, m + 3 + mark(c).len()) =~= mark(c));
            assert forall|j: int| 0 <= j < m + 3 implies !#[trigger] records_at(s, j) by {
                lemma_nothing_recorded_before(urdf, s, m, j);
            }
            lemma_read_back_at(s, m + 3, c);
        },
        None => {
            assert(s =~= seq![' ', ' '] + mark(c) + seq!['\n'] + urdf);
            assert(s.subrange(2, 2int + mark(c).len()) =~= mark(c));
            assert forall|j: int| 0 <= j < 2 implies !#[trigger] records_at(s, j) by {
                assert(s[j] == ' ');
                assert("<!--"@.len() == 4 && "<!--"@[0] == '<') by {
                    reveal_strlit("<!--");
                }
                if records_at(s, j) {
                    assert(s.subrange(j, j + 4)[0] == s[j]);
                }
            }
            lemma_read_back_at(s, 2, c);
        },
    }
}

/// What the `robot` element holds once the centroid is recorded.
pub open spec fn recorded_items(p: ObjectPartsView) -> Seq<Item> {
    seq![gap1(), Item::Comment(" morphit:centroid "@ + p.centroid_comment.spaced() + " "@)]
        + robot_items(p)
}

proof fn lemma_not_yet_the_robot(s: Seq<char>, k: int)
    requires
        0 <= k <= 22 <= s.len(),
        s.take(22) == "<?xml version=\"1.0\"?>\n"@,
    ensures
        robot_end(s, k) == robot_end(s, 22),
    decreases 22 - k,
{
    if k < 22 {
        lemma_not_yet_the_robot(s, k + 1);
        reveal_strlit("<?xml version=\"1.0\"?>\n");
        reveal_strlit("<robot");
        if text::occurs_at(s, "<robot"@, k) {
            let found = s.subrange(k, k + 6);
            assert(found[0] == s[k] && found[1] == s[k + 1]);
            assert(s.take(22)[k] == s[k]);
            assert(k == 0);
            assert(s.take(22)[1] == s[1]);
        }
    }
}

/// The tag of the `robot` element.
spec fn robot_tag(p: ObjectPartsView) -> Seq<char> {
    markup::piece_text(Piece::Open("robot"@, seq![("name"@, p.robot_name)]))
}

proof fn lemma_robot_tag(p: ObjectPartsView)
    ensures
        robot_tag(p) == "<robot name=\""@ + p.robot_name + seq!['"', '>'],
{
    let a = seq![("name"@, p.robot_name)];
    a.lemma_flat_map_singleton(|x: (Seq<char>, Seq<char>)| markup::attribute_text(x));
    reveal_strlit("robot");
    reveal_strlit("name");
    reveal_strlit("<robot name=\"");
    assert("<robot name=\""@ =~= seq!['<'] + "robot"@ + (seq![' '] + "name"@ + seq!['=', '"']));
    assert(robot_tag(p) =~= "<robot name=\""@ + p.robot_name + seq!['"', '>']);
}

/// The tag of the `robot` element is found right after the declaration.
proof fn lemma_robot_tag_found(p: ObjectPartsView, rest: Seq<char>)
    requires
        !p.robot_name.contains('>'),
    ensures
        robot_end("<?xml version=\"1.0\"?>\n"@ + robot_tag(p) + rest, 0) == Some(
            22int + robot_tag(p).len(),
        ),
        "<?xml version=\"1.0\"?>\n"@.len() == 22,
{
    let decl = "<?xml version=\"1.0\"?>\n"@;
    let tag = robot_tag(p);
    let s = decl + tag + rest;
    lemma_robot_tag(p);
    reveal_strlit("<?xml version=\"1.0\"?>\n");
    reveal_strlit("<robot name=\"");
    reveal_strlit("<robot");
    assert(s.take(22) =~= decl);
    lemma_not_yet_the_robot(s, 0);
    assert(s.subrange(22, 28) =~= "<robot"@);
    assert(s[28] == ' ');
    let end = 22 + tag.len() - 1;
    assert(s[end] == '>') by {
        assert(s[end] == tag[tag.len() - 1]);
    }
    text::lemma_first_char(s, '>', 28);
    assert forall|j: int| 28 <= j < end implies s[j] != '>' by {
        assert(s[j] == tag[j - 22]);
        if 13 <= j - 22 < 13 + p.robot_name.len() {
            assert(tag[j - 22] == p.robot_name[j - 35]);
            assert(p.robot_name.contains(p.robot_name[j - 35]));
        }
    }
    assert(text::first_char(s, '>', 28) == Some(end));
}

/// What is written for an object, comment and all, is a document with that comment
/// right below its `robot` element.
pub proof fn lemma_written_document(p: ObjectPartsView)
    requires
        !p.robot_name.contains('>'),
    ensures
        with_centroid(plain_urdf(p), p.centroid_comment) == markup::document_text(
            robot_item(p, recorded_items(p)),
        ),
{
    let decl = "<?xml version=\"1.0\"?>\n"@;
    let tag = robot_tag(p);
    let open = seq![Piece::Open("robot"@, seq![("name"@, p.robot_name)])];
    let inner = markup::list_pieces(robot_items(p)) + seq![Piece::Close("robot"@)];
    let note = Item::Comment(" morphit:centroid "@ + p.centroid_comment.spaced() + " "@);
    let extra = seq![gap1(), note];
    assert(robot_items(p).len() > 0);
    assert(markup::item_pieces(robot_item(p, robot_items(p))) =~= open + inner);
    markup::lemma_text_concat(open, inner);
    markup::lemma_text_one(open[0]);
    let rest = markup::pieces_text(inner) + "\n"@;
    assert(plain_urdf(p) =~= decl + tag + rest);
    lemma_robot_tag_found(p, rest);
    let end = 22int + tag.len();
    assert(plain_urdf(p).take(end) =~= decl + tag);
    assert(plain_urdf(p).skip(end) =~= rest);
    markup::lemma_pieces_concat(extra, robot_items(p));
    markup::lemma_few_pieces(extra);
    let added = seq![Piece::Blank("\n  "@), Piece::Comment(note->Comment_0)];
    assert(markup::list_pieces(extra) =~= added);
    assert(markup::item_pieces(robot_item(p, recorded_items(p))) =~= open + (added + inner));
    markup::lemma_text_concat(open, added + inner);
    markup::lemma_text_concat(added, inner);
    markup::lemma_text_concat(seq![added[0]], seq![added[1]]);
    markup::lemma_text_one(added[0]);
    markup::lemma_text_one(added[1]);
    assert(added =~= seq![added[0]] + seq![added[1]]);
    let c = p.centroid_comment;
    assert("\n"@ + centroid_comment(c) =~= "\n  "@ + ("<!--"@ + (" morphit:centroid "@ + c.spaced()
        + " "@) + "-->"@)) by {
        reveal_strlit("\n");
        reveal_strlit("\n  ");
        reveal_strlit("  <!-- morphit:centroid ");
        reveal_strlit("<!--");
        reveal_strlit(" morphit:centroid ");
        reveal_strlit(" -->");
        reveal_strlit("-->");
        reveal_strlit(" ");
    }
    assert(with_centroid(plain_urdf(p), c) =~= markup::document_text(
        robot_item(p, recorded_items(p)),
    ));
}

/// The URDF before its centroid is recorded starts with its declaration and the tag
/// of its `robot` element.
proof fn lemma_plain_start(p: ObjectPartsView) -> (rest: Seq<char>)
    ensures
        plain_urdf(p) == "<?xml version=\"1.0\"?>\n"@ + robot_tag(p) + rest,
{
    let open = seq![Piece::Open("robot"@, seq![("name"@, p.robot_name)])];
    let inner = markup::list_pieces(robot_items(p)) + seq![Piece::Close("robot"@)];
    assert(robot_items(p).len() > 0);
    assert(markup::item_pieces(robot_item(p, robot_items(p))) =~= open + inner);
    markup::lemma_text_concat(open, inner);
    markup::lemma_text_one(open[0]);
    let rest = markup::pieces_text(inner) + "\n"@;
    assert(plain_urdf(p) =~= "<?xml version=\"1.0\"?>\n"@ + robot_tag(p) + rest);
    rest
}

/// No comment starts in the declaration or in the tag of the `robot` element.
proof fn lemma_no_comment_in_tag(p: ObjectPartsView, s: Seq<char>, j: int)
    requires
        !p.robot_name.contains('<'),
        s.len() >= 25 + robot_tag(p).len(),
        s.take(25int + robot_tag(p).len()) == "<?xml version=\"1.0\"?>\n"@ + robot_tag(p) + seq![
            '\n',
            ' ',
            ' ',
        ],
        0 <= j < 25 + robot_tag(p).len(),
    ensures
        !records_at(s, j),
{
    let tag = robot_tag(p);
    let decl = "<?xml version=\"1.0\"?>\n"@;
    let start = decl + tag + seq!['\n', ' ', ' '];
    lemma_robot_tag(p);
    reveal_strlit("<?xml version=\"1.0\"?>\n");
    reveal_strlit("<robot name=\"");
    reveal_strlit("<!--");
    if records_at(s, j) {
        let found = s.subrange(j, j + 4);
        assert(found[0] == s[j] && found[1] == s[j + 1]);
        assert(s.take(25int + tag.len())[j] == s[j]);
        assert(start[j] == '<');
        if 35 <= j < 35 + p.robot_name.len() {
            assert(start[j] == p.robot_name[j - 35]);
            assert(p.robot_name.contains(p.robot_name[j - 35]));
        }
        assert(j == 0 || j == 22);
        assert(s.take(25int + tag.len())[j + 1] == s[j + 1]);
        assert(start[1] == '?' && start[23] == 'r');
    }
}

/// The centroid that is written for an object is read back.
pub proof fn lemma_written_centroid(p: ObjectPartsView)
    requires
        !p.robot_name.contains('>'),
        !p.robot_name.contains('<'),
        is_comment_number(p.centroid_comment.x),
        is_comment_number(p.centroid_comment.y),
        is_comment_number(p.centroid_comment.z),
    ensures
        recorded_centroid(with_centroid(plain_urdf(p), p.centroid_comment), 0) == Some(
            p.centroid_comment,
        ),
{
    let decl = "<?xml version=\"1.0\"?>\n"@;
    let tag = robot_tag(p);
    let c = p.centroid_comment;
    let plain = plain_urdf(p);
    let rest = lemma_plain_start(p);
    lemma_robot_tag_found(p, rest);
    lemma_mark(c);
    let end = 22int + tag.len();
    assert("\n"@ =~= seq!['\n']) by {
        reveal_strlit("\n");
    }
    let s = with_centroid(plain, c);
    assert(plain.take(end) =~= decl + tag);
    let start = decl + tag + seq!['\n', ' ', ' '];
    assert(s =~= start + mark(c) + plain.skip(end));
    let k = end + 3;
    assert(s.take(k) =~= start);
    assert(s.subrange(k, k + mark(c).len()) =~= mark(c));
    assert forall|j: int| 0 <= j < k implies !#[trigger] records_at(s, j) by {
        lemma_no_comment_in_tag(p, s, j);
    }
    lemma_read_back_at(s, k, c);
}

/// Every sphere has a radius: its own while there are enough, else the last one.
pub proof fn every_sphere_has_a_radius<T>(radii: Seq<T>, n: nat)
    requires
        radii.len() > 0,
    ensures
        fitted(radii, n).len() == n,
        n <= radii.len() ==> fitted(radii, n) == radii.take(n as int),
        n > radii.len() ==> radii.is_prefix_of(fitted(radii, n)) && forall|i: int|
            radii.len() <= i < n ==> (#[trigger] fitted(radii, n)[i]) == radii.last(),
{
    if n <= radii.len() {
        assert(fitted(radii, n) =~= radii.take(n as int));
    } else {
        assert(radii =~= fitted(radii, n).subrange(0, radii.len() as int));
    }
}

} // verus!
