//! What a simulator reads from the MJCF that is written for an object.

use vstd::prelude::*;

use crate::markup;
use crate::markup::{Item, Piece};
use crate::numeral::TripleView;
use crate::object_document;
use crate::object_model;
use crate::object_model::{ObjectPartsView, ObjectSphereView};
use crate::text;
use crate::xml;
use crate::xml::NodeView;

verus! {

/// The lines, each after a line end.
spec fn tailed(lines: Seq<Seq<char>>) -> Seq<char>
    decreases lines.len(),
{
    if lines.len() == 0 {
        Seq::empty()
    } else {
        tailed(lines.drop_last()) + seq!['\n'] + lines.last()
    }
}

proof fn lemma_tailed_concat(a: Seq<Seq<char>>, b: Seq<Seq<char>>)
    ensures
        tailed(a + b) == tailed(a) + tailed(b),
    decreases b.len(),
{
    if b.len() == 0 {
        assert(a + b =~= a);
        assert(tailed(a) + tailed(b) =~= tailed(a));
    } else {
        lemma_tailed_concat(a, b.drop_last());
        assert((a + b).drop_last() =~= a + b.drop_last());
        assert(tailed(a + b) =~= tailed(a) + tailed(b));
    }
}

proof fn lemma_tailed_one(l: Seq<char>)
    ensures
        tailed(seq![l]) == seq!['\n'] + l,
{
    assert(seq![l].drop_last() =~= Seq::<Seq<char>>::empty());
    assert(tailed(seq![l].drop_last()) =~= Seq::<char>::empty());
    assert(tailed(seq![l]) =~= seq!['\n'] + l);
}

/// Lines that are joined by line ends.
proof fn lemma_join_lines(lines: Seq<Seq<char>>)
    requires
        lines.len() > 0,
    ensures
        text::join(lines, "\n"@) == lines[0] + tailed(lines.skip(1)),
    decreases lines.len(),
{
    reveal_strlit("\n");
    assert("\n"@ =~= seq!['\n']);
    let rest = lines.skip(1);
    if lines.len() == 1 {
        assert(lines[0] + tailed(rest) =~= lines[0]);
    } else {
        lemma_join_lines(lines.drop_last());
        assert(lines.drop_last().skip(1) =~= rest.drop_last());
        assert(text::join(lines, "\n"@) =~= lines[0] + tailed(rest));
    }
}

/// White space and a piece after it.
proof fn lemma_line(blank: Seq<char>, p: Piece)
    ensures
        markup::pieces_text(seq![Piece::Blank(blank), p]) == blank + markup::piece_text(p),
{
    markup::lemma_text_one(Piece::Blank(blank));
    markup::lemma_text_one(p);
    markup::lemma_text_concat(seq![Piece::Blank(blank)], seq![p]);
    assert(seq![Piece::Blank(blank)] + seq![p] =~= seq![Piece::Blank(blank), p]);
}

proof fn lemma_attributes_push(
    attributes: Seq<(Seq<char>, Seq<char>)>,
    a: (Seq<char>, Seq<char>),
)
    ensures
        markup::attributes_text(attributes.push(a)) == markup::attributes_text(attributes)
            + markup::attribute_text(a),
{
    let f = |x: (Seq<char>, Seq<char>)| markup::attribute_text(x);
    attributes.lemma_flat_map_push(f, a);
}

proof fn lemma_no_attributes()
    ensures
        markup::attributes_text(Seq::empty()) == Seq::<char>::empty(),
{
    let f = |x: (Seq<char>, Seq<char>)| markup::attribute_text(x);
    assert(Seq::<(Seq<char>, Seq<char>)>::empty().flat_map(f) =~= Seq::<char>::empty());
}

/// A few attributes, written out.
proof fn lemma_attributes(
    a: (Seq<char>, Seq<char>),
    b: (Seq<char>, Seq<char>),
    c: (Seq<char>, Seq<char>),
    d: (Seq<char>, Seq<char>),
    e: (Seq<char>, Seq<char>),
)
    ensures
        markup::attributes_text(seq![a]) == markup::attribute_text(a),
        markup::attributes_text(seq![a, b]) == markup::attribute_text(a) + markup::attribute_text(
            b,
        ),
        markup::attributes_text(seq![a, b, c, d, e]) == markup::attribute_text(a)
            + markup::attribute_text(b) + markup::attribute_text(c) + markup::attribute_text(d)
            + markup::attribute_text(e),
{
    let none = Seq::<(Seq<char>, Seq<char>)>::empty();
    lemma_no_attributes();
    lemma_attributes_push(none, a);
    lemma_attributes_push(none.push(a), b);
    lemma_attributes_push(none.push(a).push(b), c);
    lemma_attributes_push(none.push(a).push(b).push(c), d);
    lemma_attributes_push(none.push(a).push(b).push(c).push(d), e);
    assert(none.push(a) =~= seq![a]);
    assert(none.push(a).push(b) =~= seq![a, b]);
    assert(none.push(a).push(b).push(c).push(d).push(e) =~= seq![a, b, c, d, e]);
    assert(Seq::<char>::empty() + markup::attribute_text(a) =~= markup::attribute_text(a));
}

/// The name of sphere `i`.
pub open spec fn sphere_name(i: int) -> Seq<char> {
    "sphere_"@ + text::decimal(i as nat)
}

/// Three numbers with spaces between them.
pub open spec fn spaced(t: TripleView) -> Seq<char> {
    t.x + " "@ + t.y + " "@ + t.z
}

/// The shape of sphere `i`.
spec fn geom_item(s: ObjectSphereView, rgba: Seq<char>, i: int) -> Item {
    markup::element(
        "geom"@,
        seq![
            ("name"@, sphere_name(i) + "_geom"@),
            ("type"@, "sphere"@),
            ("size"@, s.radius),
            ("density"@, s.density),
            ("rgba"@, rgba),
        ],
        Seq::empty(),
    )
}

/// The body of sphere `i`.
spec fn sphere_body(s: ObjectSphereView, rgba: Seq<char>, i: int) -> Item {
    markup::element(
        "body"@,
        seq![("name"@, sphere_name(i)), ("pos"@, spaced(s.center))],
        seq![
            Item::Blank("\n        "@),
            geom_item(s, rgba, i),
            Item::Blank("\n      "@),
        ],
    )
}

/// The bodies of the first `n` spheres.
spec fn sphere_bodies(spheres: Seq<ObjectSphereView>, rgba: Seq<char>, n: int) -> Seq<Item>
    decreases n,
{
    if n <= 0 {
        Seq::empty()
    } else {
        sphere_bodies(spheres, rgba, n - 1) + seq![
            Item::Blank("\n      "@),
            sphere_body(spheres[n - 1], rgba, n - 1),
        ]
    }
}

/// What lets a free object move.
spec fn free_items(p: ObjectPartsView) -> Seq<Item> {
    if p.anchored {
        Seq::empty()
    } else {
        seq![
            Item::Blank("\n      "@),
            object_model::leaf("freejoint"@, "name"@, "base_free"@),
        ]
    }
}

/// What the `base` body holds.
spec fn base_items(p: ObjectPartsView) -> Seq<Item> {
    free_items(p) + sphere_bodies(p.spheres, p.rgba, p.spheres.len() as int) + seq![
        Item::Blank("\n    "@),
    ]
}

/// The `base` body.
spec fn base_body(p: ObjectPartsView) -> Item {
    markup::element(
        "body"@,
        seq![("name"@, "base"@), ("pos"@, spaced(p.centroid))],
        base_items(p),
    )
}

/// What the world holds.
spec fn world_items(p: ObjectPartsView) -> Seq<Item> {
    seq![Item::Blank("\n    "@), base_body(p), Item::Blank("\n  "@)]
}

/// What the document holds.
spec fn mujoco_items(p: ObjectPartsView) -> Seq<Item> {
    seq![
        Item::Blank("\n  "@),
        object_model::leaf("option"@, "gravity"@, "0 0 -9.8"@),
        Item::Blank("\n  "@),
        object_model::leaf("compiler"@, "inertiafromgeom"@, "true"@),
        Item::Blank("\n  "@),
        markup::element("worldbody"@, Seq::empty(), world_items(p)),
        Item::Blank("\n"@),
    ]
}

/// The document that is written for an object.
spec fn mujoco_item(p: ObjectPartsView) -> Item {
    markup::element("mujoco"@, seq![("model"@, p.robot_name)], mujoco_items(p))
}

/// The line that opens the body of a sphere.
proof fn lemma_body_line(name: Seq<char>, pos: Seq<char>)
    ensures
        seq!['\n'] + ("      <body name=\""@ + name + "\" pos=\""@ + pos + "\">"@)
            == markup::pieces_text(
            seq![
                Piece::Blank("\n      "@),
                Piece::Open("body"@, seq![("name"@, name), ("pos"@, pos)]),
            ],
        ),
        seq!['\n'] + ("    <body name=\"base\" pos=\""@ + pos + "\">"@) == markup::pieces_text(
            seq![
                Piece::Blank("\n    "@),
                Piece::Open("body"@, seq![("name"@, "base"@), ("pos"@, pos)]),
            ],
        ),
{
    let a = ("name"@, name);
    let b = ("pos"@, pos);
    let c = ("name"@, "base"@);
    lemma_attributes(a, b, a, a, a);
    lemma_attributes(c, b, a, a, a);
    lemma_line("\n      "@, Piece::Open("body"@, seq![a, b]));
    lemma_line("\n    "@, Piece::Open("body"@, seq![c, b]));
    reveal_strlit("      <body name=\"");
    reveal_strlit("    <body name=\"base\" pos=\"");
    reveal_strlit("\" pos=\"");
    reveal_strlit("\">");
    reveal_strlit("\n      ");
    reveal_strlit("\n    ");
    reveal_strlit("body");
    reveal_strlit("name");
    reveal_strlit("pos");
    reveal_strlit("base");
    assert(seq!['\n'] + "      <body name=\""@ =~= "\n      "@ + (seq!['<'] + "body"@ + (seq![' ']
        + "name"@ + seq!['=', '"'])));
    assert("\" pos=\""@ =~= seq!['"'] + (seq![' '] + "pos"@ + seq!['=', '"']));
    assert("\">"@ =~= seq!['"', '>']);
    assert(seq!['\n'] + ("      <body name=\""@ + name + "\" pos=\""@ + pos + "\">"@)
        =~= "\n      "@ + (seq!['<'] + "body"@ + (markup::attribute_text(a)
        + markup::attribute_text(b)) + seq!['>']));
    assert(seq!['\n'] + "    <body name=\"base\" pos=\""@ =~= "\n    "@ + (seq!['<'] + "body"@
        + markup::attribute_text(c) + (seq![' '] + "pos"@ + seq!['=', '"'])));
    assert(seq!['\n'] + ("    <body name=\"base\" pos=\""@ + pos + "\">"@) =~= "\n    "@ + (seq![
        '<',
    ] + "body"@ + (markup::attribute_text(c) + markup::attribute_text(b)) + seq!['>']));
}

/// The line of the shape of a sphere.
proof fn lemma_geom_line(s: ObjectSphereView, rgba: Seq<char>, i: int)
    ensures
        seq!['\n'] + ("        <geom name=\""@ + sphere_name(i) + "_geom\" type=\"sphere\" size=\""@
            + s.radius + "\" density=\""@ + s.density + "\" rgba=\""@ + rgba + "\"/>"@)
            == markup::pieces_text(
            seq![
                Piece::Blank("\n        "@),
                Piece::Empty(
                    "geom"@,
                    seq![
                        ("name"@, sphere_name(i) + "_geom"@),
                        ("type"@, "sphere"@),
                        ("size"@, s.radius),
                        ("density"@, s.density),
                        ("rgba"@, rgba),
                    ],
                ),
            ],
        ),
{
    let n = sphere_name(i);
    let a = ("name"@, n + "_geom"@);
    let b = ("type"@, "sphere"@);
    let c = ("size"@, s.radius);
    let d = ("density"@, s.density);
    let e = ("rgba"@, rgba);
    lemma_attributes(a, b, c, d, e);
    lemma_line("\n        "@, Piece::Empty("geom"@, seq![a, b, c, d, e]));
    reveal_strlit("        <geom name=\"");
    reveal_strlit("_geom\" type=\"sphere\" size=\"");
    reveal_strlit("\" density=\"");
    reveal_strlit("\" rgba=\"");
    reveal_strlit("\"/>");
    reveal_strlit("\n        ");
    reveal_strlit("geom");
    reveal_strlit("_geom");
    reveal_strlit("name");
    reveal_strlit("type");
    reveal_strlit("sphere");
    reveal_strlit("size");
    reveal_strlit("density");
    reveal_strlit("rgba");
    let t1 = "\n        "@ + (seq!['<'] + "geom"@ + (seq![' '] + "name"@ + seq!['=', '"']));
    assert(seq!['\n'] + "        <geom name=\""@ =~= t1);
    let t2 = "_geom"@ + seq!['"'] + markup::attribute_text(b) + (seq![' '] + "size"@ + seq![
        '=',
        '"',
    ]);
    assert("_geom\" type=\"sphere\" size=\""@ =~= t2);
    let t3 = seq!['"'] + (seq![' '] + "density"@ + seq!['=', '"']);
    assert("\" density=\""@ =~= t3);
    let t4 = seq!['"'] + (seq![' '] + "rgba"@ + seq!['=', '"']);
    assert("\" rgba=\""@ =~= t4);
    assert("\"/>"@ =~= seq!['"', '/', '>']);
    lemma_geom_parts(n, b, s.radius, s.density, rgba);
}

/// How the parts of the line of a shape make up its attributes.
proof fn lemma_geom_parts(
    n: Seq<char>,
    b: (Seq<char>, Seq<char>),
    radius: Seq<char>,
    density: Seq<char>,
    rgba: Seq<char>,
)
    ensures
        ("\n        "@ + (seq!['<'] + "geom"@ + (seq![' '] + "name"@ + seq!['=', '"']))) + n + (
        "_geom"@ + seq!['"'] + markup::attribute_text(b) + (seq![' '] + "size"@ + seq!['=', '"']))
            + radius + (seq!['"'] + (seq![' '] + "density"@ + seq!['=', '"'])) + density + (seq![
            '"',
        ] + (seq![' '] + "rgba"@ + seq!['=', '"'])) + rgba + seq!['"', '/', '>'] == "\n        "@
            + (seq!['<'] + "geom"@ + (markup::attribute_text(("name"@, n + "_geom"@))
            + markup::attribute_text(b) + markup::attribute_text(("size"@, radius))
            + markup::attribute_text(("density"@, density)) + markup::attribute_text(
            ("rgba"@, rgba),
        )) + seq!['/', '>']),
{
    let l = ("\n        "@ + (seq!['<'] + "geom"@ + (seq![' '] + "name"@ + seq!['=', '"']))) + n + (
    "_geom"@ + seq!['"'] + markup::attribute_text(b) + (seq![' '] + "size"@ + seq!['=', '"']))
        + radius + (seq!['"'] + (seq![' '] + "density"@ + seq!['=', '"'])) + density + (seq!['"']
        + (seq![' '] + "rgba"@ + seq!['=', '"'])) + rgba + seq!['"', '/', '>'];
    let r = "\n        "@ + (seq!['<'] + "geom"@ + (markup::attribute_text(("name"@, n + "_geom"@))
        + markup::attribute_text(b) + markup::attribute_text(("size"@, radius))
        + markup::attribute_text(("density"@, density)) + markup::attribute_text(("rgba"@, rgba)))
        + seq!['/', '>']);
    assert(l =~= r);
}

/// A line that is one piece after its indentation.
proof fn lemma_piece_line(line: Seq<char>, blank: Seq<char>, p: Piece)
    requires
        seq!['\n'] + line == blank + markup::piece_text(p),
    ensures
        tailed(seq![line]) == markup::pieces_text(seq![Piece::Blank(blank), p]),
{
    lemma_line(blank, p);
    lemma_tailed_one(line);
}

/// The lines of a sphere are its body.
proof fn lemma_sphere_lines(s: ObjectSphereView, rgba: Seq<char>, i: int)
    ensures
        tailed(object_model::mjcf_sphere(s, rgba, i)) == markup::pieces_text(
            markup::list_pieces(
                seq![Item::Blank("\n      "@), sphere_body(s, rgba, i)],
            ),
        ),
{
    let n = sphere_name(i);
    let lines = object_model::mjcf_sphere(s, rgba, i);
    let body = Piece::Open("body"@, seq![("name"@, n), ("pos"@, spaced(s.center))]);
    let geom = Piece::Empty(
        "geom"@,
        seq![
            ("name"@, n + "_geom"@),
            ("type"@, "sphere"@),
            ("size"@, s.radius),
            ("density"@, s.density),
            ("rgba"@, rgba),
        ],
    );
    let close = Piece::Close("body"@);
    assert(object_model::sphere_id(i) == n);
    assert(s.center.spaced() == spaced(s.center));
    lemma_body_line(n, spaced(s.center));
    lemma_geom_line(s, rgba, i);
    reveal_strlit("      </body>");
    reveal_strlit("\n      ");
    reveal_strlit("body");
    assert(seq!['\n'] + "      </body>"@ =~= "\n      "@ + markup::piece_text(close));
    lemma_piece_line("      </body>"@, "\n      "@, close);
    lemma_tailed_one(lines[0]);
    lemma_tailed_one(lines[1]);
    lemma_tailed_concat(seq![lines[0]], seq![lines[1]]);
    lemma_tailed_concat(seq![lines[0]] + seq![lines[1]], seq![lines[2]]);
    assert(seq![lines[0]] + seq![lines[1]] + seq![lines[2]] =~= lines);
    let a = seq![Piece::Blank("\n      "@), body];
    let b = seq![Piece::Blank("\n        "@), geom];
    let c = seq![Piece::Blank("\n      "@), close];
    markup::lemma_text_concat(a, b);
    markup::lemma_text_concat(a + b, c);
    let inner = seq![
        Item::Blank("\n        "@),
        geom_item(s, rgba, i),
        Item::Blank("\n      "@),
    ];
    markup::lemma_few_pieces(inner);
    let items = seq![Item::Blank("\n      "@), sphere_body(s, rgba, i)];
    markup::lemma_few_pieces(items);
    assert(markup::item_pieces(sphere_body(s, rgba, i)) =~= seq![body] + markup::list_pieces(inner)
        + seq![close]);
    assert(markup::list_pieces(items) =~= a + b + c);
}

/// The lines of the spheres are their bodies.
proof fn lemma_spheres_lines(spheres: Seq<ObjectSphereView>, rgba: Seq<char>, n: int)
    ensures
        tailed(object_model::mjcf_spheres(spheres, rgba, n)) == markup::pieces_text(
            markup::list_pieces(sphere_bodies(spheres, rgba, n)),
        ),
    decreases n,
{
    if n > 0 {
        lemma_spheres_lines(spheres, rgba, n - 1);
        lemma_sphere_lines(spheres[n - 1], rgba, n - 1);
        let front = sphere_bodies(spheres, rgba, n - 1);
        let last = seq![Item::Blank("\n      "@), sphere_body(spheres[n - 1], rgba, n - 1)];
        lemma_tailed_concat(
            object_model::mjcf_spheres(spheres, rgba, n - 1),
            object_model::mjcf_sphere(spheres[n - 1], rgba, n - 1),
        );
        markup::lemma_pieces_concat(front, last);
        markup::lemma_text_concat(markup::list_pieces(front), markup::list_pieces(last));
    } else {
        let f = |x: Piece| markup::piece_text(x);
        assert(Seq::<Piece>::empty().flat_map(f) =~= Seq::<char>::empty());
        assert(tailed(object_model::mjcf_spheres(spheres, rgba, n)) =~= Seq::<char>::empty());
    }
}

/// The line of a leaf.
proof fn lemma_leaf_line(
    line: Seq<char>,
    blank: Seq<char>,
    tag: Seq<char>,
    name: Seq<char>,
    value: Seq<char>,
)
    requires
        seq!['\n'] + line == blank + (seq!['<'] + tag + (seq![' '] + name + seq!['=', '"'] + value
            + seq!['"']) + seq!['/', '>']),
    ensures
        tailed(seq![line]) == markup::pieces_text(
            seq![Piece::Blank(blank), Piece::Empty(tag, seq![(name, value)])],
        ),
{
    let a = (name, value);
    lemma_attributes(a, a, a, a, a);
    lemma_piece_line(line, blank, Piece::Empty(tag, seq![a]));
}

proof fn lemma_fixed_lines()
    ensures
        tailed(seq!["  <option gravity=\"0 0 -9.8\"/>"@]) == markup::pieces_text(
            seq![
                Piece::Blank("\n  "@),
                Piece::Empty("option"@, seq![("gravity"@, "0 0 -9.8"@)]),
            ],
        ),
        tailed(seq!["  <compiler inertiafromgeom=\"true\"/>"@]) == markup::pieces_text(
            seq![
                Piece::Blank("\n  "@),
                Piece::Empty("compiler"@, seq![("inertiafromgeom"@, "true"@)]),
            ],
        ),
        tailed(seq!["      <freejoint name=\"base_free\"/>"@]) == markup::pieces_text(
            seq![
                Piece::Blank("\n      "@),
                Piece::Empty("freejoint"@, seq![("name"@, "base_free"@)]),
            ],
        ),
{
    reveal_strlit("  <option gravity=\"0 0 -9.8\"/>");
    reveal_strlit("\n  ");
    reveal_strlit("option");
    reveal_strlit("gravity");
    reveal_strlit("0 0 -9.8");
    assert(seq!['\n'] + "  <option gravity=\"0 0 -9.8\"/>"@ =~= "\n  "@ + (seq!['<'] + "option"@ + (
    seq![' '] + "gravity"@ + seq!['=', '"'] + "0 0 -9.8"@ + seq!['"']) + seq!['/', '>']));
    lemma_leaf_line(
        "  <option gravity=\"0 0 -9.8\"/>"@,
        "\n  "@,
        "option"@,
        "gravity"@,
        "0 0 -9.8"@,
    );
    reveal_strlit("  <compiler inertiafromgeom=\"true\"/>");
    reveal_strlit("compiler");
    reveal_strlit("inertiafromgeom");
    reveal_strlit("true");
    assert(seq!['\n'] + "  <compiler inertiafromgeom=\"true\"/>"@ =~= "\n  "@ + (seq!['<']
        + "compiler"@ + (seq![' '] + "inertiafromgeom"@ + seq!['=', '"'] + "true"@ + seq!['"'])
        + seq!['/', '>']));
    lemma_leaf_line(
        "  <compiler inertiafromgeom=\"true\"/>"@,
        "\n  "@,
        "compiler"@,
        "inertiafromgeom"@,
        "true"@,
    );
    lemma_free_line();
}

proof fn lemma_free_line()
    ensures
        tailed(seq!["      <freejoint name=\"base_free\"/>"@]) == markup::pieces_text(
            seq![
                Piece::Blank("\n      "@),
                Piece::Empty("freejoint"@, seq![("name"@, "base_free"@)]),
            ],
        ),
{
    reveal_strlit("      <freejoint name=\"base_free\"/>");
    reveal_strlit("\n      ");
    reveal_strlit("freejoint");
    reveal_strlit("name");
    reveal_strlit("base_free");
    assert(seq!['\n'] + "      <freejoint name=\"base_free\"/>"@ =~= "\n      "@ + (seq!['<']
        + "freejoint"@ + (seq![' '] + "name"@ + seq!['=', '"'] + "base_free"@ + seq!['"']) + seq![
        '/',
        '>',
    ]));
    lemma_leaf_line(
        "      <freejoint name=\"base_free\"/>"@,
        "\n      "@,
        "freejoint"@,
        "name"@,
        "base_free"@,
    );
}

proof fn lemma_bracket_lines(name: Seq<char>)
    ensures
        tailed(seq!["  <worldbody>"@]) == markup::pieces_text(
            seq![Piece::Blank("\n  "@), Piece::Open("worldbody"@, Seq::empty())],
        ),
        tailed(seq!["    </body>"@]) == markup::pieces_text(
            seq![Piece::Blank("\n    "@), Piece::Close("body"@)],
        ),
        tailed(seq!["  </worldbody>"@]) == markup::pieces_text(
            seq![Piece::Blank("\n  "@), Piece::Close("worldbody"@)],
        ),
        tailed(seq!["</mujoco>\n"@]) == markup::pieces_text(
            seq![Piece::Blank("\n"@), Piece::Close("mujoco"@)],
        ) + "\n"@,
        tailed(seq!["<mujoco model=\""@ + name + "\">"@]) == seq!['\n'] + markup::piece_text(
            Piece::Open("mujoco"@, seq![("model"@, name)]),
        ),
{
    lemma_no_attributes();
    reveal_strlit("\n");
    reveal_strlit("\n  ");
    reveal_strlit("\n    ");
    reveal_strlit("worldbody");
    reveal_strlit("body");
    reveal_strlit("mujoco");
    reveal_strlit("  <worldbody>");
    reveal_strlit("    </body>");
    reveal_strlit("  </worldbody>");
    reveal_strlit("</mujoco>\n");
    assert(seq!['\n'] + "  <worldbody>"@ =~= "\n  "@ + markup::piece_text(
        Piece::Open("worldbody"@, Seq::empty()),
    ));
    lemma_piece_line("  <worldbody>"@, "\n  "@, Piece::Open("worldbody"@, Seq::empty()));
    assert(seq!['\n'] + "    </body>"@ =~= "\n    "@ + markup::piece_text(Piece::Close("body"@)));
    lemma_piece_line("    </body>"@, "\n    "@, Piece::Close("body"@));
    assert(seq!['\n'] + "  </worldbody>"@ =~= "\n  "@ + markup::piece_text(
        Piece::Close("worldbody"@),
    ));
    lemma_piece_line("  </worldbody>"@, "\n  "@, Piece::Close("worldbody"@));
    lemma_tailed_one("</mujoco>\n"@);
    lemma_line("\n"@, Piece::Close("mujoco"@));
    assert(seq!['\n'] + "</mujoco>\n"@ =~= "\n"@ + markup::piece_text(Piece::Close("mujoco"@))
        + "\n"@);
    let a = ("model"@, name);
    lemma_attributes(a, a, a, a, a);
    reveal_strlit("<mujoco model=\"");
    reveal_strlit("model");
    reveal_strlit("\">");
    let line = "<mujoco model=\""@ + name + "\">"@;
    lemma_tailed_one(line);
    assert("<mujoco model=\""@ =~= seq!['<'] + "mujoco"@ + (seq![' '] + "model"@ + seq!['=', '"']));
    assert("\">"@ =~= seq!['"', '>']);
    assert(line =~= markup::piece_text(Piece::Open("mujoco"@, seq![a])));
}

/// The pieces of the document, line by line.
spec fn mujoco_pieces(p: ObjectPartsView) -> Seq<Piece> {
    seq![Piece::Open("mujoco"@, seq![("model"@, p.robot_name)])] + seq![
        Piece::Blank("\n  "@),
        Piece::Empty("option"@, seq![("gravity"@, "0 0 -9.8"@)]),
    ] + seq![
        Piece::Blank("\n  "@),
        Piece::Empty("compiler"@, seq![("inertiafromgeom"@, "true"@)]),
    ] + seq![Piece::Blank("\n  "@), Piece::Open("worldbody"@, Seq::empty())] + seq![
        Piece::Blank("\n    "@),
        Piece::Open("body"@, seq![("name"@, "base"@), ("pos"@, spaced(p.centroid))]),
    ] + markup::list_pieces(free_items(p)) + markup::list_pieces(
        sphere_bodies(p.spheres, p.rgba, p.spheres.len() as int),
    ) + seq![Piece::Blank("\n    "@), Piece::Close("body"@)] + seq![
        Piece::Blank("\n  "@),
        Piece::Close("worldbody"@),
    ] + seq![Piece::Blank("\n"@), Piece::Close("mujoco"@)]
}

proof fn lemma_mujoco_pieces(p: ObjectPartsView)
    ensures
        markup::item_pieces(mujoco_item(p)) == mujoco_pieces(p),
{
    let n = p.spheres.len() as int;
    let bodies = sphere_bodies(p.spheres, p.rgba, n);
    let end = seq![Item::Blank("\n    "@)];
    markup::lemma_pieces_concat(free_items(p), bodies);
    markup::lemma_pieces_concat(free_items(p) + bodies, end);
    markup::lemma_few_pieces(end);
    markup::lemma_few_pieces(world_items(p));
    markup::lemma_few_pieces(mujoco_items(p));
    assert(base_items(p).len() > 0);
    let base = seq![Piece::Open("body"@, seq![("name"@, "base"@), ("pos"@, spaced(p.centroid))])]
        + (markup::list_pieces(free_items(p)) + markup::list_pieces(bodies) + seq![
        Piece::Blank("\n    "@),
    ]) + seq![Piece::Close("body"@)];
    assert(markup::item_pieces(base_body(p)) =~= base);
    let world = seq![Piece::Open("worldbody"@, Seq::empty())] + (seq![Piece::Blank("\n    "@)]
        + base + seq![Piece::Blank("\n  "@)]) + seq![Piece::Close("worldbody"@)];
    assert(markup::item_pieces(markup::element("worldbody"@, Seq::empty(), world_items(p)))
        =~= world);
    assert(markup::item_pieces(mujoco_item(p)) =~= mujoco_pieces(p));
}

/// The line of the `base` body.
spec fn base_line(p: ObjectPartsView) -> Seq<char> {
    "    <body name=\"base\" pos=\""@ + spaced(p.centroid) + "\">"@
}

/// The line that lets a free object move.
spec fn free_lines(p: ObjectPartsView) -> Seq<Seq<char>> {
    if p.anchored {
        Seq::<Seq<char>>::empty()
    } else {
        seq!["      <freejoint name=\"base_free\"/>"@]
    }
}

/// The lines of the MJCF, one after the other.
proof fn lemma_mjcf_lines(p: ObjectPartsView)
    ensures
        object_model::mjcf_text(p) == "<?xml version=\"1.0\"?>"@ + (tailed(
            seq!["<mujoco model=\""@ + p.robot_name + "\">"@],
        ) + tailed(seq!["  <option gravity=\"0 0 -9.8\"/>"@]) + tailed(
            seq!["  <compiler inertiafromgeom=\"true\"/>"@],
        ) + tailed(seq!["  <worldbody>"@]) + tailed(seq![base_line(p)]) + tailed(free_lines(p))
            + tailed(object_model::mjcf_spheres(p.spheres, p.rgba, p.spheres.len() as int))
            + tailed(seq!["    </body>"@]) + tailed(seq!["  </worldbody>"@]) + tailed(
            seq!["</mujoco>\n"@],
        )),
{
    let n = p.spheres.len() as int;
    let head = object_model::mjcf_head(p);
    let middle = object_model::mjcf_spheres(p.spheres, p.rgba, n);
    let tail = seq!["    </body>"@, "  </worldbody>"@, "</mujoco>\n"@];
    let lines = head + middle + tail;
    lemma_join_lines(lines);
    assert(p.centroid.spaced() == spaced(p.centroid));
    let free = free_lines(p);
    let l1 = seq!["<mujoco model=\""@ + p.robot_name + "\">"@];
    let l2 = seq!["  <option gravity=\"0 0 -9.8\"/>"@];
    let l3 = seq!["  <compiler inertiafromgeom=\"true\"/>"@];
    let l4 = seq!["  <worldbody>"@];
    let l5 = seq![base_line(p)];
    let t1 = seq!["    </body>"@];
    let t2 = seq!["  </worldbody>"@];
    let t3 = seq!["</mujoco>\n"@];
    assert(lines.skip(1) =~= l1 + l2 + l3 + l4 + l5 + free + middle + t1 + t2 + t3);
    lemma_tailed_concat(l1, l2);
    lemma_tailed_concat(l1 + l2, l3);
    lemma_tailed_concat(l1 + l2 + l3, l4);
    lemma_tailed_concat(l1 + l2 + l3 + l4, l5);
    lemma_tailed_concat(l1 + l2 + l3 + l4 + l5, free);
    lemma_tailed_concat(l1 + l2 + l3 + l4 + l5 + free, middle);
    lemma_tailed_concat(l1 + l2 + l3 + l4 + l5 + free + middle, t1);
    lemma_tailed_concat(l1 + l2 + l3 + l4 + l5 + free + middle + t1, t2);
    lemma_tailed_concat(l1 + l2 + l3 + l4 + l5 + free + middle + t1 + t2, t3);
    assert(lines[0] == "<?xml version=\"1.0\"?>"@);
}

proof fn lemma_free_lines(p: ObjectPartsView)
    ensures
        tailed(free_lines(p)) == markup::pieces_text(markup::list_pieces(free_items(p))),
{
    markup::lemma_few_pieces(free_items(p));
    let f = |x: Piece| markup::piece_text(x);
    assert(Seq::<Piece>::empty().flat_map(f) =~= Seq::<char>::empty());
    assert(tailed(Seq::<Seq<char>>::empty()) =~= Seq::<char>::empty());
    if !p.anchored {
        lemma_free_line();
        assert(markup::list_pieces(free_items(p)) =~= seq![
            Piece::Blank("\n      "@),
            Piece::Empty("freejoint"@, seq![("name"@, "base_free"@)]),
        ]);
    }
}

/// How the first and the last line end goes over from the lines to the document.
proof fn lemma_glue(
    x: Seq<char>,
    o: Seq<char>,
    a1: Seq<char>,
    a2: Seq<char>,
    a3: Seq<char>,
    a4: Seq<char>,
    a5: Seq<char>,
    a6: Seq<char>,
    a7: Seq<char>,
    a8: Seq<char>,
    a9: Seq<char>,
    e: Seq<char>,
)
    ensures
        x + ((seq!['\n'] + o) + a1 + a2 + a3 + a4 + a5 + a6 + a7 + a8 + (a9 + e)) == (x + seq![
            '\n',
        ]) + (o + a1 + a2 + a3 + a4 + a5 + a6 + a7 + a8 + a9) + e,
{
    let l = x + ((seq!['\n'] + o) + a1 + a2 + a3 + a4 + a5 + a6 + a7 + a8 + (a9 + e));
    let r = (x + seq!['\n']) + (o + a1 + a2 + a3 + a4 + a5 + a6 + a7 + a8 + a9) + e;
    let b = a1 + a2 + a3 + a4 + a5 + a6 + a7 + a8;
    assert((seq!['\n'] + o) + a1 + a2 + a3 + a4 + a5 + a6 + a7 + a8 =~= seq!['\n'] + o + b);
    assert(o + a1 + a2 + a3 + a4 + a5 + a6 + a7 + a8 =~= o + b);
    assert(l =~= r);
}

/// The MJCF of an object is a document of its spheres.
proof fn lemma_mjcf_document(p: ObjectPartsView)
    ensures
        object_model::mjcf_text(p) == markup::document_text(mujoco_item(p)),
{
    lemma_mjcf_lines(p);
    lemma_bracket_lines(p.robot_name);
    lemma_fixed_lines();
    lemma_body_line("base"@, spaced(p.centroid));
    lemma_tailed_one(base_line(p));
    lemma_free_lines(p);
    lemma_spheres_lines(p.spheres, p.rgba, p.spheres.len() as int);
    lemma_document_pieces(p);
    lemma_mujoco_pieces(p);
    lemma_declaration();
    lemma_glue(
        "<?xml version=\"1.0\"?>"@,
        markup::piece_text(Piece::Open("mujoco"@, seq![("model"@, p.robot_name)])),
        tailed(seq!["  <option gravity=\"0 0 -9.8\"/>"@]),
        tailed(seq!["  <compiler inertiafromgeom=\"true\"/>"@]),
        tailed(seq!["  <worldbody>"@]),
        tailed(seq![base_line(p)]),
        tailed(free_lines(p)),
        tailed(object_model::mjcf_spheres(p.spheres, p.rgba, p.spheres.len() as int)),
        tailed(seq!["    </body>"@]),
        tailed(seq!["  </worldbody>"@]),
        markup::pieces_text(seq![Piece::Blank("\n"@), Piece::Close("mujoco"@)]),
        "\n"@,
    );
}

proof fn lemma_declaration()
    ensures
        "<?xml version=\"1.0\"?>\n"@ == "<?xml version=\"1.0\"?>"@ + seq!['\n'],
{
    reveal_strlit("<?xml version=\"1.0\"?>");
    reveal_strlit("<?xml version=\"1.0\"?>\n");
    assert("<?xml version=\"1.0\"?>\n"@ =~= "<?xml version=\"1.0\"?>"@ + seq!['\n']);
}

/// The text of the pieces of the document, line by line.
proof fn lemma_document_pieces(p: ObjectPartsView)
    ensures
        markup::pieces_text(mujoco_pieces(p)) == markup::piece_text(
            Piece::Open("mujoco"@, seq![("model"@, p.robot_name)]),
        ) + markup::pieces_text(
            seq![
                Piece::Blank("\n  "@),
                Piece::Empty("option"@, seq![("gravity"@, "0 0 -9.8"@)]),
            ],
        ) + markup::pieces_text(
            seq![
                Piece::Blank("\n  "@),
                Piece::Empty("compiler"@, seq![("inertiafromgeom"@, "true"@)]),
            ],
        ) + markup::pieces_text(
            seq![Piece::Blank("\n  "@), Piece::Open("worldbody"@, Seq::empty())],
        ) + markup::pieces_text(
            seq![
                Piece::Blank("\n    "@),
                Piece::Open("body"@, seq![("name"@, "base"@), ("pos"@, spaced(p.centroid))]),
            ],
        ) + markup::pieces_text(markup::list_pieces(free_items(p))) + markup::pieces_text(
            markup::list_pieces(sphere_bodies(p.spheres, p.rgba, p.spheres.len() as int)),
        ) + markup::pieces_text(seq![Piece::Blank("\n    "@), Piece::Close("body"@)])
            + markup::pieces_text(seq![Piece::Blank("\n  "@), Piece::Close("worldbody"@)])
            + markup::pieces_text(seq![Piece::Blank("\n"@), Piece::Close("mujoco"@)]),
{
    let a0 = seq![Piece::Open("mujoco"@, seq![("model"@, p.robot_name)])];
    let a1 = seq![
        Piece::Blank("\n  "@),
        Piece::Empty("option"@, seq![("gravity"@, "0 0 -9.8"@)]),
    ];
    let a2 = seq![
        Piece::Blank("\n  "@),
        Piece::Empty("compiler"@, seq![("inertiafromgeom"@, "true"@)]),
    ];
    let a3 = seq![Piece::Blank("\n  "@), Piece::Open("worldbody"@, Seq::empty())];
    let a4 = seq![
        Piece::Blank("\n    "@),
        Piece::Open("body"@, seq![("name"@, "base"@), ("pos"@, spaced(p.centroid))]),
    ];
    let a5 = markup::list_pieces(free_items(p));
    let a6 = markup::list_pieces(sphere_bodies(p.spheres, p.rgba, p.spheres.len() as int));
    let a7 = seq![Piece::Blank("\n    "@), Piece::Close("body"@)];
    let a8 = seq![Piece::Blank("\n  "@), Piece::Close("worldbody"@)];
    let a9 = seq![Piece::Blank("\n"@), Piece::Close("mujoco"@)];
    markup::lemma_text_one(a0[0]);
    markup::lemma_text_concat(a0, a1);
    markup::lemma_text_concat(a0 + a1, a2);
    markup::lemma_text_concat(a0 + a1 + a2, a3);
    markup::lemma_text_concat(a0 + a1 + a2 + a3, a4);
    markup::lemma_text_concat(a0 + a1 + a2 + a3 + a4, a5);
    markup::lemma_text_concat(a0 + a1 + a2 + a3 + a4 + a5, a6);
    markup::lemma_text_concat(a0 + a1 + a2 + a3 + a4 + a5 + a6, a7);
    markup::lemma_text_concat(a0 + a1 + a2 + a3 + a4 + a5 + a6 + a7, a8);
    markup::lemma_text_concat(a0 + a1 + a2 + a3 + a4 + a5 + a6 + a7 + a8, a9);
}

/// Whether what is written for an object stands for itself: no text holds a quote, `<` or
/// `&`.
pub open spec fn is_plain_model(p: ObjectPartsView) -> bool {
    &&& markup::is_plain_value(p.robot_name)
    &&& markup::is_plain_value(p.rgba)
    &&& object_document::is_plain_triple(p.centroid)
    &&& forall|i: int|
        0 <= i < p.spheres.len() ==> markup::is_plain_value((#[trigger] p.spheres[i]).radius)
            && markup::is_plain_value(p.spheres[i].density) && object_document::is_plain_triple(
            p.spheres[i].center,
        )
}

/// The names of the attributes of a shape differ.
proof fn lemma_geom_names()
    ensures
        markup::is_plain_name("name"@) && markup::is_plain_name("type"@) && markup::is_plain_name(
            "size"@,
        ) && markup::is_plain_name("density"@) && markup::is_plain_name("rgba"@)
            && markup::is_plain_name("pos"@) && markup::is_plain_name("geom"@)
            && markup::is_plain_name("body"@),
        "name"@ != "type"@ && "name"@ != "size"@ && "name"@ != "density"@ && "name"@ != "rgba"@
            && "name"@ != "pos"@,
        "type"@ != "size"@ && "type"@ != "density"@ && "type"@ != "rgba"@,
        "size"@ != "density"@ && "size"@ != "rgba"@ && "density"@ != "rgba"@,
        "name"@ != "xmlns"@ && "type"@ != "xmlns"@ && "size"@ != "xmlns"@ && "density"@ != "xmlns"@
            && "rgba"@ != "xmlns"@ && "pos"@ != "xmlns"@,
        markup::is_plain_value("sphere"@) && markup::is_plain_value("base"@),
{
    reveal_strlit("name");
    reveal_strlit("type");
    reveal_strlit("size");
    reveal_strlit("density");
    reveal_strlit("rgba");
    reveal_strlit("pos");
    reveal_strlit("geom");
    reveal_strlit("body");
    reveal_strlit("xmlns");
    reveal_strlit("sphere");
    reveal_strlit("base");
    assert("name"@[0] == 'n' && "type"@[0] == 't' && "size"@[0] == 's' && "density"@[0] == 'd'
        && "rgba"@[0] == 'r' && "pos"@[0] == 'p' && "xmlns"@[0] == 'x');
}

proof fn lemma_plain_blanks()
    ensures
        object_document::plain(Item::Blank("\n"@)),
        object_document::plain(Item::Blank("\n  "@)),
        object_document::plain(Item::Blank("\n    "@)),
        object_document::plain(Item::Blank("\n      "@)),
        object_document::plain(Item::Blank("\n        "@)),
{
    reveal_strlit("\n");
    reveal_strlit("\n  ");
    reveal_strlit("\n    ");
    reveal_strlit("\n      ");
    reveal_strlit("\n        ");
    markup::lemma_plain_single(Item::Blank("\n"@));
    markup::lemma_plain_single(Item::Blank("\n  "@));
    markup::lemma_plain_single(Item::Blank("\n    "@));
    markup::lemma_plain_single(Item::Blank("\n      "@));
    markup::lemma_plain_single(Item::Blank("\n        "@));
}

proof fn lemma_plain_sphere_name(i: int)
    ensures
        markup::is_plain_value(sphere_name(i)),
        markup::is_plain_value(sphere_name(i) + "_geom"@),
{
    object_document::lemma_plain_decimal(i as nat);
    reveal_strlit("sphere_");
    reveal_strlit("_geom");
}

proof fn lemma_plain_body(s: ObjectSphereView, rgba: Seq<char>, i: int)
    requires
        markup::is_plain_value(s.radius),
        markup::is_plain_value(s.density),
        object_document::is_plain_triple(s.center),
        markup::is_plain_value(rgba),
    ensures
        object_document::plain(sphere_body(s, rgba, i)),
{
    lemma_geom_names();
    lemma_plain_blanks();
    lemma_plain_sphere_name(i);
    object_document::lemma_plain_spaced(s.center);
    let a = seq![
        ("name"@, sphere_name(i) + "_geom"@),
        ("type"@, "sphere"@),
        ("size"@, s.radius),
        ("density"@, s.density),
        ("rgba"@, rgba),
    ];
    assert(markup::are_plain_attributes(a));
    let none = Seq::<Item>::empty();
    object_document::lemma_plain_few(none);
    markup::lemma_plain_element("geom"@, a, none);
    let inner = seq![
        Item::Blank("\n        "@),
        geom_item(s, rgba, i),
        Item::Blank("\n      "@),
    ];
    object_document::lemma_plain_few(inner);
    let b = seq![("name"@, sphere_name(i)), ("pos"@, spaced(s.center))];
    assert(markup::are_plain_attributes(b));
    markup::lemma_plain_element("body"@, b, inner);
}

/// The bodies of the spheres, one by one.
proof fn lemma_bodies(spheres: Seq<ObjectSphereView>, rgba: Seq<char>, n: int)
    requires
        0 <= n <= spheres.len(),
    ensures
        sphere_bodies(spheres, rgba, n).len() == 2 * n,
        forall|i: int|
            0 <= i < n ==> #[trigger] sphere_bodies(spheres, rgba, n)[2 * i] == Item::Blank(
                "\n      "@,
            ),
        forall|i: int|
            0 <= i < n ==> #[trigger] sphere_bodies(spheres, rgba, n)[2 * i + 1] == sphere_body(
                spheres[i],
                rgba,
                i,
            ),
    decreases n,
{
    if n > 0 {
        lemma_bodies(spheres, rgba, n - 1);
        let front = sphere_bodies(spheres, rgba, n - 1);
        let all = sphere_bodies(spheres, rgba, n);
        assert forall|i: int| 0 <= i < n implies #[trigger] all[2 * i] == Item::Blank(
            "\n      "@,
        ) by {
            if i < n - 1 {
                assert(all[2 * i] == front[2 * i]);
            }
        }
        assert forall|i: int| 0 <= i < n implies #[trigger] all[2 * i + 1] == sphere_body(
            spheres[i],
            rgba,
            i,
        ) by {
            if i < n - 1 {
                assert(all[2 * i + 1] == front[2 * i + 1]);
            }
        }
    }
}

/// Where the bodies of the spheres start in the `base` body.
spec fn first_body(p: ObjectPartsView) -> int {
    if p.anchored {
        0
    } else {
        2
    }
}

/// What the `base` body holds, item by item.
proof fn lemma_base_items(p: ObjectPartsView)
    ensures
        ({
            let items = base_items(p);
            let h = first_body(p);
            let n = p.spheres.len() as int;
            &&& items.len() == h + 2 * n + 1
            &&& !p.anchored ==> items[0] == Item::Blank("\n      "@) && items[1]
                == object_model::leaf("freejoint"@, "name"@, "base_free"@)
            &&& forall|i: int|
                0 <= i < n ==> #[trigger] items[h + 2 * i] == Item::Blank("\n      "@)
            &&& forall|i: int|
                0 <= i < n ==> #[trigger] items[h + 2 * i + 1] == sphere_body(
                    p.spheres[i],
                    p.rgba,
                    i,
                )
            &&& items[h + 2 * n] == Item::Blank("\n    "@)
        }),
{
    let n = p.spheres.len() as int;
    let h = first_body(p);
    let bodies = sphere_bodies(p.spheres, p.rgba, n);
    let items = base_items(p);
    lemma_bodies(p.spheres, p.rgba, n);
    assert forall|i: int| 0 <= i < n implies #[trigger] items[h + 2 * i] == Item::Blank(
        "\n      "@,
    ) by {
        assert(items[h + 2 * i] == bodies[2 * i]);
    }
    assert forall|i: int| 0 <= i < n implies #[trigger] items[h + 2 * i + 1] == sphere_body(
        p.spheres[i],
        p.rgba,
        i,
    ) by {
        assert(items[h + 2 * i + 1] == bodies[2 * i + 1]);
    }
}

/// Which item of the `base` body stands at a place.
proof fn lemma_base_item(p: ObjectPartsView, k: int)
    requires
        0 <= k < base_items(p).len(),
    ensures
        ({
            let x = base_items(p)[k];
            let h = first_body(p);
            let n = p.spheres.len() as int;
            ||| k % 2 == 0 && (x == Item::Blank("\n      "@) || x == Item::Blank("\n    "@))
            ||| k == 1 && !p.anchored && x == object_model::leaf(
                "freejoint"@,
                "name"@,
                "base_free"@,
            )
            ||| k % 2 == 1 && h <= k && k < h + 2 * n && x == sphere_body(
                p.spheres[(k - h) / 2],
                p.rgba,
                (k - h) / 2,
            )
        }),
{
    let h = first_body(p);
    let n = p.spheres.len() as int;
    lemma_base_items(p);
    if h <= k < h + 2 * n {
        let i = (k - h) / 2;
        assert(k == h + 2 * i || k == h + 2 * i + 1);
    }
}

/// Each item of the `base` body is plain.
proof fn lemma_plain_base_item(p: ObjectPartsView, k: int)
    requires
        is_plain_model(p),
        0 <= k < base_items(p).len(),
    ensures
        object_document::plain(base_items(p)[k]),
{
    let h = first_body(p);
    lemma_plain_blanks();
    lemma_base_item(p, k);
    if k % 2 == 1 && h <= k && k < h + 2 * p.spheres.len() {
        let i = (k - h) / 2;
        assert(markup::is_plain_value(p.spheres[i].radius));
        lemma_plain_body(p.spheres[i], p.rgba, i);
    }
    if k == 1 && !p.anchored {
        lemma_geom_names();
        reveal_strlit("freejoint");
        reveal_strlit("base_free");
        object_document::lemma_plain_leaf("freejoint"@, "name"@, "base_free"@);
    }
}

/// The `base` body is plain.
#[verifier::rlimit(40)]
proof fn lemma_plain_base(p: ObjectPartsView)
    requires
        is_plain_model(p),
    ensures
        object_document::plain(base_body(p)),
{
    let items = base_items(p);
    assert forall|k: int| 0 <= k < items.len() implies markup::are_plain_pieces(
        markup::item_pieces(#[trigger] items[k]),
    ) by {
        lemma_plain_base_item(p, k);
        assert(object_document::plain(items[k]));
    }
    assert forall|k: int| 0 < k < items.len() && #[trigger] items[k] is Blank implies !(items[k
        - 1] is Blank) by {
        lemma_base_item(p, k);
        lemma_base_item(p, k - 1);
    }
    markup::lemma_plain_list(items);
    lemma_geom_names();
    object_document::lemma_plain_spaced(p.centroid);
    let at = seq![("name"@, "base"@), ("pos"@, spaced(p.centroid))];
    assert(markup::are_plain_attributes(at));
    markup::lemma_plain_element("body"@, at, items);
}

/// The document that is written for an object is a plain one.
proof fn lemma_plain_mujoco(p: ObjectPartsView)
    requires
        is_plain_model(p),
    ensures
        markup::is_plain(mujoco_item(p)),
{
    lemma_plain_blanks();
    lemma_plain_base(p);
    reveal_strlit("worldbody");
    object_document::lemma_plain_few(world_items(p));
    markup::lemma_plain_element("worldbody"@, Seq::empty(), world_items(p));
    lemma_plain_settings();
    object_document::lemma_plain_few(mujoco_items(p));
    reveal_strlit("mujoco");
    reveal_strlit("model");
    reveal_strlit("xmlns");
    assert("model"@[0] != "xmlns"@[0]);
    let name = seq![("model"@, p.robot_name)];
    assert(markup::are_plain_attributes(name));
    markup::lemma_plain_element("mujoco"@, name, mujoco_items(p));
}

proof fn lemma_plain_settings()
    ensures
        object_document::plain(object_model::leaf("option"@, "gravity"@, "0 0 -9.8"@)),
        object_document::plain(object_model::leaf("compiler"@, "inertiafromgeom"@, "true"@)),
{
    reveal_strlit("option");
    reveal_strlit("gravity");
    reveal_strlit("0 0 -9.8");
    reveal_strlit("compiler");
    reveal_strlit("inertiafromgeom");
    reveal_strlit("true");
    reveal_strlit("xmlns");
    assert("gravity"@.len() != "xmlns"@.len());
    assert("inertiafromgeom"@.len() != "xmlns"@.len());
    object_document::lemma_plain_leaf("option"@, "gravity"@, "0 0 -9.8"@);
    object_document::lemma_plain_leaf("compiler"@, "inertiafromgeom"@, "true"@);
}

/// The tags that are looked for differ from the others beside them.
proof fn lemma_tags()
    ensures
        "worldbody"@ != "option"@ && "worldbody"@ != "compiler"@ && "option"@ != "compiler"@,
        "body"@ != "freejoint"@,
        "worldbody"@.len() > 0 && "body"@.len() > 0 && "freejoint"@.len() > 0 && "geom"@.len() > 0
            && "mujoco"@.len() > 0 && "option"@.len() > 0 && "compiler"@.len() > 0,
{
    reveal_strlit("worldbody");
    reveal_strlit("option");
    reveal_strlit("compiler");
    reveal_strlit("body");
    reveal_strlit("freejoint");
    reveal_strlit("geom");
    reveal_strlit("mujoco");
    assert("worldbody"@.len() == 9 && "option"@.len() == 6 && "compiler"@.len() == 8);
    assert("body"@.len() == 4 && "freejoint"@.len() == 9);
}

/// Whether the element at `body` is the body of sphere `i`: it is at the sphere's center,
/// and its shape is a sphere with the sphere's radius and density.
pub open spec fn body_holds(
    nodes: Seq<NodeView>,
    body: int,
    s: ObjectSphereView,
    rgba: Seq<char>,
    i: int,
) -> bool {
    &&& xml::attribute_of(nodes[body], "name"@) == Some("sphere_"@ + text::decimal(i as nat))
    &&& xml::attribute_of(nodes[body], "pos"@) == Some(
        s.center.x + " "@ + s.center.y + " "@ + s.center.z,
    )
    &&& xml::child_of(nodes, body, "geom"@) matches Some(g)
    &&& xml::attribute_of(nodes[g], "type"@) == Some("sphere"@)
    &&& xml::attribute_of(nodes[g], "size"@) == Some(s.radius)
    &&& xml::attribute_of(nodes[g], "density"@) == Some(s.density)
    &&& xml::attribute_of(nodes[g], "rgba"@) == Some(rgba)
}

proof fn lemma_body_holds(
    nodes: Seq<NodeView>,
    s: ObjectSphereView,
    rgba: Seq<char>,
    i: int,
    parent: int,
    at: int,
)
    requires
        markup::stands_at(nodes, sphere_body(s, rgba, i), parent, at),
    ensures
        body_holds(nodes, at, s, rgba, i),
{
    lemma_tags();
    lemma_geom_names();
    let attributes = seq![("name"@, sphere_name(i)), ("pos"@, spaced(s.center))];
    let inner = seq![
        Item::Blank("\n        "@),
        geom_item(s, rgba, i),
        Item::Blank("\n      "@),
    ];
    let g = object_document::lemma_one_child(
        nodes,
        "body"@,
        attributes,
        inner,
        parent,
        at,
        "geom"@,
        1,
    );
    assert(nodes[at].attributes == attributes);
    assert(attributes[0].0 == "name"@ && attributes[1].0 == "pos"@);
    xml::attributes_are_found_by_name(nodes[at], "name"@, 0);
    xml::attributes_are_found_by_name(nodes[at], "pos"@, 1);
    let a = nodes[g].attributes;
    assert(a[0].0 == "name"@ && a[1].0 == "type"@ && a[2].0 == "size"@ && a[3].0 == "density"@
        && a[4].0 == "rgba"@);
    xml::attributes_are_found_by_name(nodes[g], "type"@, 1);
    xml::attributes_are_found_by_name(nodes[g], "size"@, 2);
    xml::attributes_are_found_by_name(nodes[g], "density"@, 3);
    xml::attributes_are_found_by_name(nodes[g], "rgba"@, 4);
}

/// Whether the nodes are those of a model of the object: a world with one `base` body at
/// the centroid, which moves freely unless it is anchored and holds one body for each sphere.
pub open spec fn models(nodes: Seq<NodeView>, p: ObjectPartsView) -> bool {
    &&& xml::root_of(nodes) matches Some(root)
    &&& nodes[root].name == "mujoco"@
    &&& xml::attribute_of(nodes[root], "model"@) == Some(p.robot_name)
    &&& xml::child_of(nodes, root, "worldbody"@) matches Some(world)
    &&& xml::child_of(nodes, world, "body"@) matches Some(base)
    &&& xml::children_of(nodes, world, "body"@).len() == 1
    &&& xml::attribute_of(nodes[base], "name"@) == Some("base"@)
    &&& xml::attribute_of(nodes[base], "pos"@) == Some(
        p.centroid.x + " "@ + p.centroid.y + " "@ + p.centroid.z,
    )
    &&& (xml::child_of(nodes, base, "freejoint"@) is Some) == !p.anchored
    &&& xml::children_of(nodes, base, "body"@).len() == p.spheres.len()
    &&& forall|i: int|
        0 <= i < p.spheres.len() ==> body_holds(
            nodes,
            #[trigger] xml::children_of(nodes, base, "body"@)[i],
            p.spheres[i],
            p.rgba,
            i,
        )
    &&& xml::child_of(nodes, root, "option"@) matches Some(o)
    &&& xml::attribute_of(nodes[o], "gravity"@) == Some("0 0 -9.8"@)
    &&& xml::child_of(nodes, root, "compiler"@) matches Some(c)
    &&& xml::attribute_of(nodes[c], "inertiafromgeom"@) == Some("true"@)
}

/// The bodies inside the `base` body.
proof fn lemma_inner_bodies(nodes: Seq<NodeView>, p: ObjectPartsView, parent: int, at: int)
    requires
        markup::stands_at(nodes, base_body(p), parent, at),
    ensures
        xml::attribute_of(nodes[at], "name"@) == Some("base"@),
        xml::attribute_of(nodes[at], "pos"@) == Some(spaced(p.centroid)),
        (xml::child_of(nodes, at, "freejoint"@) is Some) == !p.anchored,
        xml::children_of(nodes, at, "body"@).len() == p.spheres.len(),
        forall|i: int|
            0 <= i < p.spheres.len() ==> body_holds(
                nodes,
                #[trigger] xml::children_of(nodes, at, "body"@)[i],
                p.spheres[i],
                p.rgba,
                i,
            ),
{
    lemma_tags();
    lemma_geom_names();
    let items = base_items(p);
    let h = first_body(p);
    let n = p.spheres.len();
    let attributes = seq![("name"@, "base"@), ("pos"@, spaced(p.centroid))];
    assert(nodes[at].attributes == attributes);
    assert(attributes[0].0 == "name"@ && attributes[1].0 == "pos"@);
    xml::attributes_are_found_by_name(nodes[at], "name"@, 0);
    xml::attributes_are_found_by_name(nodes[at], "pos"@, 1);
    lemma_base_items(p);
    let ks = Seq::new(n, |i: int| h + 2 * i + 1);
    assert forall|m: int| 0 <= m < items.len() && markup::is_tagged(
        #[trigger] items[m],
        "body"@,
    ) implies ks.contains(m) by {
        lemma_base_item(p, m);
        let i = (m - h) / 2;
        assert(ks[i] == m);
    }
    assert forall|a: int| 0 <= a < ks.len() implies 0 <= #[trigger] ks[a] < items.len()
        && markup::is_tagged(items[ks[a]], "body"@) by {
        assert(items[h + 2 * a + 1] == sphere_body(p.spheres[a], p.rgba, a));
    }
    markup::lemma_children(nodes, "body"@, attributes, items, parent, at, "body"@, ks);
    let found = xml::children_of(nodes, at, "body"@);
    assert forall|i: int| 0 <= i < n implies body_holds(
        nodes,
        #[trigger] found[i],
        p.spheres[i],
        p.rgba,
        i,
    ) by {
        assert(ks[i] == h + 2 * i + 1);
        markup::lemma_stands_inside(nodes, "body"@, attributes, items, parent, at, ks[i]);
        assert(items[h + 2 * i + 1] == sphere_body(p.spheres[i], p.rgba, i));
        lemma_body_holds(nodes, p.spheres[i], p.rgba, i, at, found[i]);
    }
    assert forall|m: int| 0 <= m < items.len() && markup::is_tagged(
        #[trigger] items[m],
        "freejoint"@,
    ) implies m == 1 && !p.anchored by {
        lemma_base_item(p, m);
    }
    if p.anchored {
        object_document::lemma_no_child(
            nodes,
            "body"@,
            attributes,
            items,
            parent,
            at,
            "freejoint"@,
        );
    } else {
        let f = object_document::lemma_one_child(
            nodes,
            "body"@,
            attributes,
            items,
            parent,
            at,
            "freejoint"@,
            1,
        );
    }
}

/// A simulator that reads the MJCF of an object finds the object in it: for every sphere a
/// body at its center with a shape of its radius and its density.
pub proof fn a_written_model_is_read_back(p: ObjectPartsView, nodes: Option<Seq<NodeView>>)
    requires
        is_plain_model(p),
        object_model::mjcf_text(p).len() < u32::MAX,
        xml::reads_plain_documents(object_model::mjcf_text(p), nodes),
    ensures
        nodes matches Some(n) && models(n, p),
{
    let root = mujoco_item(p);
    lemma_mjcf_document(p);
    lemma_plain_mujoco(p);
    assert(markup::is_plain(root));
    let n = nodes->0;
    lemma_tags();
    markup::lemma_root(n, root);
    let name = seq![("model"@, p.robot_name)];
    let items = mujoco_items(p);
    let none = Seq::<(Seq<char>, Seq<char>)>::empty();
    assert(n[1].attributes == name);
    let o = object_document::lemma_one_child(n, "mujoco"@, name, items, 0, 1, "option"@, 1);
    object_document::lemma_leaf_value(n, "option"@, "gravity"@, "0 0 -9.8"@, 1, o);
    let c = object_document::lemma_one_child(n, "mujoco"@, name, items, 0, 1, "compiler"@, 3);
    object_document::lemma_leaf_value(n, "compiler"@, "inertiafromgeom"@, "true"@, 1, c);
    let w = object_document::lemma_one_child(n, "mujoco"@, name, items, 0, 1, "worldbody"@, 5);
    let b = object_document::lemma_one_child(
        n,
        "worldbody"@,
        none,
        world_items(p),
        1,
        w,
        "body"@,
        1,
    );
    let ks = seq![1int];
    assert(ks[0] == 1);
    assert(ks.contains(1));
    markup::lemma_children(n, "worldbody"@, none, world_items(p), 1, w, "body"@, ks);
    lemma_inner_bodies(n, p, w, b);
}

} // verus!
