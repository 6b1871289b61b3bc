//! Plain XML documents: elements with their attributes, comments, and the white
//! space between them; how they are written, and how a parser lays them out.

use vstd::prelude::*;

use crate::xml;
use crate::xml::NodeView;

verus! {

/// What a document is made of.
pub enum Item {
    /// White space.
    Blank(Seq<char>),
    Comment(Seq<char>),
    Element { tag: Seq<char>, attributes: Seq<(Seq<char>, Seq<char>)>, items: Seq<Item> },
}

/// What a written document consists of, from left to right.
pub enum Piece {
    Blank(Seq<char>),
    Comment(Seq<char>),
    /// `<tag ...>`.
    Open(Seq<char>, Seq<(Seq<char>, Seq<char>)>),
    /// `<tag .../>`.
    Empty(Seq<char>, Seq<(Seq<char>, Seq<char>)>),
    /// `</tag>`.
    Close(Seq<char>),
}

/// An element.
pub open spec fn element(
    tag: Seq<char>,
    attributes: Seq<(Seq<char>, Seq<char>)>,
    items: Seq<Item>,
) -> Item {
    Item::Element { tag, attributes, items }
}

/// The pieces of an item: an element without content is one empty tag.
pub open spec fn item_pieces(item: Item) -> Seq<Piece>
    decreases item,
{
    match item {
        Item::Blank(s) => seq![Piece::Blank(s)],
        Item::Comment(s) => seq![Piece::Comment(s)],
        Item::Element { tag, attributes, items } => if items.len() == 0 {
            seq![Piece::Empty(tag, attributes)]
        } else {
            seq![Piece::Open(tag, attributes)] + list_pieces(items) + seq![Piece::Close(tag)]
        },
    }
}

/// The pieces of the items, one after the other.
pub open spec fn list_pieces(items: Seq<Item>) -> Seq<Piece>
    decreases items,
{
    if items.len() == 0 {
        Seq::empty()
    } else {
        list_pieces(items.drop_last()) + item_pieces(items.last())
    }
}

/// ` name="value"`.
pub open spec fn attribute_text(a: (Seq<char>, Seq<char>)) -> Seq<char> {
    seq![' '] + a.0 + seq!['=', '"'] + a.1 + seq!['"']
}

/// The attributes of a tag.
pub open spec fn attributes_text(attributes: Seq<(Seq<char>, Seq<char>)>) -> Seq<char> {
    attributes.flat_map(|a: (Seq<char>, Seq<char>)| attribute_text(a))
}

/// A piece as it is written.
pub open spec fn piece_text(p: Piece) -> Seq<char> {
    match p {
        Piece::Blank(s) => s,
        Piece::Comment(s) => "<!--"@ + s + "-->"@,
        Piece::Open(tag, attributes) => seq!['<'] + tag + attributes_text(attributes) + seq!['>'],
        Piece::Empty(tag, attributes) => seq!['<'] + tag + attributes_text(attributes) + seq![
            '/',
            '>',
        ],
        Piece::Close(tag) => seq!['<', '/'] + tag + seq!['>'],
    }
}

/// The pieces as they are written.
pub open spec fn pieces_text(pieces: Seq<Piece>) -> Seq<char> {
    pieces.flat_map(|p: Piece| piece_text(p))
}

/// A document with the root element `root`, as it is written.
pub open spec fn document_text(root: Item) -> Seq<char> {
    "<?xml version=\"1.0\"?>\n"@ + pieces_text(item_pieces(root)) + "\n"@
}

/// Pieces that follow each other are written one after the other.
pub proof fn lemma_text_concat(a: Seq<Piece>, b: Seq<Piece>)
    ensures
        pieces_text(a + b) == pieces_text(a) + pieces_text(b),
    decreases b.len(),
{
    let f = |p: Piece| piece_text(p);
    if b.len() == 0 {
        assert(a + b =~= a);
        assert(b.flat_map(f) =~= Seq::<char>::empty());
        assert(pieces_text(a) + pieces_text(b) =~= pieces_text(a));
    } else {
        let front = b.drop_last();
        lemma_text_concat(a, front);
        assert(a + b =~= (a + front).push(b.last()));
        assert(b =~= front.push(b.last()));
        (a + front).lemma_flat_map_push(f, b.last());
        front.lemma_flat_map_push(f, b.last());
        assert(pieces_text(a + b) =~= pieces_text(a) + pieces_text(b));
    }
}

/// One piece alone.
pub proof fn lemma_text_one(p: Piece)
    ensures
        pieces_text(seq![p]) == piece_text(p),
{
    let f = |x: Piece| piece_text(x);
    Seq::<Piece>::empty().lemma_flat_map_push(f, p);
    assert(Seq::<Piece>::empty().push(p) =~= seq![p]);
    assert(Seq::<Piece>::empty().flat_map(f) =~= Seq::<char>::empty());
    assert(pieces_text(seq![p]) =~= piece_text(p));
}

/// The pieces of items that follow each other.
pub proof fn lemma_pieces_concat(a: Seq<Item>, b: Seq<Item>)
    ensures
        list_pieces(a + b) == list_pieces(a) + list_pieces(b),
    decreases b.len(),
{
    if b.len() == 0 {
        assert(a + b =~= a);
        assert(list_pieces(a) + list_pieces(b) =~= list_pieces(a));
    } else {
        lemma_pieces_concat(a, b.drop_last());
        assert((a + b).drop_last() =~= a + b.drop_last());
        assert((a + b).last() == b.last());
        assert(list_pieces(a + b) =~= list_pieces(a) + list_pieces(b));
    }
}

/// The pieces of a few items, written out.
pub proof fn lemma_few_pieces(items: Seq<Item>)
    ensures
        items.len() == 1 ==> list_pieces(items) == item_pieces(items[0]),
        items.len() == 2 ==> list_pieces(items) == item_pieces(items[0]) + item_pieces(items[1]),
        items.len() == 3 ==> list_pieces(items) == item_pieces(items[0]) + item_pieces(items[1])
            + item_pieces(items[2]),
        items.len() == 4 ==> list_pieces(items) == item_pieces(items[0]) + item_pieces(items[1])
            + item_pieces(items[2]) + item_pieces(items[3]),
        items.len() == 5 ==> list_pieces(items) == item_pieces(items[0]) + item_pieces(items[1])
            + item_pieces(items[2]) + item_pieces(items[3]) + item_pieces(items[4]),
        items.len() == 7 ==> list_pieces(items) == item_pieces(items[0]) + item_pieces(items[1])
            + item_pieces(items[2]) + item_pieces(items[3]) + item_pieces(items[4]) + item_pieces(
            items[5],
        ) + item_pieces(items[6]),
    decreases items.len(),
{
    if 0 < items.len() <= 7 {
        let n = items.len() as int;
        lemma_sum_pieces(items, n);
        assert(items.take(n) =~= items);
        reveal_with_fuel(summed_pieces, 8);
        assert(Seq::<Piece>::empty() + item_pieces(items[0]) =~= item_pieces(items[0]));
    }
}

/// The pieces of the first `n` items.
spec fn summed_pieces(items: Seq<Item>, n: int) -> Seq<Piece>
    decreases n,
{
    if n <= 0 {
        Seq::empty()
    } else {
        summed_pieces(items, n - 1) + item_pieces(items[n - 1])
    }
}

proof fn lemma_sum_pieces(items: Seq<Item>, n: int)
    requires
        0 <= n <= items.len(),
    ensures
        list_pieces(items.take(n)) == summed_pieces(items, n),
    decreases n,
{
    if n > 0 {
        lemma_sum_pieces(items, n - 1);
        assert(items.take(n).drop_last() =~= items.take(n - 1));
    }
}

/// Whether `n` is a name of lower-case letters and underscores.
pub open spec fn is_plain_name(n: Seq<char>) -> bool {
    n.len() > 0 && forall|i: int| 0 <= i < n.len() ==> 'a' <= #[trigger] n[i] <= 'z' || n[i] == '_'
}

/// Whether `c` is a character of one line that XML allows.
pub open spec fn is_line_char(c: char) -> bool {
    c >= ' ' && (c as u32) != 0xfffe && (c as u32) != 0xffff
}

/// Whether `v` is a value that stands for itself between double quotes.
pub open spec fn is_plain_value(v: Seq<char>) -> bool {
    forall|i: int|
        0 <= i < v.len() ==> is_line_char(#[trigger] v[i]) && v[i] != '"' && v[i] != '<' && v[i]
            != '&'
}

/// Whether the attributes have plain names, each once, and plain values.
pub open spec fn are_plain_attributes(attributes: Seq<(Seq<char>, Seq<char>)>) -> bool {
    &&& forall|i: int|
        0 <= i < attributes.len() ==> is_plain_name((#[trigger] attributes[i]).0)
            && attributes[i].0 != "xmlns"@ && is_plain_value(attributes[i].1)
    &&& forall|i: int, j: int|
        0 <= i < j < attributes.len() ==> (#[trigger] attributes[i]).0 != (
        #[trigger] attributes[j]).0
}

/// Whether `s` can stand in a comment: one line without two hyphens in a row that
/// does not end with a hyphen.
pub open spec fn is_plain_comment(s: Seq<char>) -> bool {
    &&& forall|i: int| 0 <= i < s.len() ==> is_line_char(#[trigger] s[i])
    &&& forall|i: int| 0 < i < s.len() && #[trigger] s[i] == '-' ==> s[i - 1] != '-'
    &&& s.len() > 0 ==> s.last() != '-'
}

/// Whether `s` is white space of spaces and line ends.
pub open spec fn is_plain_blank(s: Seq<char>) -> bool {
    s.len() > 0 && forall|i: int| 0 <= i < s.len() ==> #[trigger] s[i] == ' ' || s[i] == '\n'
}

/// Whether a piece stands for itself.
pub open spec fn is_plain_piece(p: Piece) -> bool {
    match p {
        Piece::Blank(s) => is_plain_blank(s),
        Piece::Comment(s) => is_plain_comment(s),
        Piece::Open(tag, attributes) => is_plain_name(tag) && are_plain_attributes(attributes),
        Piece::Empty(tag, attributes) => is_plain_name(tag) && are_plain_attributes(attributes),
        Piece::Close(tag) => is_plain_name(tag),
    }
}

/// Whether the pieces stand for themselves, and white space is never split.
pub open spec fn are_plain_pieces(pieces: Seq<Piece>) -> bool {
    &&& forall|i: int| 0 <= i < pieces.len() ==> is_plain_piece(#[trigger] pieces[i])
    &&& forall|i: int|
        0 < i < pieces.len() && #[trigger] pieces[i] is Blank ==> !(pieces[i - 1] is Blank)
}

/// Whether `root` is an element without anything that is written in another way
/// than it is read: no entities, no quotes in values, no namespaces.
pub open spec fn is_plain(root: Item) -> bool {
    root is Element && are_plain_pieces(item_pieces(root))
}

/// Plain pieces that follow each other are plain unless white space meets white
/// space.
proof fn lemma_plain_concat(a: Seq<Piece>, b: Seq<Piece>)
    requires
        are_plain_pieces(a),
        are_plain_pieces(b),
        a.len() > 0 && b.len() > 0 ==> !(a.last() is Blank && b[0] is Blank),
    ensures
        are_plain_pieces(a + b),
{
    let all = a + b;
    assert forall|i: int| 0 <= i < all.len() implies is_plain_piece(#[trigger] all[i]) by {
        if i < a.len() {
            assert(all[i] == a[i]);
        } else {
            assert(all[i] == b[i - a.len()]);
        }
    }
    assert forall|i: int| 0 < i < all.len() && #[trigger] all[i] is Blank implies !(all[i
        - 1] is Blank) by {
        if i < a.len() {
            assert(all[i] == a[i]);
        } else if i > a.len() {
            assert(all[i] == b[i - a.len()]);
        }
    }
}

/// An element is plain where its tag, its attributes and its content are.
pub proof fn lemma_plain_element(
    tag: Seq<char>,
    attributes: Seq<(Seq<char>, Seq<char>)>,
    items: Seq<Item>,
)
    requires
        is_plain_name(tag),
        are_plain_attributes(attributes),
        are_plain_pieces(list_pieces(items)),
    ensures
        are_plain_pieces(item_pieces(element(tag, attributes, items))),
{
    if items.len() > 0 {
        let open = seq![Piece::Open(tag, attributes)];
        let close = seq![Piece::Close(tag)];
        lemma_plain_concat(open, list_pieces(items));
        lemma_plain_concat(open + list_pieces(items), close);
    }
}

/// Items are plain where each of them is and white space never meets white space.
pub proof fn lemma_plain_list(items: Seq<Item>)
    requires
        forall|k: int| 0 <= k < items.len() ==> are_plain_pieces(item_pieces(#[trigger] items[k])),
        forall|k: int|
            0 < k < items.len() && #[trigger] items[k] is Blank ==> !(items[k - 1] is Blank),
    ensures
        are_plain_pieces(list_pieces(items)),
        items.len() > 0 ==> list_pieces(items).len() > 0 && (list_pieces(items).last() is Blank)
            == (items.last() is Blank),
    decreases items.len(),
{
    if items.len() > 0 {
        let front = items.drop_last();
        let last = item_pieces(items.last());
        assert forall|k: int| 0 <= k < front.len() implies are_plain_pieces(
            item_pieces(#[trigger] front[k]),
        ) by {
            assert(front[k] == items[k]);
        }
        assert forall|k: int| 0 < k < front.len() && #[trigger] front[k] is Blank implies !(front[k
            - 1] is Blank) by {
            assert(front[k] == items[k]);
        }
        lemma_plain_list(front);
        assert(items[items.len() - 1] == items.last());
        assert(last.len() > 0);
        assert((last[0] is Blank) == (items.last() is Blank));
        assert((last.last() is Blank) == (items.last() is Blank));
        lemma_plain_concat(list_pieces(front), last);
    }
}

/// White space and comments are plain where their texts are.
pub proof fn lemma_plain_single(item: Item)
    requires
        match item {
            Item::Blank(s) => is_plain_blank(s),
            Item::Comment(s) => is_plain_comment(s),
            _ => false,
        },
    ensures
        are_plain_pieces(item_pieces(item)),
{
}

/// How many nodes an item makes.
pub open spec fn item_size(item: Item) -> nat
    decreases item,
{
    match item {
        Item::Element { tag, attributes, items } => 1 + list_size(items),
        _ => 1,
    }
}

/// How many nodes the items make.
pub open spec fn list_size(items: Seq<Item>) -> nat
    decreases items,
{
    if items.len() == 0 {
        0
    } else {
        list_size(items.drop_last()) + item_size(items.last())
    }
}

/// Whether the nodes from `at` on are those of an item below the node `parent`: an
/// element with its tag and attributes, and what is in it behind it; a nameless
/// node for white space and for a comment.
pub open spec fn holds_item(nodes: Seq<NodeView>, item: Item, parent: int, at: int) -> bool
    decreases item,
{
    &&& nodes[at].parent == Some(parent)
    &&& nodes[at].namespace is None
    &&& match item {
        Item::Element { tag, attributes, items } => nodes[at].name == tag && nodes[at].attributes
            == attributes && holds_list(nodes, items, at, at + 1),
        _ => nodes[at].name == Seq::<char>::empty() && nodes[at].attributes == Seq::<
            (Seq<char>, Seq<char>),
        >::empty(),
    }
}

/// Whether the nodes from `at` on are those of the items, one after the other.
pub open spec fn holds_list(nodes: Seq<NodeView>, items: Seq<Item>, parent: int, at: int) -> bool
    decreases items,
{
    items.len() == 0 || (holds_list(nodes, items.drop_last(), parent, at) && holds_item(
        nodes,
        items.last(),
        parent,
        at + list_size(items.drop_last()),
    ))
}

/// Whether the nodes are those of the document with the root element `root`: a
/// nameless node for the document, and the root below it.
pub open spec fn holds_document(nodes: Seq<NodeView>, root: Item) -> bool {
    &&& nodes.len() == 1 + item_size(root)
    &&& nodes[0].parent is None
    &&& nodes[0].name == Seq::<char>::empty()
    &&& holds_item(nodes, root, 0, 1)
}

/// Where item `k` of the items that start at `at` starts.
pub open spec fn item_at(items: Seq<Item>, at: int, k: int) -> int {
    at + list_size(items.take(k))
}

/// Whether no node outside `lo..hi` lies below one inside.
pub open spec fn is_closed(nodes: Seq<NodeView>, lo: int, hi: int) -> bool {
    forall|j: int|
        (0 <= j < lo || hi <= j < nodes.len()) ==> !((#[trigger] nodes[j]).parent matches Some(q)
            && lo <= q < hi)
}

/// Whether a node is that of the item at `at` below `parent`, with nothing of the
/// item elsewhere.
pub open spec fn stands_at(nodes: Seq<NodeView>, item: Item, parent: int, at: int) -> bool {
    &&& 0 <= parent < at
    &&& at + item_size(item) <= nodes.len()
    &&& holds_item(nodes, item, parent, at)
    &&& is_closed(nodes, at, at + item_size(item))
}

proof fn lemma_take_size(items: Seq<Item>, k: int)
    requires
        0 <= k < items.len(),
    ensures
        list_size(items.take(k + 1)) == list_size(items.take(k)) + item_size(items[k]),
        item_size(items[k]) >= 1,
{
    assert(items.take(k + 1).drop_last() =~= items.take(k));
    assert(items.take(k + 1).last() == items[k]);
}

proof fn lemma_take_size_grows(items: Seq<Item>, a: int, b: int)
    requires
        0 <= a <= b <= items.len(),
    ensures
        list_size(items.take(a)) <= list_size(items.take(b)),
        a < b ==> list_size(items.take(a)) + item_size(items[a]) <= list_size(items.take(b)),
    decreases b - a,
{
    if a < b {
        lemma_take_size(items, a);
        lemma_take_size_grows(items, a + 1, b);
    }
}

proof fn lemma_list_item(nodes: Seq<NodeView>, items: Seq<Item>, parent: int, at: int, k: int)
    requires
        holds_list(nodes, items, parent, at),
        0 <= k < items.len(),
    ensures
        holds_item(nodes, items[k], parent, item_at(items, at, k)),
    decreases items.len(),
{
    let front = items.drop_last();
    if k < front.len() {
        lemma_list_item(nodes, front, parent, at, k);
        assert(front.take(k) =~= items.take(k));
        assert(front[k] == items[k]);
    } else {
        assert(items.take(k) =~= front);
    }
}

proof fn lemma_parents_of_item(nodes: Seq<NodeView>, item: Item, parent: int, at: int)
    requires
        holds_item(nodes, item, parent, at),
    ensures
        forall|j: int|
            at < j < at + item_size(item) ==> ((#[trigger] nodes[j]).parent matches Some(q) && at
                <= q < j),
    decreases item,
{
    match item {
        Item::Element { tag, attributes, items } => {
            lemma_parents_of_list(nodes, items, at, at + 1);
        },
        _ => {},
    }
}

proof fn lemma_parents_of_list(nodes: Seq<NodeView>, items: Seq<Item>, parent: int, at: int)
    requires
        holds_list(nodes, items, parent, at),
        parent < at,
    ensures
        forall|j: int|
            at <= j < at + list_size(items) ==> ((#[trigger] nodes[j]).parent matches Some(q) && (q
                == parent || at <= q < j)),
    decreases items,
{
    if items.len() > 0 {
        lemma_parents_of_list(nodes, items.drop_last(), parent, at);
        lemma_parents_of_item(
            nodes,
            items.last(),
            parent,
            at + list_size(items.drop_last()),
        );
    }
}

/// Which item a node inside a list belongs to.
proof fn lemma_locate(items: Seq<Item>, at: int, j: int) -> (k: int)
    requires
        at <= j < at + list_size(items),
    ensures
        0 <= k < items.len(),
        item_at(items, at, k) <= j < item_at(items, at, k) + item_size(items[k]),
    decreases items.len(),
{
    let front = items.drop_last();
    if j < at + list_size(front) {
        let k = lemma_locate(front, at, j);
        assert(front.take(k) =~= items.take(k));
        assert(front[k] == items[k]);
        k
    } else {
        assert(items.take(items.len() - 1) =~= front);
        items.len() - 1
    }
}

/// What stands in an element stands below it.
pub proof fn lemma_stands_inside(
    nodes: Seq<NodeView>,
    tag: Seq<char>,
    attributes: Seq<(Seq<char>, Seq<char>)>,
    items: Seq<Item>,
    parent: int,
    at: int,
    k: int,
)
    requires
        stands_at(nodes, element(tag, attributes, items), parent, at),
        0 <= k < items.len(),
    ensures
        stands_at(nodes, items[k], at, item_at(items, at + 1, k)),
{
    let e = element(tag, attributes, items);
    let start = item_at(items, at + 1, k);
    let end = start + item_size(items[k]);
    lemma_list_item(nodes, items, at, at + 1, k);
    lemma_take_size(items, k);
    lemma_take_size_grows(items, k + 1, items.len() as int);
    assert(items.take(items.len() as int) =~= items);
    assert(item_size(e) == 1 + list_size(items));
    assert forall|j: int| (0 <= j < start || end <= j < nodes.len()) implies !((
    #[trigger] nodes[j]).parent matches Some(q) && start <= q < end) by {
        if at < j < at + item_size(e) {
            let m = lemma_locate(items, at + 1, j);
            lemma_list_item(nodes, items, at, at + 1, m);
            lemma_parents_of_item(nodes, items[m], at, item_at(items, at + 1, m));
            if m < k {
                lemma_take_size_grows(items, m, k);
            } else if k < m {
                lemma_take_size_grows(items, k, m);
            }
        }
    }
}

/// Whether an item is an element called `tag`.
pub open spec fn is_tagged(item: Item, tag: Seq<char>) -> bool {
    item matches Item::Element { tag: t, .. } && t == tag
}

proof fn lemma_ascending_same(a: Seq<int>, b: Seq<int>)
    requires
        forall|i: int, j: int| 0 <= i < j < a.len() ==> #[trigger] a[i] < #[trigger] a[j],
        forall|i: int, j: int| 0 <= i < j < b.len() ==> #[trigger] b[i] < #[trigger] b[j],
        forall|x: int| #[trigger] a.contains(x) <==> b.contains(x),
    ensures
        a == b,
    decreases a.len(),
{
    if a.len() == 0 {
        if b.len() > 0 {
            assert(b.contains(b[0]));
            assert(a.contains(b[0]));
        }
        assert(a =~= b);
    } else {
        assert(a[a.len() - 1] == a.last());
        assert(a.contains(a.last()));
        assert(b.contains(a.last()));
        assert(b[b.len() - 1] == b.last());
        assert(b.contains(b.last()));
        assert(a.contains(b.last()));
        let i = choose|i: int| 0 <= i < b.len() && b[i] == a.last();
        let j = choose|j: int| 0 <= j < a.len() && a[j] == b.last();
        assert(a.last() == b.last());
        let fa = a.drop_last();
        let fb = b.drop_last();
        assert forall|x: int| #[trigger] fa.contains(x) <==> fb.contains(x) by {
            if fa.contains(x) {
                let m = choose|m: int| 0 <= m < fa.len() && fa[m] == x;
                assert(a[m] == x);
                assert(a.contains(x));
                assert(b.contains(x));
                let n = choose|n: int| 0 <= n < b.len() && b[n] == x;
                assert(fb[n] == x);
            }
            if fb.contains(x) {
                let m = choose|m: int| 0 <= m < fb.len() && fb[m] == x;
                assert(b[m] == x);
                assert(b.contains(x));
                assert(a.contains(x));
                let n = choose|n: int| 0 <= n < a.len() && a[n] == x;
                assert(fa[n] == x);
            }
        }
        lemma_ascending_same(fa, fb);
        assert(a =~= fa.push(a.last()));
        assert(b =~= fb.push(b.last()));
    }
}

/// The children of an element with a given tag are the items with that tag, in
/// their order: `ks` are their places.
pub proof fn lemma_children(
    nodes: Seq<NodeView>,
    tag: Seq<char>,
    attributes: Seq<(Seq<char>, Seq<char>)>,
    items: Seq<Item>,
    parent: int,
    at: int,
    name: Seq<char>,
    ks: Seq<int>,
)
    requires
        stands_at(nodes, element(tag, attributes, items), parent, at),
        name.len() > 0,
        forall|a: int, b: int| 0 <= a < b < ks.len() ==> #[trigger] ks[a] < #[trigger] ks[b],
        forall|a: int|
            0 <= a < ks.len() ==> 0 <= #[trigger] ks[a] < items.len() && is_tagged(
                items[ks[a]],
                name,
            ),
        forall|m: int|
            0 <= m < items.len() && is_tagged(#[trigger] items[m], name) ==> ks.contains(m),
    ensures
        xml::children_of(nodes, at, name) == ks.map_values(|m: int| item_at(items, at + 1, m)),
{
    let f = |m: int| item_at(items, at + 1, m);
    let want = ks.map_values(f);
    let keep = xml::is_child(nodes, at, name);
    let got = xml::select(nodes.len(), keep);
    xml::lemma_select(nodes.len(), keep);
    assert forall|i: int, j: int| 0 <= i < j < want.len() implies #[trigger] want[i]
        < #[trigger] want[j] by {
        assert(ks[i] < ks[j]);
        lemma_take_size_grows(items, ks[i], ks[j]);
        lemma_take_size(items, ks[i]);
    }
    assert forall|x: int| #[trigger] got.contains(x) <==> want.contains(x) by {
        if want.contains(x) {
            let a = choose|a: int| 0 <= a < want.len() && want[a] == x;
            let k = ks[a];
            lemma_stands_inside(nodes, tag, attributes, items, parent, at, k);
            assert(nodes[x].name == name);
            assert(keep(x));
        }
        if got.contains(x) {
            assert(nodes[x].parent == Some(at));
            if x == at || x < at || x >= at + item_size(element(tag, attributes, items)) {
                assert(!(nodes[x].parent matches Some(q) && at <= q < at + item_size(
                    element(tag, attributes, items),
                )));
            }
            let m = lemma_locate(items, at + 1, x);
            lemma_list_item(nodes, items, at, at + 1, m);
            lemma_parents_of_item(nodes, items[m], at, item_at(items, at + 1, m));
            assert(x == item_at(items, at + 1, m));
            assert(is_tagged(items[m], name));
            let a = choose|a: int| 0 <= a < ks.len() && ks[a] == m;
            assert(want[a] == x);
        }
    }
    lemma_ascending_same(got, want);
}

/// The root element of a document stands below its first node.
pub proof fn lemma_root(nodes: Seq<NodeView>, root: Item)
    requires
        holds_document(nodes, root),
        is_tagged(root, root->tag),
        root->tag.len() > 0,
    ensures
        stands_at(nodes, root, 0, 1),
        xml::root_of(nodes) == Some(1int),
{
    lemma_parents_of_item(nodes, root, 0, 1);
    let keep = xml::is_top(nodes);
    xml::lemma_select(nodes.len(), keep);
    let got = xml::select(nodes.len(), keep);
    assert(keep(1));
    assert(got.contains(1));
    assert(got.contains(got[0]));
    assert(!keep(0));
}

/// A text that is written piece by piece.
pub struct Sheet {
    text: String,
    pieces: Ghost<Seq<Piece>>,
}

/// The names and values of attributes.
pub open spec fn attribute_views(v: Seq<(&str, &str)>) -> Seq<(Seq<char>, Seq<char>)> {
    v.map_values(|a: (&str, &str)| (a.0@, a.1@))
}

/// Append the attributes of a tag.
fn push_attributes(out: &mut String, attributes: &Vec<(&str, &str)>)
    ensures
        final(out)@ == old(out)@ + attributes_text(attribute_views(attributes@)),
{
    broadcast use Seq::lemma_flat_map_take_append;

    let ghost before = out@;
    let ghost all = attribute_views(attributes@);
    let ghost f = |a: (Seq<char>, Seq<char>)| attribute_text(a);
    let mut i: usize = 0;
    assert(out@ =~= before + all.take(0).flat_map(f));
    while i < attributes.len()
        invariant
            i <= attributes@.len(),
            all == attribute_views(attributes@),
            f == (|a: (Seq<char>, Seq<char>)| attribute_text(a)),
            out@ == before + all.take(i as int).flat_map(f),
        decreases attributes@.len() - i,
    {
        broadcast use Seq::lemma_flat_map_take_append;

        let ghost seen = out@;
        let a = attributes[i];
        assert(all[i as int] == (a.0@, a.1@));
        out.push(' ');
        out.append(a.0);
        out.push('=');
        out.push('"');
        out.append(a.1);
        out.push('"');
        assert(out@ =~= seen + attribute_text(all[i as int]));
        assert(all.take(i + 1).flat_map(f) == all.take(i as int).flat_map(f) + f(all[i as int]));
        assert(out@ =~= before + all.take(i + 1).flat_map(f));
        i = i + 1;
    }
    assert(all.take(i as int) =~= all);
}

impl Sheet {
    /// The pieces written so far.
    pub closed spec fn pieces(&self) -> Seq<Piece> {
        self.pieces@
    }

    #[verifier::type_invariant]
    spec fn well_formed(&self) -> bool {
        self.text@ == pieces_text(self.pieces@)
    }

    /// An empty sheet.
    pub fn new() -> (out: Sheet)
        ensures
            out.pieces() == Seq::<Piece>::empty(),
    {
        proof {
            assert(pieces_text(Seq::<Piece>::empty()) =~= Seq::<char>::empty());
        }
        Sheet { text: String::new(), pieces: Ghost(Seq::empty()) }
    }

    /// What is written.
    pub fn text(&self) -> (out: &str)
        ensures
            out@ == pieces_text(self.pieces()),
    {
        proof {
            use_type_invariant(self);
        }
        self.text.as_str()
    }

    /// Write one more piece, whose text is `t`.
    fn put(&mut self, t: &str, piece: Ghost<Piece>)
        requires
            t@ == piece_text(piece@),
        ensures
            final(self).pieces() == old(self).pieces().push(piece@),
    {
        proof {
            use_type_invariant(&*self);
            self.pieces@.lemma_flat_map_push(|p: Piece| piece_text(p), piece@);
        }
        let mut taken = Sheet::new();
        std::mem::swap(self, &mut taken);
        let Sheet { text, pieces } = taken;
        let mut text = text;
        text.append(t);
        *self = Sheet { text, pieces: Ghost(pieces@.push(piece@)) };
    }

    /// Write white space.
    pub fn blank(&mut self, s: &str)
        ensures
            final(self).pieces() == old(self).pieces().push(Piece::Blank(s@)),
    {
        self.put(s, Ghost(Piece::Blank(s@)));
    }

    /// Write `<tag ...>`.
    pub fn open(&mut self, tag: &str, attributes: Vec<(&str, &str)>)
        ensures
            final(self).pieces() == old(self).pieces().push(
                Piece::Open(tag@, attribute_views(attributes@)),
            ),
    {
        let mut t = String::new();
        t.push('<');
        t.append(tag);
        push_attributes(&mut t, &attributes);
        t.push('>');
        let ghost p = Piece::Open(tag@, attribute_views(attributes@));
        assert(t@ =~= piece_text(p));
        self.put(t.as_str(), Ghost(p));
    }

    /// Write `<tag .../>`.
    pub fn empty(&mut self, tag: &str, attributes: Vec<(&str, &str)>)
        ensures
            final(self).pieces() == old(self).pieces().push(
                Piece::Empty(tag@, attribute_views(attributes@)),
            ),
    {
        let mut t = String::new();
        t.push('<');
        t.append(tag);
        push_attributes(&mut t, &attributes);
        t.push('/');
        t.push('>');
        let ghost p = Piece::Empty(tag@, attribute_views(attributes@));
        assert(t@ =~= piece_text(p));
        self.put(t.as_str(), Ghost(p));
    }

    /// Write `</tag>`.
    pub fn close(&mut self, tag: &str)
        ensures
            final(self).pieces() == old(self).pieces().push(Piece::Close(tag@)),
    {
        let mut t = String::new();
        t.push('<');
        t.push('/');
        t.append(tag);
        t.push('>');
        assert(t@ =~= piece_text(Piece::Close(tag@)));
        self.put(t.as_str(), Ghost(Piece::Close(tag@)));
    }
}

} // verus!
