//! XML documents as flat lists of nodes, with lookups that mirror
//! ElementTree's `find` and `findall` on direct children. Like ElementTree
//! without a namespace map, a plain tag only matches elements that have no
//! namespace.

use vstd::prelude::*;

use crate::markup;
use crate::markup::Item;
use crate::text;

verus! {

/// One node of a document, in document order. The document itself is node 0.
pub struct XmlNode {
    /// The index of the parent node.
    pub parent: Option<usize>,
    /// The namespace of an element.
    pub namespace: Option<String>,
    /// The local name of an element; empty for every other node.
    pub name: String,
    /// Local names and values of an element's attributes.
    pub attributes: Vec<(String, String)>,
    /// Where the node starts in the text, in bytes.
    pub start: usize,
    /// Where the node ends in the text, in bytes.
    pub end: usize,
}

/// The contents of an [`XmlNode`].
#[verifier::ext_equal]
pub struct NodeView {
    pub parent: Option<int>,
    pub namespace: Option<Seq<char>>,
    pub name: Seq<char>,
    pub attributes: Seq<(Seq<char>, Seq<char>)>,
    pub start: int,
    pub end: int,
}

/// The contents of a list of attributes.
pub open spec fn attribute_views(v: Seq<(String, String)>) -> Seq<(Seq<char>, Seq<char>)> {
    v.map_values(|a: (String, String)| (a.0@, a.1@))
}

impl View for XmlNode {
    type V = NodeView;

    open spec fn view(&self) -> NodeView {
        NodeView {
            parent: text::opt_int(self.parent),
            namespace: text::opt_text(self.namespace),
            name: self.name@,
            attributes: attribute_views(self.attributes@),
            start: self.start as int,
            end: self.end as int,
        }
    }
}

/// The contents of a list of nodes.
pub open spec fn views(nodes: Seq<XmlNode>) -> Seq<NodeView> {
    nodes.map_values(|n: XmlNode| n@)
}

/// The nodes that `roxmltree` parses `text` into, or its error message.
pub uninterp spec fn parsed_xml(text: Seq<char>, allow_dtd: bool) -> Result<
    Seq<NodeView>,
    Seq<char>,
>;

/// The nodes of a text that was parsed.
pub open spec fn parsed_nodes(res: Result<Vec<XmlNode>, String>) -> Option<Seq<NodeView>> {
    match res {
        Ok(nodes) => Some(views(nodes@)),
        Err(_) => None,
    }
}

/// Whether the text gives the nodes of the document that it is, wherever it is a
/// plain one.
pub open spec fn reads_plain_documents(text: Seq<char>, nodes: Option<Seq<NodeView>>) -> bool {
    forall|root: Item| #[trigger]
        markup::is_plain(root) && text == markup::document_text(root) && text.len() < u32::MAX
            ==> (nodes matches Some(n) && markup::holds_document(n, root))
}

/// The prefix that the root element of `text` binds to the namespace `uri`,
/// as `roxmltree` finds it.
pub uninterp spec fn root_prefix_of(text: Seq<char>, uri: Seq<char>) -> Option<Seq<char>>;

/// `roxmltree::Document::parse_with_options` with its nodes listed in document
/// order: the parent, the tag name, the attributes and the byte range of
/// each. What it makes of a text is named [`parsed_xml`]. A parsed document has a
/// root element. A plain document parses as it was written: the document's own
/// node, then one node for each element, comment and stretch of white space inside
/// the root element, in their order; only its limit of `u32::MAX` nodes could stop
/// it. Which nodes any other text has is not stated.
#[verifier::external_body]
fn parse_nodes(text: &str, allow_dtd: bool) -> (res: Result<Vec<XmlNode>, String>)
    ensures
        match res {
            Ok(nodes) => parsed_xml(text@, allow_dtd) == Ok::<Seq<NodeView>, Seq<char>>(
                views(nodes@),
            ) && root_of(views(nodes@)) is Some,
            Err(e) => parsed_xml(text@, allow_dtd) == Err::<Seq<NodeView>, Seq<char>>(e@),
        },
        reads_plain_documents(text@, parsed_nodes(res)),
{
    let opts = roxmltree::ParsingOptions { allow_dtd, ..Default::default() };
    let doc = roxmltree::Document::parse_with_options(text, opts).map_err(|e| e.to_string())?;
    Ok(doc.descendants().map(|n| XmlNode {
        parent: n.parent().map(|p| p.id().get_usize()),
        namespace: n.tag_name().namespace().map(str::to_string),
        name: n.tag_name().name().to_string(),
        attributes: n.attributes().map(|a| (a.name().to_string(), a.value().to_string())).collect(),
        start: n.range().start,
        end: n.range().end,
    }).collect())
}

/// `roxmltree::Node::lookup_prefix` at the root element of `text`, named
/// [`root_prefix_of`]; `None` also when the text does not parse.
#[verifier::external_body]
fn lookup_root_prefix(text: &str, uri: &str) -> (prefix: Option<String>)
    ensures
        text::opt_text(prefix) == root_prefix_of(text@, uri@),
{
    let opts = roxmltree::ParsingOptions { allow_dtd: true, ..Default::default() };
    let doc = roxmltree::Document::parse_with_options(text, opts).ok()?;
    doc.root_element().lookup_prefix(uri).map(str::to_string)
}

/// Parse `text` into its nodes; the error is the parser's message. A document
/// type declaration is an error unless `allow_dtd`.
pub fn parse_xml(text: &str, allow_dtd: bool) -> (res: Result<Vec<XmlNode>, String>)
    ensures
        match res {
            Ok(nodes) => parsed_xml(text@, allow_dtd) == Ok::<Seq<NodeView>, Seq<char>>(
                views(nodes@),
            ) && root_of(views(nodes@)) is Some,
            Err(e) => parsed_xml(text@, allow_dtd) == Err::<Seq<NodeView>, Seq<char>>(e@),
        },
        reads_plain_documents(text@, parsed_nodes(res)),
{
    parse_nodes(text, allow_dtd)
}

/// The prefix that the root element of `text` binds to the namespace `uri`.
pub fn root_prefix(text: &str, uri: &str) -> (prefix: Option<String>)
    ensures
        text::opt_text(prefix) == root_prefix_of(text@, uri@),
{
    lookup_root_prefix(text, uri)
}

/// The indices of the nodes that pass `keep`, in document order.
pub open spec fn select(n: nat, keep: spec_fn(int) -> bool) -> Seq<int>
    decreases n,
{
    if n == 0 {
        Seq::empty()
    } else {
        let front = select((n - 1) as nat, keep);
        if keep(n - 1) {
            front.push(n - 1)
        } else {
            front
        }
    }
}

/// A selection holds exactly the indices that pass, in ascending order.
pub proof fn lemma_select(n: nat, keep: spec_fn(int) -> bool)
    ensures
        forall|j: int| #[trigger]
            select(n, keep).contains(j) <==> 0 <= j < n && keep(j),
        forall|a: int, b: int|
            0 <= a < b < select(n, keep).len() ==> #[trigger] select(n, keep)[a]
                < #[trigger] select(n, keep)[b],
        forall|a: int|
            0 <= a < select(n, keep).len() ==> 0 <= #[trigger] select(n, keep)[a] < n,
    decreases n,
{
    if n > 0 {
        let m = (n - 1) as nat;
        let front = select(m, keep);
        let all = select(n, keep);
        lemma_select(m, keep);
        assert forall|j: int| #[trigger] all.contains(j) <==> 0 <= j < n && keep(j) by {
            if all.contains(j) {
                let k = choose|k: int| 0 <= k < all.len() && all[k] == j;
                if k < front.len() {
                    assert(front.contains(front[k]));
                }
            }
            if 0 <= j < m && keep(j) {
                assert(front.contains(j));
                let k = choose|k: int| 0 <= k < front.len() && front[k] == j;
                assert(all[k] == j);
            }
            if j == m && keep(j) {
                assert(all[all.len() - 1] == j);
            }
        }
    }
}

/// Indices as integers.
pub open spec fn ints(v: Seq<usize>) -> Seq<int> {
    v.map_values(|i: usize| i as int)
}

/// Whether a node is an element.
pub open spec fn is_element(n: NodeView) -> bool {
    n.name.len() > 0
}

/// Whether `n` is an element named `tag` without a namespace.
pub open spec fn is_plain(n: NodeView, tag: Seq<char>) -> bool {
    is_element(n) && n.namespace is None && n.name == tag
}

/// Whether `n` is an element with the local name `tag`, in any namespace.
pub open spec fn is_named(n: NodeView, tag: Seq<char>) -> bool {
    is_element(n) && n.name == tag
}

/// The test for element children of node `i` named `tag`.
pub open spec fn is_child(nodes: Seq<NodeView>, i: int, tag: Seq<char>) -> spec_fn(int) -> bool {
    |j: int| nodes[j].parent == Some(i) && is_plain(nodes[j], tag)
}

/// The element children of node `i` named `tag`.
pub open spec fn children_of(nodes: Seq<NodeView>, i: int, tag: Seq<char>) -> Seq<int> {
    select(nodes.len(), is_child(nodes, i, tag))
}

/// The first element child of node `i` named `tag`.
pub open spec fn child_of(nodes: Seq<NodeView>, i: int, tag: Seq<char>) -> Option<int> {
    let all = children_of(nodes, i, tag);
    if all.len() > 0 {
        Some(all[0])
    } else {
        None
    }
}

/// The test for the element children of the document.
pub open spec fn is_top(nodes: Seq<NodeView>) -> spec_fn(int) -> bool {
    |j: int| nodes[j].parent == Some(0int) && is_element(nodes[j])
}

/// The root element.
pub open spec fn root_of(nodes: Seq<NodeView>) -> Option<int> {
    let all = select(nodes.len(), is_top(nodes));
    if all.len() > 0 {
        Some(all[0])
    } else {
        None
    }
}

/// Whether node `j` lies below node `r`.
pub open spec fn lies_below(nodes: Seq<NodeView>, j: int, r: int) -> bool
    decreases j,
{
    match nodes[j].parent {
        Some(p) => 0 <= p < j && (p == r || lies_below(nodes, p, r)),
        None => false,
    }
}

/// The value of the first attribute named `name`, from position `k` on.
pub open spec fn attribute_from(
    attributes: Seq<(Seq<char>, Seq<char>)>,
    name: Seq<char>,
    k: int,
) -> Option<Seq<char>>
    decreases attributes.len() - k,
{
    if k < 0 || k >= attributes.len() {
        None
    } else if attributes[k].0 == name {
        Some(attributes[k].1)
    } else {
        attribute_from(attributes, name, k + 1)
    }
}

/// The value of the attribute `name` of a node.
pub open spec fn attribute_of(n: NodeView, name: Seq<char>) -> Option<Seq<char>> {
    attribute_from(n.attributes, name, 0)
}

/// ElementTree's tag string: `{namespace}name` or `name`.
pub open spec fn tag_string(n: NodeView) -> Seq<char> {
    match n.namespace {
        Some(ns) => "{"@ + ns + "}"@ + n.name,
        None => n.name,
    }
}

/// The element children of node `i` named `tag`.
pub fn children(nodes: &[XmlNode], i: usize, tag: &str) -> (out: Vec<usize>)
    ensures
        ints(out@) == children_of(views(nodes@), i as int, tag@),
        forall|k: int| 0 <= k < out@.len() ==> #[trigger] out@[k] < nodes@.len(),
{
    let ghost keep = is_child(views(nodes@), i as int, tag@);
    let mut out: Vec<usize> = Vec::new();
    let mut j: usize = 0;
    assert(ints(out@) =~= Seq::<int>::empty());
    while j < nodes.len()
        invariant
            j <= nodes@.len(),
            keep == is_child(views(nodes@), i as int, tag@),
            ints(out@) == select(j as nat, keep),
            forall|k: int| 0 <= k < out@.len() ==> #[trigger] out@[k] < nodes@.len(),
        decreases nodes@.len() - j,
    {
        let n = &nodes[j];
        let below = match n.parent {
            Some(p) => p == i,
            None => false,
        };
        let ghost before = ints(out@);
        assert(views(nodes@)[j as int] == n@);
        if below && n.namespace.is_none() && !n.name.as_str().is_empty() && text::same(
            n.name.as_str(),
            tag,
        ) {
            out.push(j);
            assert(ints(out@) =~= before.push(j as int));
        }
        j = j + 1;
    }
    out
}

/// The first element child of node `i` named `tag`.
pub fn child(nodes: &[XmlNode], i: usize, tag: &str) -> (out: Option<usize>)
    ensures
        text::opt_int(out) == child_of(views(nodes@), i as int, tag@),
        out matches Some(j) ==> j < nodes@.len(),
{
    let all = children(nodes, i, tag);
    if all.len() > 0 {
        assert(ints(all@)[0] == all@[0]);
        Some(all[0])
    } else {
        None
    }
}

/// The root element.
pub fn root_element(nodes: &[XmlNode]) -> (out: Option<usize>)
    ensures
        text::opt_int(out) == root_of(views(nodes@)),
        out matches Some(j) ==> j < nodes@.len(),
{
    let ghost keep = is_top(views(nodes@));
    let mut j: usize = 0;
    while j < nodes.len()
        invariant
            j <= nodes@.len(),
            keep == is_top(views(nodes@)),
            select(j as nat, keep) == Seq::<int>::empty(),
        decreases nodes@.len() - j,
    {
        let n = &nodes[j];
        assert(views(nodes@)[j as int] == n@);
        let top = match n.parent {
            Some(p) => p == 0,
            None => false,
        };
        if top && !n.name.as_str().is_empty() {
            proof {
                lemma_select_prefix((j + 1) as nat, nodes@.len(), keep);
                assert(select((j + 1) as nat, keep) =~= seq![j as int]);
            }
            return Some(j);
        }
        j = j + 1;
    }
    None
}

/// A selection from fewer nodes is a prefix of the selection from more.
pub proof fn lemma_select_prefix(m: nat, n: nat, keep: spec_fn(int) -> bool)
    requires
        m <= n,
    ensures
        select(m, keep).len() <= select(n, keep).len(),
        forall|k: int| 0 <= k < select(m, keep).len() ==> select(m, keep)[k] == select(n, keep)[k],
    decreases n,
{
    if m < n {
        lemma_select_prefix(m, (n - 1) as nat, keep);
    }
}

/// Which nodes lie below node `r`.
pub fn below(nodes: &[XmlNode], r: usize) -> (inside: Vec<bool>)
    ensures
        inside@.len() == nodes@.len(),
        forall|j: int|
            0 <= j < nodes@.len() ==> #[trigger] inside@[j] == lies_below(
                views(nodes@),
                j,
                r as int,
            ),
{
    let mut inside: Vec<bool> = Vec::new();
    let mut j: usize = 0;
    while j < nodes.len()
        invariant
            j <= nodes@.len(),
            inside@.len() == j,
            forall|k: int|
                0 <= k < j ==> #[trigger] inside@[k] == lies_below(views(nodes@), k, r as int),
        decreases nodes@.len() - j,
    {
        let n = &nodes[j];
        assert(views(nodes@)[j as int] == n@);
        let b = match n.parent {
            Some(p) => p < j && (p == r || inside[p]),
            None => false,
        };
        inside.push(b);
        j = j + 1;
    }
    inside
}

/// The value of the attribute `name` of a node.
pub fn attribute(n: &XmlNode, name: &str) -> (value: Option<String>)
    ensures
        text::opt_text(value) == attribute_of(n@, name@),
{
    let mut k: usize = 0;
    while k < n.attributes.len()
        invariant
            k <= n.attributes@.len(),
            attribute_of(n@, name@) == attribute_from(n@.attributes, name@, k as int),
        decreases n.attributes@.len() - k,
    {
        assert(n@.attributes[k as int] == (n.attributes@[k as int].0@, n.attributes@[k as int].1@));
        if text::same(n.attributes[k].0.as_str(), name) {
            return Some(n.attributes[k].1.clone());
        }
        k = k + 1;
    }
    None
}

/// ElementTree's tag string: `{namespace}name` or `name`.
pub fn et_tag(n: &XmlNode) -> (out: String)
    ensures
        out@ == tag_string(n@),
{
    match &n.namespace {
        Some(ns) => {
            let mut out = String::from_str("{");
            out.append(ns.as_str());
            out.append("}");
            out.append(n.name.as_str());
            out
        },
        None => n.name.clone(),
    }
}

/// How many bytes the character takes in UTF-8.
pub open spec fn utf8_len(c: char) -> int {
    if (c as u32) < 0x80 {
        1
    } else if (c as u32) < 0x800 {
        2
    } else if (c as u32) < 0x10000 {
        3
    } else {
        4
    }
}

/// The position that lies `bytes` bytes after position `i`.
pub open spec fn char_index(s: Seq<char>, i: int, bytes: int) -> int
    decreases s.len() - i,
{
    if i < 0 || i >= s.len() || bytes <= 0 {
        i
    } else {
        char_index(s, i + 1, bytes - utf8_len(s[i]))
    }
}

/// The position of the character at byte `offset`.
pub fn position_of(cs: &[char], offset: usize) -> (at: usize)
    ensures
        at == char_index(cs@, 0, offset as int),
        at <= cs@.len(),
{
    let mut i: usize = 0;
    let mut left: usize = offset;
    while i < cs.len() && left > 0
        invariant
            i <= cs@.len(),
            char_index(cs@, 0, offset as int) == char_index(cs@, i as int, left as int),
        decreases cs@.len() - i,
    {
        let n: u32 = cs[i] as u32;
        let w: usize = if n < 0x80 {
            1
        } else if n < 0x800 {
            2
        } else if n < 0x10000 {
            3
        } else {
            4
        };
        let ghost wanted = left - w;
        left = if left >= w {
            left - w
        } else {
            0
        };
        i = i + 1;
        assert(wanted <= 0 ==> char_index(cs@, i as int, wanted) == i);
    }
    i
}

/// The children of an element with a given tag are all its child elements that have that
/// tag and no namespace, in document order.
pub proof fn children_are_the_elements_below(nodes: Seq<NodeView>, i: int, tag: Seq<char>)
    ensures
        forall|j: int| #[trigger]
            children_of(nodes, i, tag).contains(j) <==> 0 <= j < nodes.len() && nodes[j].parent
                == Some(i) && nodes[j].namespace is None && nodes[j].name == tag && tag.len() > 0,
        forall|a: int, b: int|
            0 <= a < b < children_of(nodes, i, tag).len() ==> #[trigger] children_of(
                nodes,
                i,
                tag,
            )[a] < #[trigger] children_of(nodes, i, tag)[b],
        child_of(nodes, i, tag) is Some <==> children_of(nodes, i, tag).len() > 0,
        child_of(nodes, i, tag) matches Some(c) ==> children_of(nodes, i, tag).contains(c)
            && forall|j: int| #[trigger] children_of(nodes, i, tag).contains(j) ==> c <= j,
{
    let keep = is_child(nodes, i, tag);
    lemma_select(nodes.len(), keep);
    let all = children_of(nodes, i, tag);
    assert forall|j: int| #[trigger] all.contains(j) <==> 0 <= j < nodes.len() && nodes[j].parent
        == Some(i) && nodes[j].namespace is None && nodes[j].name == tag && tag.len() > 0 by {
        assert(select(nodes.len(), keep).contains(j) <==> 0 <= j < nodes.len() && keep(j));
    }
    if all.len() > 0 {
        assert(all.contains(all[0]));
        assert forall|j: int| #[trigger] all.contains(j) implies all[0] <= j by {
            let k = choose|k: int| 0 <= k < all.len() && all[k] == j;
            if k > 0 {
                assert(all[0] < all[k]);
            }
        }
    }
}

/// The value of an attribute is that of the first one with its name.
pub proof fn attributes_are_found_by_name(n: NodeView, name: Seq<char>, k: int)
    requires
        0 <= k <= n.attributes.len(),
        forall|i: int| 0 <= i < k ==> (#[trigger] n.attributes[i]).0 != name,
    ensures
        k < n.attributes.len() && n.attributes[k].0 == name ==> attribute_of(n, name) == Some(
            n.attributes[k].1,
        ),
        k == n.attributes.len() ==> attribute_of(n, name) is None,
{
    lemma_attribute_from(n.attributes, name, 0, k);
}

proof fn lemma_attribute_from(
    attributes: Seq<(Seq<char>, Seq<char>)>,
    name: Seq<char>,
    from: int,
    k: int,
)
    requires
        0 <= from <= k <= attributes.len(),
        forall|i: int| from <= i < k ==> (#[trigger] attributes[i]).0 != name,
    ensures
        attribute_from(attributes, name, from) == attribute_from(attributes, name, k),
    decreases k - from,
{
    if from < k {
        assert(attributes[from].0 != name);
        lemma_attribute_from(attributes, name, from + 1, k);
    }
}

/// A node lies below another exactly where that is its parent or its parent lies below
/// it.
pub proof fn nodes_lie_below_their_ancestors(nodes: Seq<NodeView>, j: int, r: int)
    requires
        nodes[j].parent matches Some(p) ==> 0 <= p < j,
    ensures
        lies_below(nodes, j, r) <==> (nodes[j].parent matches Some(p) && (p == r || lies_below(
            nodes,
            p,
            r,
        ))),
{
}

} // verus!
