//! Links of a URDF at the zero joint configuration, for drawing a robot and
//! the spheres packed into its links: which joints lead to each link.

use vstd::prelude::*;

use crate::inspect;
use crate::numeral::{Triple, TripleView};
use crate::text;
use crate::xml;
use crate::xml::{NodeView, XmlNode};
use crate::{Error, ErrorView};

verus! {

/// A `<joint>` of the robot.
#[derive(Debug)]
pub struct Joint {
    pub name: String,
    /// `type` attribute (`fixed`, `revolute`, ...).
    pub kind: String,
    pub parent: String,
    pub child: String,
    pub xyz: Triple,
    pub rpy: Triple,
}

/// The contents of a [`Joint`].
pub struct JointView {
    pub name: Seq<char>,
    pub kind: Seq<char>,
    pub parent: Seq<char>,
    pub child: Seq<char>,
    pub xyz: TripleView,
    pub rpy: TripleView,
}

impl View for Joint {
    type V = JointView;

    open spec fn view(&self) -> JointView {
        JointView {
            name: self.name@,
            kind: self.kind@,
            parent: self.parent@,
            child: self.child@,
            xyz: self.xyz@,
            rpy: self.rpy@,
        }
    }
}

/// The contents of a list of joints.
pub open spec fn joint_views(v: Seq<Joint>) -> Seq<JointView> {
    v.map_values(|j: Joint| j@)
}

/// The link that the child element `tag` of node `j` names.
pub open spec fn linked(nodes: Seq<NodeView>, j: int, tag: Seq<char>) -> Option<Seq<char>> {
    match xml::child_of(nodes, j, tag) {
        Some(c) => xml::attribute_of(nodes[c], "link"@),
        None => None,
    }
}

/// An attribute's value, empty when it is absent.
pub open spec fn value_or_empty(n: NodeView, name: Seq<char>) -> Seq<char> {
    match xml::attribute_of(n, name) {
        Some(v) => v,
        None => Seq::empty(),
    }
}

/// The joint at node `j`, unless it lacks a parent or a child link.
pub open spec fn joint_at(nodes: Seq<NodeView>, j: int) -> Option<JointView> {
    match (linked(nodes, j, "parent"@), linked(nodes, j, "child"@)) {
        (Some(parent), Some(child)) => {
            let origin = xml::child_of(nodes, j, "origin"@);
            Some(
                JointView {
                    name: value_or_empty(nodes[j], "name"@),
                    kind: value_or_empty(nodes[j], "type"@),
                    parent,
                    child,
                    xyz: inspect::origin_part(nodes, origin, "xyz"@),
                    rpy: inspect::origin_part(nodes, origin, "rpy"@),
                },
            )
        },
        _ => None,
    }
}

/// The joints at the nodes, without those that lack a parent or a child link.
pub open spec fn joints_at(nodes: Seq<NodeView>, at: Seq<int>) -> Seq<JointView>
    decreases at.len(),
{
    if at.len() == 0 {
        Seq::empty()
    } else {
        let front = joints_at(nodes, at.drop_last());
        match joint_at(nodes, at.last()) {
            Some(j) => front.push(j),
            None => front,
        }
    }
}

/// The joints of a parsed URDF.
pub open spec fn joints_of(nodes: Seq<NodeView>) -> Seq<JointView> {
    joints_at(nodes, xml::children_of(nodes, xml::root_of(nodes)->0, "joint"@))
}

/// The link that the child element `tag` of node `j` names.
fn linked_name(nodes: &[XmlNode], j: usize, tag: &str) -> (out: Option<String>)
    ensures
        text::opt_text(out) == linked(xml::views(nodes@), j as int, tag@),
{
    match xml::child(nodes, j, tag) {
        Some(c) => {
            assert(xml::views(nodes@)[c as int] == nodes@[c as int]@);
            xml::attribute(&nodes[c], "link")
        },
        None => None,
    }
}

/// An attribute's value, empty when it is absent.
fn value_of(n: &XmlNode, name: &str) -> (out: String)
    ensures
        out@ == value_or_empty(n@, name@),
{
    match xml::attribute(n, name) {
        Some(v) => v,
        None => String::new(),
    }
}

/// The joints of a parsed URDF (direct children of `<robot>`; the `<joint>`
/// inside a `<transmission>` is not one), in document order.
pub fn joints_of_document(nodes: &[XmlNode]) -> (out: Vec<Joint>)
    requires
        xml::root_of(xml::views(nodes@)) is Some,
    ensures
        joint_views(out@) == joints_of(xml::views(nodes@)),
{
    let ghost v = xml::views(nodes@);
    let root = match xml::root_element(nodes) {
        Some(r) => r,
        None => 0,
    };
    let at = xml::children(nodes, root, "joint");
    let ghost js = xml::ints(at@);
    let mut out: Vec<Joint> = Vec::new();
    let mut k: usize = 0;
    assert(joint_views(out@) =~= Seq::<JointView>::empty());
    while k < at.len()
        invariant
            k <= at@.len(),
            v == xml::views(nodes@),
            js == xml::ints(at@),
            forall|i: int| 0 <= i < at@.len() ==> #[trigger] at@[i] < nodes@.len(),
            joint_views(out@) == joints_at(v, js.take(k as int)),
        decreases at@.len() - k,
    {
        let j: usize = at[k];
        proof {
            assert(js.take(k + 1).drop_last() =~= js.take(k as int));
            assert(js.take(k + 1).last() == j);
            assert(v[j as int] == nodes@[j as int]@);
        }
        match (linked_name(nodes, j, "parent"), linked_name(nodes, j, "child")) {
            (Some(parent), Some(child)) => {
                let (xyz, rpy) = inspect::parse_origin(nodes, xml::child(nodes, j, "origin"));
                let joint = Joint {
                    name: value_of(&nodes[j], "name"),
                    kind: value_of(&nodes[j], "type"),
                    parent,
                    child,
                    xyz,
                    rpy,
                };
                let ghost seen = joint_views(out@);
                let ghost jv = joint@;
                out.push(joint);
                assert(joint_views(out@) =~= seen.push(jv));
            },
            _ => {},
        }
        k = k + 1;
    }
    assert(js.take(k as int) =~= js);
    out
}

/// What the URDF `s` parses to, or the error.
pub open spec fn parsed_urdf(s: Seq<char>) -> Result<Seq<NodeView>, ErrorView> {
    match xml::parsed_xml(s, true) {
        Ok(nodes) => Ok(nodes),
        Err(e) => Err(ErrorView::Invalid("URDF is not valid XML: "@ + e)),
    }
}

/// The nodes of a URDF.
fn parse(urdf: &str) -> (res: Result<Vec<XmlNode>, Error>)
    ensures
        match res {
            Ok(nodes) => parsed_urdf(urdf@) == Ok::<Seq<NodeView>, ErrorView>(xml::views(nodes@))
                && xml::root_of(xml::views(nodes@)) is Some,
            Err(e) => parsed_urdf(urdf@) == Err::<Seq<NodeView>, ErrorView>(e@),
        },
{
    match xml::parse_xml(urdf, true) {
        Ok(nodes) => Ok(nodes),
        Err(e) => {
            let mut m = String::from_str("URDF is not valid XML: ");
            m.append(e.as_str());
            Err(Error::Invalid(m))
        },
    }
}

/// The joints of `urdf` (direct children of `<robot>`; the `<joint>` inside
/// a `<transmission>` is not one), in document order.
pub fn parse_joints(urdf: &str) -> (res: Result<Vec<Joint>, Error>)
    ensures
        match res {
            Ok(joints) => parsed_urdf(urdf@) matches Ok(nodes) && joint_views(joints@) == joints_of(
                nodes,
            ),
            Err(e) => parsed_urdf(urdf@) == Err::<Seq<NodeView>, ErrorView>(e@),
        },
{
    match parse(urdf) {
        Ok(nodes) => Ok(joints_of_document(&nodes)),
        Err(e) => Err(e),
    }
}

/// A link and the joints that lead to it from its root link: its pose is the
/// product of their origins, in order. No joints: the identity.
#[derive(Debug)]
pub struct LinkChain {
    pub link: String,
    pub joints: Vec<usize>,
}

/// The contents of a [`LinkChain`].
#[verifier::ext_equal]
pub struct ChainView {
    pub link: Seq<char>,
    pub joints: Seq<int>,
}

impl View for LinkChain {
    type V = ChainView;

    open spec fn view(&self) -> ChainView {
        ChainView { link: self.link@, joints: xml::ints(self.joints@) }
    }
}

/// The contents of a list of chains.
pub open spec fn chain_views(v: Seq<LinkChain>) -> Seq<ChainView> {
    v.map_values(|c: LinkChain| c@)
}

/// Whether a link has a chain.
pub open spec fn reached(chains: Seq<ChainView>, link: Seq<char>) -> bool {
    exists|i: int| 0 <= i < chains.len() && (#[trigger] chains[i]).link == link
}

/// The chains with one for the link, unless it has one.
pub open spec fn with_chain(chains: Seq<ChainView>, link: Seq<char>, joints: Seq<int>) -> Seq<
    ChainView,
> {
    if reached(chains, link) {
        chains
    } else {
        chains.push(ChainView { link, joints })
    }
}

/// The chains after the first `k` joints have been followed from the link of
/// `from`.
pub open spec fn followed(
    joints: Seq<JointView>,
    chains: Seq<ChainView>,
    from: ChainView,
    k: int,
) -> Seq<ChainView>
    decreases k,
{
    if k <= 0 || k > joints.len() {
        chains
    } else {
        let front = followed(joints, chains, from, k - 1);
        if joints[k - 1].parent == from.link {
            with_chain(front, joints[k - 1].child, from.joints.push(k - 1))
        } else {
            front
        }
    }
}

/// How many of the first `n` joints lead to a link that has no chain.
pub open spec fn open_joints(joints: Seq<JointView>, chains: Seq<ChainView>, n: int) -> nat
    decreases n,
{
    if n <= 0 || n > joints.len() {
        0
    } else {
        open_joints(joints, chains, n - 1) + (if reached(chains, joints[n - 1].child) {
            0nat
        } else {
            1nat
        })
    }
}

/// More chains leave fewer open joints.
proof fn lemma_open_monotone(joints: Seq<JointView>, a: Seq<ChainView>, b: Seq<ChainView>, n: int)
    requires
        a.len() <= b.len(),
        forall|i: int| 0 <= i < a.len() ==> a[i] == b[i],
    ensures
        open_joints(joints, b, n) <= open_joints(joints, a, n),
    decreases n,
{
    if 0 < n <= joints.len() {
        lemma_open_monotone(joints, a, b, n - 1);
        if reached(a, joints[n - 1].child) {
            let i = choose|i: int|
                0 <= i < a.len() && (#[trigger] a[i]).link == joints[n - 1].child;
            assert(b[i].link == joints[n - 1].child);
        }
    }
}

/// A chain for the child of an open joint closes that joint.
proof fn lemma_open_decreases(
    joints: Seq<JointView>,
    a: Seq<ChainView>,
    b: Seq<ChainView>,
    k: int,
    n: int,
)
    requires
        a.len() <= b.len(),
        forall|i: int| 0 <= i < a.len() ==> a[i] == b[i],
        0 <= k < n <= joints.len(),
        !reached(a, joints[k].child),
        reached(b, joints[k].child),
    ensures
        open_joints(joints, b, n) < open_joints(joints, a, n),
    decreases n,
{
    if k == n - 1 {
        lemma_open_monotone(joints, a, b, n - 1);
    } else {
        lemma_open_decreases(joints, a, b, k, n - 1);
        lemma_open_monotone(joints, a, b, n);
        if reached(a, joints[n - 1].child) {
            let i = choose|i: int|
                0 <= i < a.len() && (#[trigger] a[i]).link == joints[n - 1].child;
            assert(b[i].link == joints[n - 1].child);
        }
    }
}

/// Following joints only adds chains; if it adds any, open joints are closed.
pub proof fn lemma_followed(
    joints: Seq<JointView>,
    chains: Seq<ChainView>,
    from: ChainView,
    k: int,
)
    requires
        0 <= k <= joints.len(),
    ensures
        chains.len() <= followed(joints, chains, from, k).len(),
        forall|i: int|
            0 <= i < chains.len() ==> #[trigger] followed(joints, chains, from, k)[i] == chains[i],
        followed(joints, chains, from, k).len() > chains.len() ==> open_joints(
            joints,
            followed(joints, chains, from, k),
            joints.len() as int,
        ) < open_joints(joints, chains, joints.len() as int),
    decreases k,
{
    if k > 0 {
        lemma_followed(joints, chains, from, k - 1);
        let front = followed(joints, chains, from, k - 1);
        let all = followed(joints, chains, from, k);
        let n = joints.len() as int;
        if all.len() > front.len() {
            assert(all[all.len() - 1].link == joints[k - 1].child);
            lemma_open_decreases(joints, front, all, k - 1, n);
            lemma_open_monotone(joints, chains, front, n);
        }
    }
}

/// The chains when every link that has one is gone through, from place `head`
/// on, in the order in which they were reached.
pub open spec fn spread(joints: Seq<JointView>, chains: Seq<ChainView>, head: int) -> Seq<ChainView>
    decreases open_joints(joints, chains, joints.len() as int), chains.len() - head,
{
    if head < 0 || head >= chains.len() {
        chains
    } else {
        let next = followed(joints, chains, chains[head], joints.len() as int);
        proof {
            lemma_followed(joints, chains, chains[head], joints.len() as int);
        }
        if next.len() > chains.len() {
            spread(joints, next, head + 1)
        } else {
            spread(joints, chains, head + 1)
        }
    }
}

/// Whether the link is the child of some joint.
pub open spec fn is_child_link(joints: Seq<JointView>, link: Seq<char>) -> bool {
    exists|k: int| 0 <= k < joints.len() && (#[trigger] joints[k]).child == link
}

/// The chains of the root links: the identity for each link that is no joint's
/// child.
pub open spec fn root_chains(joints: Seq<JointView>, links: Seq<Seq<char>>) -> Seq<ChainView>
    decreases links.len(),
{
    if links.len() == 0 {
        Seq::empty()
    } else {
        let front = root_chains(joints, links.drop_last());
        if is_child_link(joints, links.last()) {
            front
        } else {
            with_chain(front, links.last(), Seq::empty())
        }
    }
}

/// The chains with the identity for every link that has none.
pub open spec fn completed(chains: Seq<ChainView>, links: Seq<Seq<char>>) -> Seq<ChainView>
    decreases links.len(),
{
    if links.len() == 0 {
        chains
    } else {
        with_chain(completed(chains, links.drop_last()), links.last(), Seq::empty())
    }
}

/// The chain of every link: breadth-first from the root links, and the identity
/// for links that are not reached.
pub open spec fn all_chains(joints: Seq<JointView>, links: Seq<Seq<char>>) -> Seq<ChainView> {
    completed(spread(joints, root_chains(joints, links), 0), links)
}

/// The test for named links in any namespace, the root element included.
pub open spec fn is_named_link(nodes: Seq<NodeView>, root: int) -> spec_fn(int) -> bool {
    |j: int|
        (j == root || xml::lies_below(nodes, j, root)) && xml::is_named(nodes[j], "link"@)
            && xml::attribute_of(nodes[j], "name"@) is Some
}

/// The names of the links of a parsed URDF, in document order.
pub open spec fn link_names(nodes: Seq<NodeView>) -> Seq<Seq<char>> {
    xml::select(nodes.len(), is_named_link(nodes, xml::root_of(nodes)->0)).map_values(
        |j: int| xml::attribute_of(nodes[j], "name"@)->0,
    )
}

/// The place of a link among the chains.
fn find_chain(chains: &[LinkChain], link: &str) -> (found: bool)
    ensures
        found == reached(chain_views(chains@), link@),
{
    let ghost v = chain_views(chains@);
    let mut i: usize = 0;
    while i < chains.len()
        invariant
            i <= chains@.len(),
            v == chain_views(chains@),
            forall|j: int| 0 <= j < i ==> (#[trigger] v[j]).link != link@,
        decreases chains@.len() - i,
    {
        assert(v[i as int] == chains@[i as int]@);
        if text::same(chains[i].link.as_str(), link) {
            return true;
        }
        i = i + 1;
    }
    false
}

/// Whether the link is the child of some joint.
fn child_of_joint(joints: &[Joint], link: &str) -> (found: bool)
    ensures
        found == is_child_link(joint_views(joints@), link@),
{
    let ghost v = joint_views(joints@);
    let mut i: usize = 0;
    while i < joints.len()
        invariant
            i <= joints@.len(),
            v == joint_views(joints@),
            forall|j: int| 0 <= j < i ==> (#[trigger] v[j]).child != link@,
        decreases joints@.len() - i,
    {
        assert(v[i as int] == joints@[i as int]@);
        if text::same(joints[i].child.as_str(), link) {
            return true;
        }
        i = i + 1;
    }
    false
}

/// A copy of the indices, with one more at the end.
fn extended(joints: &[usize], k: usize) -> (out: Vec<usize>)
    ensures
        xml::ints(out@) == xml::ints(joints@).push(k as int),
{
    let mut out: Vec<usize> = Vec::new();
    let mut i: usize = 0;
    while i < joints.len()
        invariant
            i <= joints@.len(),
            out@ == joints@.take(i as int),
        decreases joints@.len() - i,
    {
        out.push(joints[i]);
        i = i + 1;
        assert(out@ =~= joints@.take(i as int));
    }
    out.push(k);
    assert(xml::ints(out@) =~= xml::ints(joints@).push(k as int));
    out
}

/// Add a chain for the link, unless it has one.
fn add_chain(chains: &mut Vec<LinkChain>, link: &str, joints: Vec<usize>)
    ensures
        chain_views(final(chains)@) == with_chain(
            chain_views(old(chains)@),
            link@,
            xml::ints(joints@),
        ),
{
    let ghost before = chain_views(chains@);
    if !find_chain(chains, link) {
        let ghost js = xml::ints(joints@);
        chains.push(LinkChain { link: String::from_str(link), joints });
        assert(chain_views(chains@) =~= before.push(ChainView { link: link@, joints: js }));
    }
}

/// The chain of every link: breadth-first from the root links (links that are
/// no joint's child). Links that a joint cycle or a missing parent leaves
/// unreached get the identity.
pub fn link_chains(joints: &[Joint], links: &[String]) -> (out: Vec<LinkChain>)
    ensures
        chain_views(out@) == all_chains(joint_views(joints@), text::texts(links@)),
{
    let ghost js = joint_views(joints@);
    let ghost ls = text::texts(links@);
    let mut chains: Vec<LinkChain> = Vec::new();
    let mut i: usize = 0;
    assert(chain_views(chains@) =~= Seq::<ChainView>::empty());
    while i < links.len()
        invariant
            i <= links@.len(),
            js == joint_views(joints@),
            ls == text::texts(links@),
            chain_views(chains@) == root_chains(js, ls.take(i as int)),
        decreases links@.len() - i,
    {
        proof {
            assert(ls.take(i + 1).drop_last() =~= ls.take(i as int));
            assert(ls.take(i + 1).last() == links@[i as int]@);
        }
        if !child_of_joint(joints, links[i].as_str()) {
            let none: Vec<usize> = Vec::new();
            assert(xml::ints(none@) =~= Seq::<int>::empty());
            add_chain(&mut chains, links[i].as_str(), none);
        }
        i = i + 1;
    }
    assert(ls.take(i as int) =~= ls);
    let mut head: usize = 0;
    while head < chains.len()
        invariant
            head <= chains@.len(),
            js == joint_views(joints@),
            spread(js, root_chains(js, ls), 0) == spread(js, chain_views(chains@), head as int),
        decreases
            open_joints(js, chain_views(chains@), js.len() as int),
            chains@.len() - head,
    {
        let ghost before = chain_views(chains@);
        let ghost from = before[head as int];
        let ghost n = js.len() as int;
        let mut k: usize = 0;
        while k < joints.len()
            invariant
                k <= joints@.len(),
                head < before.len() <= chains@.len(),
                js == joint_views(joints@),
                from == before[head as int],
                chain_views(chains@) == followed(js, before, from, k as int),
            decreases joints@.len() - k,
        {
            proof {
                lemma_followed(js, before, from, k as int);
                assert(chain_views(chains@)[head as int] == chains@[head as int]@);
                assert(js[k as int] == joints@[k as int]@);
            }
            if text::same(joints[k].parent.as_str(), chains[head].link.as_str()) {
                let chain = extended(&chains[head].joints, k);
                add_chain(&mut chains, joints[k].child.as_str(), chain);
            }
            proof {
                lemma_followed(js, before, from, k + 1);
            }
            k = k + 1;
        }
        proof {
            lemma_followed(js, before, from, n);
            let next = chain_views(chains@);
            if next.len() == before.len() {
                assert(next =~= before);
            }
            lemma_open_monotone(js, before, next, n);
        }
        head = head + 1;
    }
    let ghost reached_all = chain_views(chains@);
    i = 0;
    while i < links.len()
        invariant
            i <= links@.len(),
            ls == text::texts(links@),
            chain_views(chains@) == completed(reached_all, ls.take(i as int)),
        decreases links@.len() - i,
    {
        proof {
            assert(ls.take(i + 1).drop_last() =~= ls.take(i as int));
            assert(ls.take(i + 1).last() == links@[i as int]@);
        }
        let none: Vec<usize> = Vec::new();
        assert(xml::ints(none@) =~= Seq::<int>::empty());
        add_chain(&mut chains, links[i].as_str(), none);
        i = i + 1;
    }
    assert(ls.take(i as int) =~= ls);
    chains
}

/// The names of the links of a parsed URDF, in document order.
pub fn named_links(nodes: &[XmlNode]) -> (out: Vec<String>)
    requires
        xml::root_of(xml::views(nodes@)) is Some,
    ensures
        text::texts(out@) == link_names(xml::views(nodes@)),
{
    let ghost v = xml::views(nodes@);
    let root = match xml::root_element(nodes) {
        Some(r) => r,
        None => 0,
    };
    let ghost keep = is_named_link(v, root as int);
    let ghost name = |j: int| xml::attribute_of(v[j], "name"@)->0;
    let inside = xml::below(nodes, root);
    let mut out: Vec<String> = Vec::new();
    let mut j: usize = 0;
    assert(text::texts(out@) =~= xml::select(0, keep).map_values(name));
    while j < nodes.len()
        invariant
            j <= nodes@.len(),
            v == xml::views(nodes@),
            inside@.len() == nodes@.len(),
            forall|k: int|
                0 <= k < nodes@.len() ==> #[trigger] inside@[k] == xml::lies_below(
                    v,
                    k,
                    root as int,
                ),
            keep == is_named_link(v, root as int),
            name == (|j: int| xml::attribute_of(v[j], "name"@)->0),
            text::texts(out@) == xml::select(j as nat, keep).map_values(name),
        decreases nodes@.len() - j,
    {
        let n = &nodes[j];
        proof {
            assert(v[j as int] == n@);
            reveal_strlit("link");
        }
        let ghost front = xml::select(j as nat, keep);
        let ghost seen = text::texts(out@);
        if (j == root || inside[j]) && text::same(n.name.as_str(), "link") {
            match xml::attribute(n, "name") {
                Some(x) => {
                    let ghost xv = x@;
                    out.push(x);
                    assert(text::texts(out@) =~= seen.push(xv));
                    assert(front.push(j as int).map_values(name) =~= front.map_values(name).push(
                        name(j as int),
                    ));
                },
                None => {},
            }
        }
        j = j + 1;
    }
    out
}

/// For every link of the URDF, the joints whose origins, composed in order,
/// give its world pose with all joints at zero: breadth-first from the root
/// links (links that are no joint's child). Links a joint cycle or a missing
/// parent leaves unreached get none, the identity. The indices are those of
/// [`parse_joints`].
pub fn zero_config_link_poses(urdf: &str) -> (res: Result<Vec<LinkChain>, Error>)
    ensures
        match res {
            Ok(chains) => parsed_urdf(urdf@) matches Ok(nodes) && chain_views(chains@)
                == all_chains(joints_of(nodes), link_names(nodes)),
            Err(e) => parsed_urdf(urdf@) == Err::<Seq<NodeView>, ErrorView>(e@),
        },
{
    match parse(urdf) {
        Ok(nodes) => {
            let joints = joints_of_document(&nodes);
            let links = named_links(&nodes);
            Ok(link_chains(&joints, &links))
        },
        Err(e) => Err(e),
    }
}

/// Whether the last joint of chain `i` leads to its link from the link of an
/// earlier chain, which the chain continues; a chain without joints is a root.
pub open spec fn continues(joints: Seq<JointView>, chains: Seq<ChainView>, i: int) -> bool {
    let c = chains[i];
    c.joints.len() == 0 || exists|p: int|
        0 <= p < i && 0 <= c.joints.last() < joints.len() && joints[c.joints.last()].child == c.link
            && joints[c.joints.last()].parent == (#[trigger] chains[p]).link && c.joints
            == chains[p].joints.push(c.joints.last())
}

/// Whether each link has one chain, and each chain continues an earlier one.
pub open spec fn sound(joints: Seq<JointView>, chains: Seq<ChainView>) -> bool {
    &&& forall|i: int, j: int|
        0 <= i < j < chains.len() ==> (#[trigger] chains[i]).link != (#[trigger] chains[j]).link
    &&& forall|i: int| 0 <= i < chains.len() ==> #[trigger] continues(joints, chains, i)
}

proof fn lemma_continues_prefix(
    joints: Seq<JointView>,
    a: Seq<ChainView>,
    b: Seq<ChainView>,
    i: int,
)
    requires
        0 <= i < a.len() <= b.len(),
        forall|k: int| 0 <= k < a.len() ==> a[k] == b[k],
        continues(joints, a, i),
    ensures
        continues(joints, b, i),
{
    let c = a[i];
    if c.joints.len() > 0 {
        let p = choose|p: int|
            0 <= p < i && 0 <= c.joints.last() < joints.len() && joints[c.joints.last()].child
                == c.link && joints[c.joints.last()].parent == (#[trigger] a[p]).link && c.joints
                == a[p].joints.push(c.joints.last());
        assert(b[p] == a[p]);
    }
}

proof fn lemma_root_added(joints: Seq<JointView>, chains: Seq<ChainView>, link: Seq<char>)
    requires
        sound(joints, chains),
    ensures
        sound(joints, with_chain(chains, link, Seq::empty())),
        reached(with_chain(chains, link, Seq::empty()), link),
        forall|l: Seq<char>| #[trigger]
            reached(chains, l) ==> reached(with_chain(chains, link, Seq::empty()), l),
{
    let all = with_chain(chains, link, Seq::empty());
    assert forall|i: int| 0 <= i < all.len() implies #[trigger] continues(joints, all, i) by {
        if i < chains.len() {
            assert(continues(joints, chains, i));
            lemma_continues_prefix(joints, chains, all, i);
        }
    }
    if !reached(chains, link) {
        assert(all[all.len() - 1].link == link);
        assert forall|i: int, j: int| 0 <= i < j < all.len() implies (#[trigger] all[i]).link != (
        #[trigger] all[j]).link by {
            if j == all.len() - 1 {
                assert(chains[i].link != link);
            } else {
                assert(chains[i].link != chains[j].link);
            }
        }
    }
    assert forall|l: Seq<char>| #[trigger] reached(chains, l) implies reached(all, l) by {
        let i = choose|i: int| 0 <= i < chains.len() && (#[trigger] chains[i]).link == l;
        assert(all[i].link == l);
    }
}

proof fn lemma_followed_sound(
    joints: Seq<JointView>,
    chains: Seq<ChainView>,
    head: int,
    k: int,
)
    requires
        sound(joints, chains),
        0 <= head < chains.len(),
        0 <= k <= joints.len(),
    ensures
        sound(joints, followed(joints, chains, chains[head], k)),
    decreases k,
{
    if k > 0 {
        let from = chains[head];
        lemma_followed_sound(joints, chains, head, k - 1);
        lemma_followed(joints, chains, from, k - 1);
        let front = followed(joints, chains, from, k - 1);
        let all = followed(joints, chains, from, k);
        if all.len() > front.len() {
            assert(front[head] == from);
            assert(all[head] == from);
            assert(from.joints.push(k - 1).last() == k - 1);
            assert forall|i: int| 0 <= i < all.len() implies #[trigger] continues(joints, all, i) by {
                if i < front.len() {
                    assert(continues(joints, front, i));
                    lemma_continues_prefix(joints, front, all, i);
                } else {
                    assert(all[i].joints == all[head].joints.push(k - 1));
                }
            }
            assert forall|i: int, j: int| 0 <= i < j < all.len() implies (#[trigger] all[i]).link
                != (#[trigger] all[j]).link by {
                if j == all.len() - 1 {
                    assert(front[i].link != joints[k - 1].child);
                } else {
                    assert(front[i].link != front[j].link);
                }
            }
        }
    }
}

proof fn lemma_spread_sound(joints: Seq<JointView>, chains: Seq<ChainView>, head: int)
    requires
        sound(joints, chains),
        0 <= head,
    ensures
        sound(joints, spread(joints, chains, head)),
        chains.len() <= spread(joints, chains, head).len(),
        forall|i: int|
            0 <= i < chains.len() ==> #[trigger] spread(joints, chains, head)[i] == chains[i],
    decreases open_joints(joints, chains, joints.len() as int), chains.len() - head,
{
    if head < chains.len() {
        let n = joints.len() as int;
        let next = followed(joints, chains, chains[head], n);
        lemma_followed(joints, chains, chains[head], n);
        lemma_followed_sound(joints, chains, head, n);
        if next.len() > chains.len() {
            lemma_spread_sound(joints, next, head + 1);
        } else {
            lemma_spread_sound(joints, chains, head + 1);
        }
    }
}

proof fn lemma_roots_sound(joints: Seq<JointView>, links: Seq<Seq<char>>)
    ensures
        sound(joints, root_chains(joints, links)),
        forall|i: int|
            0 <= i < root_chains(joints, links).len() ==> (#[trigger] root_chains(
                joints,
                links,
            )[i]).joints.len() == 0,
        forall|k: int|
            0 <= k < links.len() && !is_child_link(joints, links[k]) ==> reached(
                root_chains(joints, links),
                #[trigger] links[k],
            ),
    decreases links.len(),
{
    if links.len() > 0 {
        let f = links.drop_last();
        lemma_roots_sound(joints, f);
        let front = root_chains(joints, f);
        lemma_root_added(joints, front, links.last());
        assert forall|k: int| 0 <= k < links.len() && !is_child_link(joints, links[k]) implies reached(
            root_chains(joints, links),
            #[trigger] links[k],
        ) by {
            if k < f.len() {
                assert(reached(front, f[k]));
            }
        }
    }
}

proof fn lemma_completed_sound(
    joints: Seq<JointView>,
    chains: Seq<ChainView>,
    links: Seq<Seq<char>>,
)
    requires
        sound(joints, chains),
    ensures
        sound(joints, completed(chains, links)),
        chains.len() <= completed(chains, links).len(),
        forall|i: int|
            0 <= i < chains.len() ==> #[trigger] completed(chains, links)[i] == chains[i],
        forall|k: int|
            0 <= k < links.len() ==> reached(completed(chains, links), #[trigger] links[k]),
    decreases links.len(),
{
    if links.len() > 0 {
        let f = links.drop_last();
        lemma_completed_sound(joints, chains, f);
        let front = completed(chains, f);
        lemma_root_added(joints, front, links.last());
        assert forall|k: int| 0 <= k < links.len() implies reached(
            completed(chains, links),
            #[trigger] links[k],
        ) by {
            if k < f.len() {
                assert(reached(front, f[k]));
            }
        }
    }
}

/// Every link gets exactly one chain, and every chain continues that of the
/// parent link of its last joint.
pub proof fn every_link_gets_one_chain(joints: Seq<JointView>, links: Seq<Seq<char>>)
    ensures
        sound(joints, all_chains(joints, links)),
        forall|k: int|
            0 <= k < links.len() ==> reached(all_chains(joints, links), #[trigger] links[k]),
{
    lemma_roots_sound(joints, links);
    lemma_spread_sound(joints, root_chains(joints, links), 0);
    lemma_completed_sound(joints, spread(joints, root_chains(joints, links), 0), links);
}

/// A link that is no joint's child has the identity: no joint leads to it.
pub proof fn root_links_have_the_identity(joints: Seq<JointView>, links: Seq<Seq<char>>, k: int)
    requires
        0 <= k < links.len(),
        !is_child_link(joints, links[k]),
    ensures
        all_chains(joints, links).contains(ChainView { link: links[k], joints: Seq::empty() }),
{
    let roots = root_chains(joints, links);
    lemma_roots_sound(joints, links);
    lemma_spread_sound(joints, roots, 0);
    lemma_completed_sound(joints, spread(joints, roots, 0), links);
    assert(reached(roots, links[k]));
    let i = choose|i: int| 0 <= i < roots.len() && (#[trigger] roots[i]).link == links[k];
    let all = all_chains(joints, links);
    assert(spread(joints, roots, 0)[i] == roots[i]);
    assert(all[i] == roots[i]);
    assert(roots[i].joints =~= Seq::<int>::empty());
    assert(all[i] == (ChainView { link: links[k], joints: Seq::empty() }));
}

/// Whether the joints of `path`, one after the other, lead from the link `root` to
/// `link`.
pub open spec fn leads(joints: Seq<JointView>, root: Seq<char>, path: Seq<int>, link: Seq<char>) -> bool
    decreases path.len(),
{
    if path.len() == 0 {
        link == root
    } else {
        let last = path.last();
        0 <= last < joints.len() && joints[last].child == link && leads(
            joints,
            root,
            path.drop_last(),
            joints[last].parent,
        )
    }
}

/// Whether a link is one that the poses start from: it is no joint's child.
pub open spec fn is_root_link(
    joints: Seq<JointView>,
    links: Seq<Seq<char>>,
    link: Seq<char>,
) -> bool {
    links.contains(link) && !is_child_link(joints, link)
}

/// Whether the joints of a chain lead to its link from a root link.
pub open spec fn is_rooted(joints: Seq<JointView>, links: Seq<Seq<char>>, c: ChainView) -> bool {
    exists|root: Seq<char>| #[trigger]
        is_root_link(joints, links, root) && leads(joints, root, c.joints, c.link)
}

/// Whether chain `i` continues chain `q` by a joint that comes before joint `k` of
/// chain `h`: an earlier chain comes first, and of one chain an earlier joint.
pub open spec fn led(
    joints: Seq<JointView>,
    chains: Seq<ChainView>,
    i: int,
    q: int,
    h: int,
    k: int,
) -> bool {
    let c = chains[i];
    let m = c.joints.last();
    &&& 0 <= i < chains.len()
    &&& 0 <= q < chains.len()
    &&& c.joints.len() > 0
    &&& c.joints == chains[q].joints.push(m)
    &&& 0 <= m < joints.len()
    &&& joints[m].parent == chains[q].link
    &&& joints[m].child == c.link
    &&& q < h || (q == h && m < k)
}

/// Whether chain `i` continues some chain by a joint that comes before joint `k` of
/// chain `h`.
pub open spec fn is_led(
    joints: Seq<JointView>,
    chains: Seq<ChainView>,
    i: int,
    h: int,
    k: int,
) -> bool {
    exists|q: int| led(joints, chains, i, q, h, k)
}

/// Whether every chain is that of a root link or continues another, before joint `k`
/// of chain `h`.
spec fn are_led(joints: Seq<JointView>, chains: Seq<ChainView>, h: int, k: int) -> bool {
    forall|i: int|
        0 <= i < chains.len() ==> ((#[trigger] chains[i]).joints.len() == 0 && !is_child_link(
            joints,
            chains[i].link,
        )) || is_led(joints, chains, i, h, k)
}

/// Whether joint `k` of chain `p` has been followed: its child has a chain, by that joint or
/// by one that comes before it.
pub open spec fn is_served(joints: Seq<JointView>, chains: Seq<ChainView>, p: int, k: int) -> bool {
    exists|i: int|
        0 <= i < chains.len() && (#[trigger] chains[i]).link == joints[k].child && is_led(
            joints,
            chains,
            i,
            p,
            k + 1,
        )
}

/// Whether every joint before joint `k` of chain `h` has been followed.
spec fn are_served(joints: Seq<JointView>, chains: Seq<ChainView>, h: int, k: int) -> bool {
    forall|p: int, j: int|
        0 <= p < chains.len() && 0 <= j < joints.len() && joints[j].parent == chains[p].link && (p
            < h || (p == h && j < k)) ==> #[trigger] is_served(joints, chains, p, j)
}

/// Whether shorter chains come before longer ones, and none is longer than one more than
/// chain `h`.
spec fn are_by_length(chains: Seq<ChainView>, h: int) -> bool {
    &&& forall|a: int, b: int|
        0 <= a <= b < chains.len() ==> (#[trigger] chains[a]).joints.len() <= (
        #[trigger] chains[b]).joints.len()
    &&& 0 <= h < chains.len() ==> forall|a: int|
        0 <= a < chains.len() ==> (#[trigger] chains[a]).joints.len() <= chains[h].joints.len() + 1
}

/// What holds of the chains when the joints before joint `k` of chain `h` were followed.
spec fn are_followed(
    joints: Seq<JointView>,
    links: Seq<Seq<char>>,
    chains: Seq<ChainView>,
    h: int,
    k: int,
) -> bool {
    &&& are_led(joints, chains, h, k)
    &&& are_served(joints, chains, h, k)
    &&& are_by_length(chains, h)
    &&& forall|i: int| 0 <= i < chains.len() ==> is_rooted(joints, links, #[trigger] chains[i])
}

proof fn lemma_led_kept(
    joints: Seq<JointView>,
    a: Seq<ChainView>,
    b: Seq<ChainView>,
    i: int,
    q: int,
    h: int,
    k: int,
)
    requires
        a.len() <= b.len(),
        forall|x: int| 0 <= x < a.len() ==> a[x] == b[x],
        led(joints, a, i, q, h, k),
    ensures
        led(joints, b, i, q, h, k),
{
}

proof fn lemma_served_kept(
    joints: Seq<JointView>,
    a: Seq<ChainView>,
    b: Seq<ChainView>,
    p: int,
    j: int,
)
    requires
        a.len() <= b.len(),
        forall|x: int| 0 <= x < a.len() ==> a[x] == b[x],
        is_served(joints, a, p, j),
    ensures
        is_served(joints, b, p, j),
{
    let i = choose|i: int|
        0 <= i < a.len() && (#[trigger] a[i]).link == joints[j].child && is_led(
            joints,
            a,
            i,
            p,
            j + 1,
        );
    let k = j + 1;
    let q = choose|q: int| led(joints, a, i, q, p, k);
    lemma_led_kept(joints, a, b, i, q, p, j + 1);
    assert(b[i].link == joints[j].child);
}

/// Following one more joint of a chain keeps what holds.
proof fn lemma_follow_one(
    joints: Seq<JointView>,
    links: Seq<Seq<char>>,
    chains: Seq<ChainView>,
    h: int,
    k: int,
) -> (next: Seq<ChainView>)
    requires
        are_followed(joints, links, chains, h, k),
        sound(joints, chains),
        0 <= h < chains.len(),
        0 <= k < joints.len(),
    ensures
        next == (if joints[k].parent == chains[h].link {
            with_chain(chains, joints[k].child, chains[h].joints.push(k))
        } else {
            chains
        }),
        are_followed(joints, links, next, h, k + 1),
{
    let follow = joints[k].parent == chains[h].link;
    let child = joints[k].child;
    let longer = chains[h].joints.push(k);
    let next = if follow {
        with_chain(chains, child, longer)
    } else {
        chains
    };
    let added = next.len() > chains.len();
    let n = chains.len() as int;
    if added {
        assert(next[n] == (ChainView { link: child, joints: longer }));
        assert(longer.last() == k);
        assert(led(joints, next, n, h, h, k + 1));
        let root = choose|root: Seq<char>| #[trigger]
            is_root_link(joints, links, root) && leads(
                joints,
                root,
                chains[h].joints,
                chains[h].link,
            );
        assert(is_rooted(joints, links, chains[h]));
        assert(longer.drop_last() =~= chains[h].joints);
        assert(leads(joints, root, longer, child));
        assert(is_rooted(joints, links, next[n]));
    }
    assert(are_led(joints, next, h, k + 1)) by {
        assert forall|i: int| 0 <= i < next.len() implies ((#[trigger] next[i]).joints.len() == 0
            && !is_child_link(joints, next[i].link)) || is_led(joints, next, i, h, k + 1) by {
            if i < n {
                assert(next[i] == chains[i]);
                if !(chains[i].joints.len() == 0 && !is_child_link(joints, chains[i].link)) {
                    let q = choose|q: int| led(joints, chains, i, q, h, k);
                    lemma_led_kept(joints, chains, next, i, q, h, k);
                    assert(led(joints, next, i, q, h, k + 1));
                }
            }
        }
    }
    assert(are_served(joints, next, h, k + 1)) by {
        assert forall|p: int, j: int|
            0 <= p < next.len() && 0 <= j < joints.len() && joints[j].parent == next[p].link && (p
                < h || (p == h && j < k + 1)) implies #[trigger] is_served(joints, next, p, j) by {
            if p < h || j < k {
                assert(is_served(joints, chains, p, j));
                lemma_served_kept(joints, chains, next, p, j);
            } else if added {
                assert(led(joints, next, n, h, p, j + 1));
                assert(is_led(joints, next, n, p, j + 1));
            } else {
                assert(reached(chains, child));
                let i = choose|i: int| 0 <= i < chains.len() && (#[trigger] chains[i]).link == child;
                assert(is_child_link(joints, child));
                let q = choose|q: int| led(joints, chains, i, q, h, k);
                assert(led(joints, next, i, q, p, j + 1));
                assert(is_led(joints, next, i, p, j + 1) && next[i].link == child);
            }
        }
    }
    assert(are_by_length(next, h)) by {
        assert forall|a: int, b: int| 0 <= a <= b < next.len() implies (
        #[trigger] next[a]).joints.len() <= (#[trigger] next[b]).joints.len() by {
            if b < n {
                assert(chains[a].joints.len() <= chains[b].joints.len());
            } else if a < n {
                assert(chains[a].joints.len() <= chains[h].joints.len() + 1);
            }
        }
        assert forall|a: int| 0 <= a < next.len() implies (#[trigger] next[a]).joints.len()
            <= next[h].joints.len() + 1 by {
            if a < n {
                assert(chains[a].joints.len() <= chains[h].joints.len() + 1);
            }
        }
    }
    assert forall|i: int| 0 <= i < next.len() implies is_rooted(
        joints,
        links,
        #[trigger] next[i],
    ) by {
        if i < n {
            assert(next[i] == chains[i]);
        }
    }
    next
}

/// Following the joints of a chain keeps what holds.
proof fn lemma_follow_all(
    joints: Seq<JointView>,
    links: Seq<Seq<char>>,
    chains: Seq<ChainView>,
    h: int,
    k: int,
)
    requires
        are_followed(joints, links, chains, h, 0),
        sound(joints, chains),
        0 <= h < chains.len(),
        0 <= k <= joints.len(),
    ensures
        are_followed(joints, links, followed(joints, chains, chains[h], k), h, k),
    decreases k,
{
    if k > 0 {
        lemma_follow_all(joints, links, chains, h, k - 1);
        lemma_followed(joints, chains, chains[h], k - 1);
        lemma_followed_sound(joints, chains, h, k - 1);
        let front = followed(joints, chains, chains[h], k - 1);
        assert(front[h] == chains[h]);
        let next = lemma_follow_one(joints, links, front, h, k - 1);
        assert(next == followed(joints, chains, chains[h], k));
    }
}

/// When all joints of a chain were followed, the next chain is at hand.
proof fn lemma_next_chain(
    joints: Seq<JointView>,
    links: Seq<Seq<char>>,
    chains: Seq<ChainView>,
    h: int,
)
    requires
        are_followed(joints, links, chains, h, joints.len() as int),
        0 <= h < chains.len(),
    ensures
        are_followed(joints, links, chains, h + 1, 0),
{
    assert(are_led(joints, chains, h + 1, 0)) by {
        assert forall|i: int| 0 <= i < chains.len() implies ((
        #[trigger] chains[i]).joints.len() == 0 && !is_child_link(joints, chains[i].link))
            || is_led(joints, chains, i, h + 1, 0) by {
            if !(chains[i].joints.len() == 0 && !is_child_link(joints, chains[i].link)) {
                let n = joints.len() as int;
                let q = choose|q: int| led(joints, chains, i, q, h, n);
                assert(led(joints, chains, i, q, h + 1, 0));
            }
        }
    }
    assert(are_by_length(chains, h + 1)) by {
        if h + 1 < chains.len() {
            assert(chains[h].joints.len() <= chains[h + 1].joints.len());
            assert forall|a: int| 0 <= a < chains.len() implies (
            #[trigger] chains[a]).joints.len() <= chains[h + 1].joints.len() + 1 by {
                assert(chains[a].joints.len() <= chains[h].joints.len() + 1);
            }
        }
    }
}

/// What holds when every chain was gone through.
proof fn lemma_spread_followed(
    joints: Seq<JointView>,
    links: Seq<Seq<char>>,
    chains: Seq<ChainView>,
    head: int,
)
    requires
        are_followed(joints, links, chains, head, 0),
        sound(joints, chains),
        0 <= head <= chains.len(),
    ensures
        are_followed(
            joints,
            links,
            spread(joints, chains, head),
            spread(joints, chains, head).len() as int,
            0,
        ),
    decreases open_joints(joints, chains, joints.len() as int), chains.len() - head,
{
    if head < chains.len() {
        let n = joints.len() as int;
        let next = followed(joints, chains, chains[head], n);
        lemma_followed(joints, chains, chains[head], n);
        lemma_followed_sound(joints, chains, head, n);
        lemma_follow_all(joints, links, chains, head, n);
        lemma_next_chain(joints, links, next, head);
        if next.len() > chains.len() {
            lemma_spread_followed(joints, links, next, head + 1);
        } else {
            assert(next =~= chains);
            lemma_spread_followed(joints, links, chains, head + 1);
        }
    }
}

proof fn lemma_root_chains_are_roots(joints: Seq<JointView>, links: Seq<Seq<char>>)
    ensures
        forall|i: int|
            0 <= i < root_chains(joints, links).len() ==> is_root_link(
                joints,
                links,
                (#[trigger] root_chains(joints, links)[i]).link,
            ) && root_chains(joints, links)[i].joints.len() == 0,
    decreases links.len(),
{
    if links.len() > 0 {
        let f = links.drop_last();
        lemma_root_chains_are_roots(joints, f);
        let front = root_chains(joints, f);
        let all = root_chains(joints, links);
        assert forall|i: int| 0 <= i < all.len() implies is_root_link(
            joints,
            links,
            (#[trigger] all[i]).link,
        ) && all[i].joints.len() == 0 by {
            if i < front.len() {
                assert(all[i] == front[i]);
                let x = front[i].link;
                let k = choose|k: int| 0 <= k < f.len() && f[k] == x;
                assert(links[k] == x);
            } else {
                assert(links[links.len() - 1] == all[i].link);
            }
        }
    }
}

/// What holds of the chains that joints lead to, and that the others have no joints.
proof fn lemma_all_followed(joints: Seq<JointView>, links: Seq<Seq<char>>) -> (n: int)
    ensures
        0 <= n <= all_chains(joints, links).len(),
        are_followed(joints, links, all_chains(joints, links).take(n), n, 0),
        forall|i: int|
            n <= i < all_chains(joints, links).len() ==> (#[trigger] all_chains(
                joints,
                links,
            )[i]).joints.len() == 0 && is_child_link(joints, all_chains(joints, links)[i].link),
        sound(joints, all_chains(joints, links)),
{
    let roots = root_chains(joints, links);
    let reached_all = spread(joints, roots, 0);
    let all = all_chains(joints, links);
    lemma_roots_sound(joints, links);
    lemma_root_chains_are_roots(joints, links);
    assert forall|i: int| 0 <= i < roots.len() implies is_rooted(
        joints,
        links,
        #[trigger] roots[i],
    ) by {
        assert(is_root_link(joints, links, roots[i].link));
        assert(leads(joints, roots[i].link, roots[i].joints, roots[i].link));
    }
    assert(are_followed(joints, links, roots, 0, 0));
    lemma_spread_followed(joints, links, roots, 0);
    lemma_spread_sound(joints, roots, 0);
    lemma_completed_sound(joints, reached_all, links);
    lemma_completed_rest(joints, reached_all, links);
    let n = reached_all.len() as int;
    assert(all.take(n) =~= reached_all);
    assert forall|i: int| n <= i < all.len() implies (#[trigger] all[i]).joints.len() == 0
        && is_child_link(joints, all[i].link) by {
        let l = all[i].link;
        if !is_child_link(joints, l) {
            let k = choose|k: int| 0 <= k < links.len() && links[k] == l;
            assert(reached(roots, links[k]));
            let r = choose|r: int| 0 <= r < roots.len() && (#[trigger] roots[r]).link == l;
            assert(reached_all[r] == roots[r]);
            assert(all[r] == roots[r]);
            assert(all[r].link != all[i].link);
        }
    }
    n
}

/// The chains that are added for links that no joints lead to have no joints.
proof fn lemma_completed_rest(
    joints: Seq<JointView>,
    chains: Seq<ChainView>,
    links: Seq<Seq<char>>,
)
    requires
        sound(joints, chains),
    ensures
        forall|i: int|
            chains.len() <= i < completed(chains, links).len() ==> (#[trigger] completed(
                chains,
                links,
            )[i]).joints.len() == 0 && links.contains(completed(chains, links)[i].link),
    decreases links.len(),
{
    if links.len() > 0 {
        let f = links.drop_last();
        lemma_completed_rest(joints, chains, f);
        let front = completed(chains, f);
        let all = completed(chains, links);
        assert forall|i: int| chains.len() <= i < all.len() implies (
        #[trigger] all[i]).joints.len() == 0 && links.contains(all[i].link) by {
            if i < front.len() {
                assert(all[i] == front[i]);
                let k = choose|k: int| 0 <= k < f.len() && f[k] == front[i].link;
                assert(links[k] == all[i].link);
            } else {
                assert(links[links.len() - 1] == all[i].link);
            }
        }
    }
}

/// The joints of a chain lead to its link from a root link, one after the other.
pub proof fn chains_lead_from_a_root(joints: Seq<JointView>, links: Seq<Seq<char>>, i: int)
    requires
        0 <= i < all_chains(joints, links).len(),
        all_chains(joints, links)[i].joints.len() > 0,
    ensures
        is_rooted(joints, links, all_chains(joints, links)[i]),
{
    let n = lemma_all_followed(joints, links);
    let all = all_chains(joints, links);
    assert(i < n);
    assert(all.take(n)[i] == all[i]);
}

/// A link that joints lead to from a root link has a chain with joints, and none of the
/// ways that lead to it is shorter.
pub proof fn links_that_joints_lead_to_are_reached(
    joints: Seq<JointView>,
    links: Seq<Seq<char>>,
    root: Seq<char>,
    path: Seq<int>,
    link: Seq<char>,
)
    requires
        is_root_link(joints, links, root),
        leads(joints, root, path, link),
    ensures
        exists|i: int|
            0 <= i < all_chains(joints, links).len() && (#[trigger] all_chains(
                joints,
                links,
            )[i]).link == link && all_chains(joints, links)[i].joints.len() <= path.len() && (
            path.len() > 0 ==> all_chains(joints, links)[i].joints.len() > 0),
{
    let n = lemma_all_followed(joints, links);
    let all = all_chains(joints, links);
    let i = lemma_reached_by_path(joints, links, all.take(n), root, path, link);
    assert(all[i] == all.take(n)[i]);
}

proof fn lemma_reached_by_path(
    joints: Seq<JointView>,
    links: Seq<Seq<char>>,
    chains: Seq<ChainView>,
    root: Seq<char>,
    path: Seq<int>,
    link: Seq<char>,
) -> (i: int)
    requires
        is_root_link(joints, links, root),
        leads(joints, root, path, link),
        exists|n: int|
            0 <= n <= all_chains(joints, links).len() && chains == #[trigger] all_chains(
                joints,
                links,
            ).take(n) && forall|i: int|
                n <= i < all_chains(joints, links).len() ==> (#[trigger] all_chains(
                    joints,
                    links,
                )[i]).joints.len() == 0 && is_child_link(joints, all_chains(joints, links)[i].link),
        are_followed(joints, links, chains, chains.len() as int, 0),
    ensures
        0 <= i < chains.len(),
        chains[i].link == link,
        chains[i].joints.len() <= path.len(),
        path.len() > 0 ==> chains[i].joints.len() > 0,
    decreases path.len(),
{
    let all = all_chains(joints, links);
    if path.len() == 0 {
        let k = choose|k: int| 0 <= k < links.len() && links[k] == root;
        root_links_have_the_identity(joints, links, k);
        let c = ChainView { link: links[k], joints: Seq::empty() };
        let i = choose|i: int| 0 <= i < all.len() && all[i] == c;
        assert(i < chains.len());
        assert(chains[i] == all[i]);
        i
    } else {
        let j = path.last();
        let p = lemma_reached_by_path(
            joints,
            links,
            chains,
            root,
            path.drop_last(),
            joints[j].parent,
        );
        assert(is_served(joints, chains, p, j));
        let i = choose|i: int|
            0 <= i < chains.len() && (#[trigger] chains[i]).link == joints[j].child && is_led(
                joints,
                chains,
                i,
                p,
                j + 1,
            );
        let k = j + 1;
        let q = choose|q: int| led(joints, chains, i, q, p, k);
        assert(chains[q].joints.len() <= chains[p].joints.len());
        i
    }
}

/// Where several joints lead to a link, the first one gives its pose: that of the parent
/// link that was reached first, and of one parent link the first in the document.
pub proof fn the_first_joint_gives_the_pose(
    joints: Seq<JointView>,
    links: Seq<Seq<char>>,
    p: int,
    k: int,
)
    requires
        0 <= p < all_chains(joints, links).len(),
        0 <= k < joints.len(),
        joints[k].parent == all_chains(joints, links)[p].link,
        all_chains(joints, links)[p].joints.len() > 0 || !is_child_link(joints, joints[k].parent),
    ensures
        is_served(joints, all_chains(joints, links), p, k),
{
    let n = lemma_all_followed(joints, links);
    let all = all_chains(joints, links);
    let some = all.take(n);
    assert(p < n);
    assert(some[p] == all[p]);
    assert(is_served(joints, some, p, k));
    lemma_served_kept(joints, some, all, p, k);
}

/// A joint says what its element says: its name and its type, the links that it joins, and
/// where and how its child is held.
pub proof fn joints_are_taken_as_written(
    nodes: Seq<NodeView>,
    j: int,
    a: int,
    b: int,
    parent: Seq<char>,
    child: Seq<char>,
    name: Seq<char>,
    kind: Seq<char>,
)
    requires
        xml::child_of(nodes, j, "parent"@) == Some(a),
        xml::child_of(nodes, j, "child"@) == Some(b),
        xml::attribute_of(nodes[a], "link"@) == Some(parent),
        xml::attribute_of(nodes[b], "link"@) == Some(child),
        xml::attribute_of(nodes[j], "name"@) == Some(name),
        xml::attribute_of(nodes[j], "type"@) == Some(kind),
    ensures
        joint_at(nodes, j) matches Some(v) && v.parent == parent && v.child == child && v.name == name
            && v.kind == kind && v.xyz == inspect::origin_part(
            nodes,
            xml::child_of(nodes, j, "origin"@),
            "xyz"@,
        ) && v.rpy == inspect::origin_part(nodes, xml::child_of(nodes, j, "origin"@), "rpy"@),
{
}

/// A joint without a parent link or without a child link joins nothing.
pub proof fn joints_without_links_are_left_out(nodes: Seq<NodeView>, j: int, c: int)
    ensures
        xml::child_of(nodes, j, "parent"@) is None ==> joint_at(nodes, j) is None,
        xml::child_of(nodes, j, "child"@) is None ==> joint_at(nodes, j) is None,
        xml::child_of(nodes, j, "parent"@) == Some(c) && xml::attribute_of(
            nodes[c],
            "link"@,
        ) is None ==> joint_at(nodes, j) is None,
        xml::child_of(nodes, j, "child"@) == Some(c) && xml::attribute_of(
            nodes[c],
            "link"@,
        ) is None ==> joint_at(nodes, j) is None,
{
}

/// The test for nodes that are joints between two links.
pub open spec fn is_joint(nodes: Seq<NodeView>) -> spec_fn(int) -> bool {
    |j: int| joint_at(nodes, j) is Some
}

/// Every `joint` element of the root that joins two links is a joint, in document order, and
/// there are no others.
pub proof fn joints_are_those_of_the_root(nodes: Seq<NodeView>, root: int)
    requires
        xml::root_of(nodes) == Some(root),
    ensures
        joints_of(nodes) == xml::children_of(nodes, root, "joint"@).filter(
            is_joint(nodes),
        ).map_values(|j: int| joint_at(nodes, j)->0),
{
    lemma_joints_at(nodes, xml::children_of(nodes, root, "joint"@));
}

proof fn lemma_joints_at(nodes: Seq<NodeView>, at: Seq<int>)
    ensures
        joints_at(nodes, at) == at.filter(is_joint(nodes)).map_values(
            |j: int| joint_at(nodes, j)->0,
        ),
    decreases at.len(),
{
    reveal(Seq::filter);
    let f = |j: int| joint_at(nodes, j)->0;
    if at.len() == 0 {
        assert(joints_at(nodes, at) =~= at.filter(is_joint(nodes)).map_values(f));
    } else {
        lemma_joints_at(nodes, at.drop_last());
        let front = at.drop_last().filter(is_joint(nodes));
        assert(front.push(at.last()).map_values(f) =~= front.map_values(f).push(f(at.last())));
    }
}

/// Every named `link` element below the root is a link, and there are no others.
pub proof fn link_names_are_those_of_links(nodes: Seq<NodeView>, root: int, name: Seq<char>)
    requires
        xml::root_of(nodes) == Some(root),
    ensures
        link_names(nodes).contains(name) <==> exists|j: int|
            0 <= j < nodes.len() && (j == root || xml::lies_below(nodes, j, root)) && is_element_of(
                #[trigger] nodes[j],
                "link"@,
            ) && xml::attribute_of(nodes[j], "name"@) == Some(name),
{
    let keep = is_named_link(nodes, root);
    let f = |j: int| xml::attribute_of(nodes[j], "name"@)->0;
    xml::lemma_select(nodes.len(), keep);
    let got = xml::select(nodes.len(), keep);
    let names = link_names(nodes);
    if names.contains(name) {
        let k = choose|k: int| 0 <= k < names.len() && names[k] == name;
        assert(got.contains(got[k]));
        assert(keep(got[k]));
        assert(nodes[got[k]] == nodes[got[k]]);
    }
    if exists|j: int|
        0 <= j < nodes.len() && (j == root || xml::lies_below(nodes, j, root)) && is_element_of(
            #[trigger] nodes[j],
            "link"@,
        ) && xml::attribute_of(nodes[j], "name"@) == Some(name) {
        let j = choose|j: int|
            0 <= j < nodes.len() && (j == root || xml::lies_below(nodes, j, root)) && is_element_of(
                #[trigger] nodes[j],
                "link"@,
            ) && xml::attribute_of(nodes[j], "name"@) == Some(name);
        assert(keep(j));
        assert(got.contains(j));
        let k = choose|k: int| 0 <= k < got.len() && got[k] == j;
        assert(names[k] == name);
    }
}

/// Whether a node is an element with the name `tag`.
pub open spec fn is_element_of(n: NodeView, tag: Seq<char>) -> bool {
    xml::is_element(n) && n.name == tag
}

} // verus!
