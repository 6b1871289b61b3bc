//! What a rewrite takes out of a URDF, and that everything else stays as it was.

use vstd::prelude::*;

use crate::assemble;
use crate::assemble::{EditView, Scene, SphereView};
use crate::inspect::ItemView;
use crate::sphere_links;
use crate::text;
use crate::xml;
use crate::xml::NodeView;
use crate::ErrorView;

verus! {

/// The text that an escaped text stands for.
pub open spec fn unescaped(t: Seq<char>) -> Seq<char>
    decreases t.len(),
{
    if t.len() == 0 {
        Seq::empty()
    } else if t.len() >= 5 && t.subrange(0, 5) == seq!['&', 'a', 'm', 'p', ';'] {
        seq!['&'] + unescaped(t.skip(5))
    } else if t.len() >= 4 && t.subrange(0, 4) == seq!['&', 'l', 't', ';'] {
        seq!['<'] + unescaped(t.skip(4))
    } else if t.len() >= 4 && t.subrange(0, 4) == seq!['&', 'g', 't', ';'] {
        seq!['>'] + unescaped(t.skip(4))
    } else if t.len() >= 6 && t.subrange(0, 6) == seq!['&', 'q', 'u', 'o', 't', ';'] {
        seq!['"'] + unescaped(t.skip(6))
    } else {
        seq![t[0]] + unescaped(t.skip(1))
    }
}

proof fn lemma_escaped_concat(a: Seq<char>, b: Seq<char>)
    ensures
        assemble::escaped(a + b) == assemble::escaped(a) + assemble::escaped(b),
    decreases b.len(),
{
    let f = |c: char| assemble::escaped_char(c);
    if b.len() == 0 {
        assert(a + b =~= a);
        assert(b.flat_map(f) =~= Seq::<char>::empty());
        assert(assemble::escaped(a) + assemble::escaped(b) =~= assemble::escaped(a));
    } else {
        let g = b.drop_last();
        lemma_escaped_concat(a, g);
        assert(a + b =~= (a + g).push(b.last()));
        assert(b =~= g.push(b.last()));
        (a + g).lemma_flat_map_push(f, b.last());
        g.lemma_flat_map_push(f, b.last());
        assert(assemble::escaped(a + b) =~= assemble::escaped(a) + assemble::escaped(b));
    }
}

/// Reading an escaped text gives the text back.
pub proof fn escaped_text_is_read_back(s: Seq<char>)
    ensures
        unescaped(assemble::escaped(s)) == s,
    decreases s.len(),
{
    let f = |c: char| assemble::escaped_char(c);
    if s.len() == 0 {
        assert(s.flat_map(f) =~= Seq::<char>::empty());
        assert(unescaped(assemble::escaped(s)) =~= s);
    } else {
        let c = s[0];
        let rest = s.skip(1);
        escaped_text_is_read_back(rest);
        assert(seq![c] + rest =~= s);
        lemma_escaped_concat(seq![c], rest);
        Seq::<char>::empty().lemma_flat_map_push(f, c);
        assert(Seq::<char>::empty().push(c) =~= seq![c]);
        assert(Seq::<char>::empty().flat_map(f) =~= Seq::<char>::empty());
        let x = assemble::escaped_char(c);
        assert(assemble::escaped(seq![c]) =~= x);
        let r = assemble::escaped(rest);
        let t = x + r;
        assert(t.skip(x.len() as int) =~= r);
        reveal_strlit("&amp;");
        reveal_strlit("&lt;");
        reveal_strlit("&gt;");
        reveal_strlit("&quot;");
        if c == '&' {
            assert(t.subrange(0, 5) =~= seq!['&', 'a', 'm', 'p', ';']);
        } else if c == '<' {
            assert(t.subrange(0, 4) =~= seq!['&', 'l', 't', ';']);
            if t.len() >= 5 {
                assert(t.subrange(0, 5)[1] == 'l');
            }
        } else if c == '>' {
            assert(t.subrange(0, 4) =~= seq!['&', 'g', 't', ';']);
            if t.len() >= 5 {
                assert(t.subrange(0, 5)[1] == 'g');
            }
        } else if c == '"' {
            assert(t.subrange(0, 6) =~= seq!['&', 'q', 'u', 'o', 't', ';']);
            assert(t.subrange(0, 5)[1] == 'q');
            assert(t.subrange(0, 4)[1] == 'q');
        } else {
            assert(t[0] == c);
            if t.len() >= 5 {
                assert(t.subrange(0, 5)[0] == c);
            }
            if t.len() >= 4 {
                assert(t.subrange(0, 4)[0] == c);
            }
            if t.len() >= 6 {
                assert(t.subrange(0, 6)[0] == c);
            }
        }
        assert(unescaped(t) =~= seq![c] + rest);
    }
}

/// A cut takes the whole line of an element that has it for itself, and the element alone
/// where it shares its line.
pub proof fn cuts_take_whole_lines(s: Seq<char>, from: int, start: int, end: int, to: int)
    requires
        0 <= from <= start <= end <= to <= s.len(),
        from == 0 || s[from - 1] == '\n',
        forall|i: int| from <= i < start ==> s[i] != '\n',
        to == s.len() && (forall|i: int| end <= i < to ==> s[i] != '\n') || to > end && s[to - 1]
            == '\n' && (forall|i: int| end <= i < to - 1 ==> s[i] != '\n'),
    ensures
        assemble::is_blank(s.subrange(from, start)) && assemble::is_blank(s.subrange(end, to))
            ==> assemble::cut_at(s, start, end) == (from, to),
        !(assemble::is_blank(s.subrange(from, start)) && assemble::is_blank(s.subrange(end, to)))
            ==> assemble::cut_at(s, start, end) == (start, end),
{
    text::lemma_last_char(s, '\n', start);
    text::lemma_first_char(s, '\n', end);
    assert(assemble::line_start(s, start) == from) by {
        match text::last_char(s, '\n', start) {
            Some(i) => {
                if i >= from {
                    assert(s[i] != '\n');
                }
            },
            None => {
                if from > 0 {
                    assert(s[from - 1] == '\n');
                }
            },
        }
    }
    assert(assemble::line_end(s, end) == to) by {
        match text::first_char(s, '\n', end) {
            Some(i) => {
                if i < to - 1 {
                    assert(s[i] != '\n');
                }
            },
            None => {},
        }
    }
}

/// Whether one of the cuts takes position `i`.
pub open spec fn is_cut(cuts: Seq<(int, int)>, i: int) -> bool {
    exists|k: int| 0 <= k < cuts.len() && (#[trigger] cuts[k]).0 <= i < cuts[k].1
}

/// The test for positions that no cut takes.
pub open spec fn is_kept(cuts: Seq<(int, int)>) -> spec_fn(int) -> bool {
    |i: int| !is_cut(cuts, i)
}

/// The characters before position `n` that no cut takes, in their order.
pub open spec fn kept_before(s: Seq<char>, cuts: Seq<(int, int)>, n: nat) -> Seq<char> {
    xml::select(n, is_kept(cuts)).map_values(|i: int| s[i])
}

/// Whether every cut ends where or after it starts.
pub open spec fn are_ranges(cuts: Seq<(int, int)>) -> bool {
    forall|k: int| 0 <= k < cuts.len() ==> 0 <= (#[trigger] cuts[k]).0 <= cuts[k].1
}

proof fn lemma_keep_range(s: Seq<char>, cuts: Seq<(int, int)>, a: nat, b: nat)
    requires
        a <= b <= s.len(),
        forall|i: int| a <= i < b ==> !is_cut(cuts, i),
    ensures
        kept_before(s, cuts, b) == kept_before(s, cuts, a) + s.subrange(a as int, b as int),
    decreases b - a,
{
    let f = |i: int| s[i];
    if a == b {
        assert(s.subrange(a as int, b as int) =~= Seq::<char>::empty());
        assert(kept_before(s, cuts, a) + s.subrange(a as int, b as int) =~= kept_before(s, cuts, a));
    } else {
        let c = (b - 1) as nat;
        lemma_keep_range(s, cuts, a, c);
        assert(is_kept(cuts)(c as int));
        let front = xml::select(c, is_kept(cuts));
        assert(front.push(c as int).map_values(f) =~= front.map_values(f).push(s[c as int]));
        assert(s.subrange(a as int, b as int) =~= s.subrange(a as int, c as int).push(s[c as int]));
        assert(kept_before(s, cuts, b) =~= kept_before(s, cuts, a) + s.subrange(a as int, b as int));
    }
}

proof fn lemma_drop_range(s: Seq<char>, cuts: Seq<(int, int)>, a: nat, b: nat)
    requires
        a <= b,
        forall|i: int| a <= i < b ==> is_cut(cuts, i),
    ensures
        kept_before(s, cuts, b) == kept_before(s, cuts, a),
    decreases b - a,
{
    if a < b {
        lemma_drop_range(s, cuts, a, (b - 1) as nat);
        assert(!is_kept(cuts)(b - 1));
    }
}

/// Cuts that are apart follow each other.
proof fn lemma_apart(s: Seq<char>, cuts: Seq<(int, int)>)
    requires
        assemble::cuts_apart(s, cuts),
        are_ranges(cuts),
    ensures
        forall|i: int, j: int|
            0 <= i < j < cuts.len() ==> (#[trigger] cuts[i]).1 <= (#[trigger] cuts[j]).0,
        forall|i: int| 0 <= i < cuts.len() ==> (#[trigger] cuts[i]).1 <= s.len(),
    decreases cuts.len(),
{
    if cuts.len() > 0 {
        let f = cuts.drop_last();
        assert forall|k: int| 0 <= k < f.len() implies 0 <= (#[trigger] f[k]).0 <= f[k].1 by {
            assert(f[k] == cuts[k]);
        }
        lemma_apart(s, f);
        assert forall|i: int, j: int| 0 <= i < j < cuts.len() implies (#[trigger] cuts[i]).1 <= (
        #[trigger] cuts[j]).0 by {
            if j < f.len() {
                assert(f[i].1 <= f[j].0);
            } else {
                let m = f.len() - 1;
                if i < m {
                    assert(f[i].1 <= f[m].0);
                    assert(f[m].0 <= f[m].1);
                }
                assert(f[m].1 <= cuts.last().0);
            }
        }
        assert forall|i: int| 0 <= i < cuts.len() implies (#[trigger] cuts[i]).1 <= s.len() by {
            if i < f.len() {
                assert(f[i].1 <= s.len());
            }
        }
    }
}

/// What is kept up to the end of cut `n`.
proof fn lemma_kept(s: Seq<char>, cuts: Seq<(int, int)>, n: int)
    requires
        0 <= n <= cuts.len(),
        assemble::cuts_apart(s, cuts),
        are_ranges(cuts),
    ensures
        0 <= assemble::cut_end(cuts.take(n)) <= s.len(),
        assemble::kept(s, cuts.take(n)) == kept_before(
            s,
            cuts,
            assemble::cut_end(cuts.take(n)) as nat,
        ),
    decreases n,
{
    lemma_apart(s, cuts);
    if n == 0 {
        assert(kept_before(s, cuts, 0) =~= Seq::<char>::empty());
    } else {
        lemma_kept(s, cuts, n - 1);
        let front = cuts.take(n - 1);
        let all = cuts.take(n);
        assert(all.drop_last() =~= front);
        let (a, b) = cuts[n - 1];
        assert(all.last() == (a, b));
        let p = assemble::cut_end(front);
        assert(p <= a) by {
            if n > 1 {
                assert(front.last() == cuts[n - 2]);
                assert(cuts[n - 2].1 <= cuts[n - 1].0);
            }
        }
        assert forall|i: int| p <= i < a implies !is_cut(cuts, i) by {
            if is_cut(cuts, i) {
                let k = choose|k: int| 0 <= k < cuts.len() && (#[trigger] cuts[k]).0 <= i < cuts[k].1;
                if k < n - 2 {
                    assert(cuts[k].1 <= cuts[n - 2].0);
                    assert(cuts[n - 2].0 <= cuts[n - 2].1);
                    assert(front.last() == cuts[n - 2]);
                } else if k == n - 2 {
                    assert(front.last() == cuts[n - 2]);
                } else if k > n - 1 {
                    assert(cuts[n - 1].1 <= cuts[k].0);
                }
            }
        }
        assert(b <= s.len());
        lemma_keep_range(s, cuts, p as nat, a as nat);
        assert forall|i: int| a <= i < b implies is_cut(cuts, i) by {
            assert(cuts[n - 1].0 <= i < cuts[n - 1].1);
        }
        lemma_drop_range(s, cuts, a as nat, b as nat);
    }
}

proof fn lemma_insert_cut(v: Seq<(int, int)>, x: (int, int), y: (int, int))
    ensures
        assemble::insert_cut(v, x).contains(y) <==> v.contains(y) || x == y,
    decreases v.len(),
{
    let all = assemble::insert_cut(v, x);
    if v.len() == 0 || v.last().0 <= x.0 {
        assert(all[v.len() as int] == x);
        if v.contains(y) {
            let i = choose|i: int| 0 <= i < v.len() && v[i] == y;
            assert(all[i] == y);
        }
    } else {
        let f = v.drop_last();
        lemma_insert_cut(f, x, y);
        let g = assemble::insert_cut(f, x);
        assert(all == g.push(v.last()));
        assert(all[g.len() as int] == v.last());
        assert(v[v.len() - 1] == v.last());
        if g.contains(y) {
            let i = choose|i: int| 0 <= i < g.len() && g[i] == y;
            assert(all[i] == y);
        }
        if f.contains(y) {
            let i = choose|i: int| 0 <= i < f.len() && f[i] == y;
            assert(v[i] == y);
        }
        if v.contains(y) && y != v.last() {
            let i = choose|i: int| 0 <= i < v.len() && v[i] == y;
            assert(f[i] == y);
        }
        if all.contains(y) && y != v.last() {
            let i = choose|i: int| 0 <= i < all.len() && all[i] == y;
            assert(g[i] == y);
        }
    }
}

/// Sorting the cuts keeps each of them and adds none.
pub proof fn sorting_keeps_the_cuts(cuts: Seq<(int, int)>)
    ensures
        assemble::sorted_cuts(cuts).len() == cuts.len(),
        forall|x: (int, int)| #[trigger]
            assemble::sorted_cuts(cuts).contains(x) <==> cuts.contains(x),
    decreases cuts.len(),
{
    if cuts.len() > 0 {
        let f = cuts.drop_last();
        sorting_keeps_the_cuts(f);
        let front = assemble::sorted_cuts(f);
        let all = assemble::sorted_cuts(cuts);
        lemma_insert_len(front, cuts.last());
        assert forall|y: (int, int)| #[trigger] all.contains(y) <==> cuts.contains(y) by {
            lemma_insert_cut(front, cuts.last(), y);
            assert(cuts[cuts.len() - 1] == cuts.last());
            if f.contains(y) {
                let i = choose|i: int| 0 <= i < f.len() && f[i] == y;
                assert(cuts[i] == y);
            }
            if cuts.contains(y) && y != cuts.last() {
                let i = choose|i: int| 0 <= i < cuts.len() && cuts[i] == y;
                assert(f[i] == y);
            }
        }
    }
}

proof fn lemma_insert_len(v: Seq<(int, int)>, x: (int, int))
    ensures
        assemble::insert_cut(v, x).len() == v.len() + 1,
    decreases v.len(),
{
    if !(v.len() == 0 || v.last().0 <= x.0) {
        lemma_insert_len(v.drop_last(), x);
    }
}

proof fn lemma_same_cuts(a: Seq<(int, int)>, b: Seq<(int, int)>)
    requires
        forall|x: (int, int)| #[trigger] a.contains(x) <==> b.contains(x),
    ensures
        is_kept(a) == is_kept(b),
{
    assert forall|i: int| is_cut(a, i) == is_cut(b, i) by {
        if is_cut(a, i) {
            let k = choose|k: int| 0 <= k < a.len() && (#[trigger] a[k]).0 <= i < a[k].1;
            assert(a.contains(a[k]));
            assert(b.contains(a[k]));
            let m = choose|m: int| 0 <= m < b.len() && b[m] == a[k];
            assert(b[m].0 <= i < b[m].1);
        }
        if is_cut(b, i) {
            let k = choose|k: int| 0 <= k < b.len() && (#[trigger] b[k]).0 <= i < b[k].1;
            assert(b.contains(b[k]));
            assert(a.contains(b[k]));
            let m = choose|m: int| 0 <= m < a.len() && a[m] == b[k];
            assert(a[m].0 <= i < a[m].1);
        }
    }
    assert(is_kept(a) =~= is_kept(b));
}

/// A rewrite takes nothing out of the text but its cuts: every other character stays, in its
/// order, with the new links and joints before the root's end tag.
pub proof fn everything_but_the_cuts_stays(s: Seq<char>, root: NodeView, e: EditView)
    requires
        assemble::can_assemble(s, root, e),
        are_ranges(e.cuts),
        !assemble::closes_itself(s, root),
        e.links.len() + e.joints.len() > 0,
        assemble::insert_point(s, root)->0 <= s.len(),
    ensures
        ({
            let at = assemble::insert_point(s, root)->0;
            let before = assemble::declaration(s) + kept_before(s, e.cuts, at as nat);
            let t = assemble::assembled(s, root, e);
            ||| t == before + e.links + e.joints + s.skip(at)
            ||| t == before + seq!['\n'] + e.links + e.joints + s.skip(at)
        }),
{
    let cuts = assemble::sorted_cuts(e.cuts);
    let at = assemble::insert_point(s, root)->0;
    sorting_keeps_the_cuts(e.cuts);
    assert forall|k: int| 0 <= k < cuts.len() implies 0 <= (#[trigger] cuts[k]).0 <= cuts[k].1 by {
        assert(cuts.contains(cuts[k]));
        let m = choose|m: int| 0 <= m < e.cuts.len() && e.cuts[m] == cuts[k];
        assert(0 <= e.cuts[m].0 <= e.cuts[m].1);
    }
    let n = cuts.len() as int;
    lemma_kept(s, cuts, n);
    assert(cuts.take(n) =~= cuts);
    lemma_apart(s, cuts);
    let p = assemble::cut_end(cuts);
    assert forall|i: int| p <= i < at implies !is_cut(cuts, i) by {
        if is_cut(cuts, i) {
            let k = choose|k: int| 0 <= k < cuts.len() && (#[trigger] cuts[k]).0 <= i < cuts[k].1;
            if k < n - 1 {
                assert(cuts[k].1 <= cuts[n - 1].0);
                assert(cuts[n - 1].0 <= cuts[n - 1].1);
            }
        }
    }
    lemma_keep_range(s, cuts, p as nat, at as nat);
    lemma_same_cuts(cuts, e.cuts);
    let d = assemble::declaration(s);
    let body = d + assemble::kept(s, cuts) + s.subrange(p, at);
    assert(body =~= d + kept_before(s, e.cuts, at as nat));
    let t = assemble::assembled(s, root, e);
    if body.len() == 0 || body.last() != '\n' {
        assert(t =~= body + seq!['\n'] + e.links + e.joints + s.skip(at));
    } else {
        assert(t =~= body + e.links + e.joints + s.skip(at));
    }
}

/// Whether an item takes its collision out of the text.
pub open spec fn takes_out(scene: Scene, link: Seq<char>, item: ItemView) -> bool {
    ||| item.action is RemovePrimitive
    ||| item.action is RemoveAlreadySphere
    ||| item.action is Pack && ((scene.found)(link, item.collision_index) matches Ok(Some(_)))
}

/// The range that is taken out for the collision at node `c`.
pub open spec fn range_of(scene: Scene, c: int) -> (int, int) {
    let (a, b) = assemble::span_of(scene.s, scene.nodes[c]);
    assemble::cut_at(scene.s, a, b)
}

proof fn lemma_items_cut(
    scene: Scene,
    e: EditView,
    link: Seq<char>,
    colls: Seq<int>,
    items: Seq<ItemView>,
    item: ItemView,
)
    requires
        items.contains(item),
        0 <= item.collision_index < colls.len(),
        takes_out(scene, link, item),
    ensures
        assemble::with_items(scene, e, link, colls, items) matches Ok(m) ==> m.cuts.contains(
            range_of(scene, colls[item.collision_index]),
        ),
    decreases items.len(),
{
    let f = items.drop_last();
    let cut = range_of(scene, colls[item.collision_index]);
    if let Ok(m) = assemble::with_items(scene, e, link, colls, f) {
        if let Ok(x) = assemble::with_item(scene, m, link, colls, items.last()) {
            if items.last() == item {
                assert(x.cuts == m.cuts.push(cut));
                assert(x.cuts[m.cuts.len() as int] == cut);
            } else {
                let i = choose|i: int| 0 <= i < items.len() && items[i] == item;
                assert(f[i] == item);
                assert(f.contains(item));
                lemma_items_cut(scene, e, link, colls, f, item);
                let k = choose|k: int| 0 <= k < m.cuts.len() && m.cuts[k] == cut;
                assert(x.cuts[k] == cut);
            }
        }
    }
}

proof fn lemma_groups_cut(
    scene: Scene,
    e: EditView,
    links: Seq<int>,
    items: Seq<ItemView>,
    names: Seq<Seq<char>>,
    item: ItemView,
    l: int,
)
    requires
        items.contains(item),
        names.contains(item.link_name),
        assemble::link_named(scene.nodes, links, item.link_name, 0) == Some(l),
        0 <= item.collision_index < xml::children_of(scene.nodes, l, "collision"@).len(),
        takes_out(scene, item.link_name, item),
    ensures
        assemble::with_groups(scene, e, links, items, names) matches Ok(m) ==> m.cuts.contains(
            range_of(
                scene,
                xml::children_of(scene.nodes, l, "collision"@)[item.collision_index],
            ),
        ),
    decreases names.len(),
{
    let f = names.drop_last();
    let name = item.link_name;
    let colls = xml::children_of(scene.nodes, l, "collision"@);
    let cut = range_of(scene, colls[item.collision_index]);
    if let Ok(m) = assemble::with_groups(scene, e, links, items, f) {
        let group = items.filter(assemble::of_link(names.last()));
        if let Ok(x) = assemble::with_group(scene, m, links, names.last(), group) {
            if names.last() == name {
                let at = choose|at: int| 0 <= at < items.len() && items[at] == item;
                items.lemma_filter_contains(assemble::of_link(name), at);
                sphere_links::items_are_gone_through_from_the_end(group);
                let fresh = EditView { changed: false, ..m };
                lemma_items_cut(scene, fresh, name, colls, assemble::highest_first(group), item);
            } else {
                let i = choose|i: int| 0 <= i < names.len() && names[i] == name;
                assert(f[i] == name);
                assert(f.contains(name));
                lemma_groups_cut(scene, e, links, items, f, item, l);
                sphere_links::lemma_group_extends(scene, m, links, names.last(), group);
                let k = choose|k: int| 0 <= k < m.cuts.len() && m.cuts[k] == cut;
                assert(x.cuts.subrange(0, m.cuts.len() as int)[k] == x.cuts[k]);
                assert(x.cuts[k] == cut);
            }
        }
    }
}

/// Every collision that is replaced or removed is taken out of the text.
pub proof fn removed_collisions_are_taken_out(
    scene: Scene,
    items: Seq<ItemView>,
    item: ItemView,
    l: int,
)
    requires
        items.contains(item),
        sphere_links::link_node(scene, item.link_name) == Some(l),
        0 <= item.collision_index < xml::children_of(scene.nodes, l, "collision"@).len(),
        takes_out(scene, item.link_name, item),
    ensures
        assemble::edited(scene, items) matches Ok(e) ==> e.cuts.contains(
            range_of(
                scene,
                xml::children_of(scene.nodes, l, "collision"@)[item.collision_index],
            ),
        ),
{
    let root = xml::root_of(scene.nodes)->0;
    let links = xml::select(scene.nodes.len(), assemble::is_any_link(scene.nodes, root));
    let acts = assemble::actionable(items);
    let names = assemble::group_names(acts);
    let keep = |c: ItemView| !(c.action is Error);
    let at = choose|at: int| 0 <= at < items.len() && items[at] == item;
    items.lemma_filter_contains(keep, at);
    let i = choose|i: int| 0 <= i < acts.len() && acts[i] == item;
    sphere_links::lemma_names_hold(acts, i);
    lemma_groups_cut(scene, assemble::no_edit(), links, acts, names, item, l);
}

/// The links are looked up by their names, the first one first.
pub proof fn links_are_found_by_name(nodes: Seq<NodeView>, links: Seq<int>, name: Seq<char>, k: int)
    requires
        0 <= k <= links.len(),
        forall|i: int|
            0 <= i < k ==> xml::attribute_of(nodes[#[trigger] links[i]], "name"@) != Some(name),
    ensures
        k < links.len() && xml::attribute_of(nodes[links[k]], "name"@) == Some(name)
            ==> assemble::link_named(nodes, links, name, 0) == Some(links[k]),
        k == links.len() ==> assemble::link_named(nodes, links, name, 0) is None,
{
    lemma_link_named(nodes, links, name, 0, k);
}

proof fn lemma_link_named(
    nodes: Seq<NodeView>,
    links: Seq<int>,
    name: Seq<char>,
    from: int,
    k: int,
)
    requires
        0 <= from <= k <= links.len(),
        forall|i: int|
            from <= i < k ==> xml::attribute_of(nodes[#[trigger] links[i]], "name"@) != Some(name),
    ensures
        assemble::link_named(nodes, links, name, from) == assemble::link_named(
            nodes,
            links,
            name,
            k,
        ),
    decreases k - from,
{
    if from < k {
        assert(xml::attribute_of(nodes[links[from]], "name"@) != Some(name));
        lemma_link_named(nodes, links, name, from + 1, k);
    }
}

/// Every packed link has the color at its place among the packed links; every other has the
/// base color.
pub proof fn links_have_their_own_color(
    names: Seq<Seq<char>>,
    base: Seq<char>,
    colors: Seq<Seq<char>>,
    link: Seq<char>,
    k: int,
)
    requires
        0 <= k <= names.len(),
        forall|i: int| 0 <= i < k ==> #[trigger] names[i] != link,
    ensures
        k < names.len() && names[k] == link && k < colors.len() ==> assemble::link_color(
            names,
            base,
            colors,
            link,
            0,
        ) == colors[k],
        k < names.len() && names[k] == link && k >= colors.len() ==> assemble::link_color(
            names,
            base,
            colors,
            link,
            0,
        ) == base,
        k == names.len() ==> assemble::link_color(names, base, colors, link, 0) == base,
{
    lemma_link_color(names, base, colors, link, 0, k);
}

proof fn lemma_link_color(
    names: Seq<Seq<char>>,
    base: Seq<char>,
    colors: Seq<Seq<char>>,
    link: Seq<char>,
    from: int,
    k: int,
)
    requires
        0 <= from <= k <= names.len(),
        forall|i: int| from <= i < k ==> #[trigger] names[i] != link,
    ensures
        assemble::link_color(names, base, colors, link, from) == assemble::link_color(
            names,
            base,
            colors,
            link,
            k,
        ),
    decreases k - from,
{
    if from < k {
        assert(names[from] != link);
        lemma_link_color(names, base, colors, link, from + 1, k);
    }
}

/// Where nothing was packed for a collision, it stays, and the rewrite says so.
pub proof fn collisions_without_spheres_are_skipped(
    scene: Scene,
    e: EditView,
    link: Seq<char>,
    colls: Seq<int>,
    item: ItemView,
)
    requires
        item.action is Pack,
        !(0 <= item.collision_index < colls.len()) || (scene.found)(link, item.collision_index)
            == Ok::<Option<Seq<SphereView>>, ErrorView>(None),
    ensures
        assemble::with_item(scene, e, link, colls, item) matches Ok(m) && m.cuts == e.cuts && m.links
            == e.links && m.joints == e.joints && m.stats.skipped_pack_items.len()
            == e.stats.skipped_pack_items.len() + 1 && m.stats.skipped_pack_items.last().0 == link
            && m.stats.skipped_pack_items.last().1 == item.collision_index
            && m.stats.mesh_collisions_replaced == e.stats.mesh_collisions_replaced
            && m.stats.sphere_children_added == e.stats.sphere_children_added,
{
}

/// An item that is replaced counts itself once and its spheres each.
pub proof fn replaced_collisions_are_counted(
    scene: Scene,
    e: EditView,
    link: Seq<char>,
    colls: Seq<int>,
    item: ItemView,
    spheres: Seq<SphereView>,
)
    requires
        item.action is Pack,
        0 <= item.collision_index < colls.len(),
        (scene.found)(link, item.collision_index) == Ok::<Option<Seq<SphereView>>, ErrorView>(
            Some(spheres),
        ),
    ensures
        assemble::with_item(scene, e, link, colls, item) matches Ok(m)
            && m.stats.mesh_collisions_replaced == e.stats.mesh_collisions_replaced + 1
            && m.stats.sphere_children_added == e.stats.sphere_children_added + spheres.len()
            && m.stats.skipped_pack_items == e.stats.skipped_pack_items
            && m.stats.primitive_collisions_removed == e.stats.primitive_collisions_removed
            && m.stats.sphere_collisions_removed == e.stats.sphere_collisions_removed,
{
}

/// The spheres of a sphere file are its rows and its radii, in their order and with their
/// numbers.
pub proof fn sphere_files_are_read_row_by_row(
    rows: Seq<Seq<Seq<char>>>,
    radii: Seq<Seq<char>>,
    name: Seq<char>,
)
    requires
        rows.len() == radii.len(),
        forall|i: int| 0 <= i < rows.len() ==> (#[trigger] rows[i]).len() == 3,
    ensures
        ({
            let read = assemble::sphere_set(Ok(Some(rows)), Ok(Some(radii)), name);
            &&& read is Ok
            &&& read->Ok_0.radii == radii
            &&& read->Ok_0.centers.len() == rows.len()
            &&& forall|i: int|
                0 <= i < rows.len() ==> {
                    let c = #[trigger] read->Ok_0.centers[i];
                    c.x == rows[i][0] && c.y == rows[i][1] && c.z == rows[i][2]
                }
        }),
{
    assert(assemble::rows_of_three(rows));
}

} // verus!
