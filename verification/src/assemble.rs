//! Stage 3 of the robot pipeline: rewrite the robot URDF so every packed
//! `<collision>` is replaced by sphere child links on fixed joints, and
//! redundant primitive or sphere collisions are removed.
//!
//! The text is kept and only edited: the removed `<collision>` elements are
//! cut out by their ranges and the new links (then joints) are inserted before
//! `</robot>`. Comments, attribute order and formatting of everything else
//! stay as they were.

use vstd::prelude::*;

use crate::inspect;
use crate::inspect::{Action, CollisionItem, InspectionReport, ItemView};
use crate::json;
use crate::numeral::{Triple, TripleView};
use crate::pack;
use crate::paths;
use crate::text;
use crate::xml;
use crate::xml::{NodeView, XmlNode};
use crate::{Error, ErrorView};

verus! {

/// The namespace of Drake's collision properties.
pub open spec fn drake_ns() -> Seq<char> {
    "http://drake.mit.edu"@
}

/// A sphere in the frame of its link, its numbers written with six decimals.
#[derive(Debug)]
pub struct Sphere {
    pub radius: String,
    pub at: Triple,
}

/// The contents of a [`Sphere`].
pub struct SphereView {
    pub radius: Seq<char>,
    pub at: TripleView,
}

impl View for Sphere {
    type V = SphereView;

    open spec fn view(&self) -> SphereView {
        SphereView { radius: self.radius@, at: self.at@ }
    }
}

impl Clone for Sphere {
    fn clone(&self) -> (out: Self)
        ensures
            out@ == self@,
    {
        Sphere { radius: self.radius.clone(), at: self.at.clone() }
    }
}

/// The contents of a list of spheres.
pub open spec fn sphere_views(v: Seq<Sphere>) -> Seq<SphereView> {
    v.map_values(|s: Sphere| s@)
}

/// Copies of the spheres.
pub fn copy_spheres(spheres: &[Sphere]) -> (out: Vec<Sphere>)
    ensures
        sphere_views(out@) == sphere_views(spheres@),
{
    let mut out: Vec<Sphere> = Vec::new();
    let mut i: usize = 0;
    while i < spheres.len()
        invariant
            i <= spheres@.len(),
            out@.len() == i,
            forall|j: int| 0 <= j < i ==> (#[trigger] out@[j])@ == spheres@[j]@,
        decreases spheres@.len() - i,
    {
        out.push(spheres[i].clone());
        i = i + 1;
    }
    assert(sphere_views(out@) =~= sphere_views(spheres@));
    out
}

/// What the rewrite changed.
#[derive(Debug)]
pub struct RewriteStats {
    pub links_with_collisions_replaced: usize,
    pub mesh_collisions_replaced: usize,
    pub primitive_collisions_removed: usize,
    pub sphere_collisions_removed: usize,
    pub sphere_children_added: u128,
    /// `(link, collision_index, reason)` for pack items that were not replaced.
    pub skipped_pack_items: Vec<(String, usize, String)>,
}

/// The contents of a [`RewriteStats`].
#[verifier::ext_equal]
pub struct StatsView {
    pub links_with_collisions_replaced: nat,
    pub mesh_collisions_replaced: nat,
    pub primitive_collisions_removed: nat,
    pub sphere_collisions_removed: nat,
    pub sphere_children_added: nat,
    pub skipped_pack_items: Seq<(Seq<char>, int, Seq<char>)>,
}

/// The contents of a list of skipped items.
pub open spec fn skip_views(v: Seq<(String, usize, String)>) -> Seq<(Seq<char>, int, Seq<char>)> {
    v.map_values(|s: (String, usize, String)| (s.0@, s.1 as int, s.2@))
}

impl View for RewriteStats {
    type V = StatsView;

    open spec fn view(&self) -> StatsView {
        StatsView {
            links_with_collisions_replaced: self.links_with_collisions_replaced as nat,
            mesh_collisions_replaced: self.mesh_collisions_replaced as nat,
            primitive_collisions_removed: self.primitive_collisions_removed as nat,
            sphere_collisions_removed: self.sphere_collisions_removed as nat,
            sphere_children_added: self.sphere_children_added as nat,
            skipped_pack_items: skip_views(self.skipped_pack_items@),
        }
    }
}

/// `link[idx]: reason`.
pub open spec fn skip_line(s: (Seq<char>, int, Seq<char>)) -> Seq<char> {
    s.0 + "["@ + text::decimal(s.1 as nat) + "]: "@ + s.2
}

/// `link[idx]: reason; ...`
pub open spec fn skipped_text(v: Seq<(Seq<char>, int, Seq<char>)>) -> Seq<char> {
    text::join(v.map_values(|s: (Seq<char>, int, Seq<char>)| skip_line(s)), "; "@)
}

impl RewriteStats {
    /// `link[idx]: reason; ...`, as the API's 400 message lists them.
    pub fn skipped_summary(&self) -> (out: String)
        ensures
            out@ == skipped_text(self@.skipped_pack_items),
    {
        let mut lines: Vec<String> = Vec::new();
        let mut i: usize = 0;
        while i < self.skipped_pack_items.len()
            invariant
                i <= self.skipped_pack_items@.len(),
                lines@.len() == i,
                forall|j: int|
                    0 <= j < i ==> (#[trigger] lines@[j])@ == skip_line(
                        self@.skipped_pack_items[j],
                    ),
            decreases self.skipped_pack_items@.len() - i,
        {
            let s = &self.skipped_pack_items[i];
            let mut line = s.0.clone();
            line.append("[");
            text::push_decimal(&mut line, s.1);
            line.append("]: ");
            line.append(s.2.as_str());
            lines.push(line);
            i = i + 1;
        }
        assert(text::texts(lines@) =~= self@.skipped_pack_items.map_values(
            |s: (Seq<char>, int, Seq<char>)| skip_line(s),
        ));
        text::join_with(&lines, "; ")
    }
}

/// How XML writes a character inside text or an attribute.
pub open spec fn escaped_char(c: char) -> Seq<char> {
    if c == '&' {
        "&amp;"@
    } else if c == '<' {
        "&lt;"@
    } else if c == '>' {
        "&gt;"@
    } else if c == '"' {
        "&quot;"@
    } else {
        seq![c]
    }
}

/// The text with the characters that XML reserves escaped.
pub open spec fn escaped(s: Seq<char>) -> Seq<char> {
    s.flat_map(|c: char| escaped_char(c))
}

/// The text with the characters that XML reserves escaped.
pub fn esc(s: &str) -> (out: String)
    ensures
        out@ == escaped(s@),
{
    let cs = text::to_chars(s);
    let ghost f = |c: char| escaped_char(c);
    let mut out = String::new();
    let mut i: usize = 0;
    while i < cs.len()
        invariant
            i <= cs@.len(),
            cs@ == s@,
            f == (|c: char| escaped_char(c)),
            out@ == s@.take(i as int).flat_map(f),
        decreases cs@.len() - i,
    {
        broadcast use Seq::lemma_flat_map_take_append;

        let c = cs[i];
        if c == '&' {
            out.append("&amp;");
        } else if c == '<' {
            out.append("&lt;");
        } else if c == '>' {
            out.append("&gt;");
        } else if c == '"' {
            out.append("&quot;");
        } else {
            out.push(c);
        }
        i = i + 1;
        assert(out@ =~= s@.take(i as int).flat_map(f));
    }
    assert(s@.take(i as int) =~= s@);
    out
}

/// Where [`rewrite_urdf_text`] gets the spheres of each packed collision.
pub trait SphereSource {
    /// What [`SphereSource::spheres`] gives.
    spec fn found(&self, link: Seq<char>, index: int) -> Result<Option<Seq<SphereView>>, ErrorView>;

    /// What [`SphereSource::missing`] gives.
    spec fn reason(&self, link: Seq<char>, index: int) -> Seq<char>;

    /// The spheres of `link[index]`, or `None` if it was not packed.
    fn spheres(&self, link: &str, index: usize) -> (res: Result<Option<Vec<Sphere>>, Error>)
        ensures
            match res {
                Ok(Some(s)) => self.found(link@, index as int) == Ok::<
                    Option<Seq<SphereView>>,
                    ErrorView,
                >(Some(sphere_views(s@))),
                Ok(None) => self.found(link@, index as int) == Ok::<
                    Option<Seq<SphereView>>,
                    ErrorView,
                >(None),
                Err(e) => self.found(link@, index as int) == Err::<
                    Option<Seq<SphereView>>,
                    ErrorView,
                >(e@),
            },
    ;

    /// The skip reason reported when [`SphereSource::spheres`] is `None`.
    fn missing(&self, link: &str, index: usize) -> (out: String)
        ensures
            out@ == self.reason(link@, index as int),
    ;
}

/// What a [`SphereSource`] gives.
#[verifier::ext_equal]
pub struct SourceView {
    pub found: spec_fn(Seq<char>, int) -> Result<Option<Seq<SphereView>>, ErrorView>,
    pub reason: spec_fn(Seq<char>, int) -> Seq<char>,
}

/// What `source` gives.
pub open spec fn source_view<S: SphereSource>(source: &S) -> SourceView {
    SourceView {
        found: |link: Seq<char>, index: int| source.found(link, index),
        reason: |link: Seq<char>, index: int| source.reason(link, index),
    }
}

/// Spheres held in memory, by link and collision index.
#[derive(Debug)]
pub struct MemSpheres {
    pub entries: Vec<(String, usize, Vec<Sphere>)>,
}

/// The last entry for `link[index]` among the first `n`.
pub open spec fn entry_at(
    entries: Seq<(String, usize, Vec<Sphere>)>,
    link: Seq<char>,
    index: int,
    n: int,
) -> Option<Seq<SphereView>>
    decreases n,
{
    if n <= 0 || n > entries.len() {
        None
    } else if entries[n - 1].0@ == link && entries[n - 1].1 == index {
        Some(sphere_views(entries[n - 1].2@))
    } else {
        entry_at(entries, link, index, n - 1)
    }
}

impl MemSpheres {
    /// The spheres of `link[index]`.
    pub open spec fn at(&self, link: Seq<char>, index: int) -> Option<Seq<SphereView>> {
        entry_at(self.entries@, link, index, self.entries@.len() as int)
    }

    /// No spheres.
    pub fn new() -> (out: Self)
        ensures
            forall|link: Seq<char>, index: int| #[trigger] out.at(link, index) is None,
    {
        MemSpheres { entries: Vec::new() }
    }

    /// Set the spheres of `link[index]`; the others stay as they were.
    pub fn insert(&mut self, link: &str, index: usize, spheres: Vec<Sphere>)
        ensures
            final(self).at(link@, index as int) == Some(sphere_views(spheres@)),
            forall|l: Seq<char>, i: int|
                l != link@ || i != index ==> #[trigger] final(self).at(l, i) == old(self).at(l, i),
    {
        let ghost before = self.entries@;
        self.entries.push((String::from_str(link), index, spheres));
        assert forall|l: Seq<char>, i: int| l != link@ || i != index implies #[trigger] self.at(
            l,
            i,
        ) == entry_at(before, l, i, before.len() as int) by {
            lemma_entry_prefix(before, self.entries@, l, i, before.len() as int);
        }
    }
}

proof fn lemma_entry_prefix(
    a: Seq<(String, usize, Vec<Sphere>)>,
    b: Seq<(String, usize, Vec<Sphere>)>,
    link: Seq<char>,
    index: int,
    n: int,
)
    requires
        0 <= n <= a.len() <= b.len(),
        forall|k: int| 0 <= k < a.len() ==> a[k] == b[k],
    ensures
        entry_at(a, link, index, n) == entry_at(b, link, index, n),
    decreases n,
{
    if n > 0 {
        lemma_entry_prefix(a, b, link, index, n - 1);
    }
}

impl SphereSource for MemSpheres {
    open spec fn found(&self, link: Seq<char>, index: int) -> Result<
        Option<Seq<SphereView>>,
        ErrorView,
    > {
        Ok(self.at(link, index))
    }

    open spec fn reason(&self, link: Seq<char>, index: int) -> Seq<char> {
        "missing JSON: "@ + pack::result_name(link, index as nat)
    }

    fn spheres(&self, link: &str, index: usize) -> (res: Result<Option<Vec<Sphere>>, Error>) {
        let mut n: usize = self.entries.len();
        while n > 0
            invariant
                n <= self.entries@.len(),
                self.at(link@, index as int) == entry_at(
                    self.entries@,
                    link@,
                    index as int,
                    n as int,
                ),
            decreases n,
        {
            let e = &self.entries[n - 1];
            if e.1 == index && text::same(e.0.as_str(), link) {
                return Ok(Some(copy_spheres(&e.2)));
            }
            n = n - 1;
        }
        Ok(None)
    }

    fn missing(&self, link: &str, index: usize) -> (out: String) {
        let mut out = String::from_str("missing JSON: ");
        out.append(pack::json_filename(link, index).as_str());
        out
    }
}

/// Links and collision indices.
pub open spec fn key_pairs(v: Seq<(String, usize)>) -> Seq<(Seq<char>, int)> {
    v.map_values(|k: (String, usize)| (k.0@, k.1 as int))
}

/// The contents of lists of spheres.
pub open spec fn sphere_lists(v: Seq<Vec<Sphere>>) -> Seq<Seq<SphereView>> {
    v.map_values(|s: Vec<Sphere>| sphere_views(s@))
}

/// The spheres under the last of the first `n` keys that is `link[index]`.
pub open spec fn placed_at(
    keys: Seq<(Seq<char>, int)>,
    placed: Seq<Seq<SphereView>>,
    link: Seq<char>,
    index: int,
    n: int,
) -> Option<Seq<SphereView>>
    decreases n,
{
    if n <= 0 || n > keys.len() {
        None
    } else if keys[n - 1] == (link, index) {
        Some(placed[n - 1])
    } else {
        placed_at(keys, placed, link, index, n - 1)
    }
}

/// What spheres held in memory give, where `placed` are those of the keys.
pub open spec fn placed_source(
    keys: Seq<(Seq<char>, int)>,
    placed: Seq<Seq<SphereView>>,
) -> SourceView {
    SourceView {
        found: |link: Seq<char>, index: int|
            Ok(placed_at(keys, placed, link, index, keys.len() as int)),
        reason: |link: Seq<char>, index: int|
            "missing JSON: "@ + pack::result_name(link, index as nat),
    }
}

/// The spheres of each of the keys; a key that is there twice has the later ones.
pub fn gather_spheres(keys: &[(String, usize)], placed: &[Vec<Sphere>]) -> (out: MemSpheres)
    requires
        keys@.len() == placed@.len(),
    ensures
        source_view(&out) == placed_source(key_pairs(keys@), sphere_lists(placed@)),
{
    let ghost ks = key_pairs(keys@);
    let ghost ps = sphere_lists(placed@);
    let mut out = MemSpheres::new();
    let mut i: usize = 0;
    while i < keys.len()
        invariant
            i <= keys@.len() == placed@.len(),
            ks == key_pairs(keys@),
            ps == sphere_lists(placed@),
            forall|l: Seq<char>, x: int| #[trigger]
                out.at(l, x) == placed_at(ks, ps, l, x, i as int),
        decreases keys@.len() - i,
    {
        let ghost before = out;
        assert(ks[i as int] == (keys@[i as int].0@, keys@[i as int].1 as int));
        assert(ps[i as int] == sphere_views(placed@[i as int]@));
        out.insert(keys[i].0.as_str(), keys[i].1, copy_spheres(&placed[i]));
        assert forall|l: Seq<char>, x: int| #[trigger] out.at(l, x) == placed_at(
            ks,
            ps,
            l,
            x,
            i + 1,
        ) by {
            if (l, x) != ks[i as int] {
                assert(out.at(l, x) == before.at(l, x));
            }
        }
        i = i + 1;
    }
    assert(source_view(&out) =~= placed_source(ks, ps));
    out
}

/// Sphere JSONs `<dir>/<link>_<index>.json`, as the pack stage writes them.
#[derive(Debug)]
pub struct DirSpheres {
    pub dir: String,
    /// What was read of each JSON that is there.
    pub files: Vec<(String, usize, Result<Vec<Sphere>, Error>)>,
}

/// What was read last of the JSON of `link[index]`, among the first `n`.
pub open spec fn file_at(
    files: Seq<(String, usize, Result<Vec<Sphere>, Error>)>,
    link: Seq<char>,
    index: int,
    n: int,
) -> Result<Option<Seq<SphereView>>, ErrorView>
    decreases n,
{
    if n <= 0 || n > files.len() {
        Ok(None)
    } else if files[n - 1].0@ == link && files[n - 1].1 == index {
        match files[n - 1].2 {
            Ok(s) => Ok(Some(sphere_views(s@))),
            Err(e) => Err(e@),
        }
    } else {
        file_at(files, link, index, n - 1)
    }
}

proof fn lemma_file_prefix(
    a: Seq<(String, usize, Result<Vec<Sphere>, Error>)>,
    b: Seq<(String, usize, Result<Vec<Sphere>, Error>)>,
    link: Seq<char>,
    index: int,
    n: int,
)
    requires
        0 <= n <= a.len() <= b.len(),
        forall|k: int| 0 <= k < a.len() ==> a[k] == b[k],
    ensures
        file_at(a, link, index, n) == file_at(b, link, index, n),
    decreases n,
{
    if n > 0 {
        lemma_file_prefix(a, b, link, index, n - 1);
    }
}

impl DirSpheres {
    /// The path of the JSON of `link[index]`.
    pub open spec fn path(&self, link: Seq<char>, index: nat) -> Seq<char> {
        inspect::path_join(self.dir@, pack::result_name(link, index))
    }

    /// The directory `dir`, of which nothing was read.
    pub fn new(dir: &str) -> (out: Self)
        ensures
            out.dir@ == dir@,
            forall|link: Seq<char>, index: int| #[trigger] out.found(link, index) == Ok::<
                Option<Seq<SphereView>>,
                ErrorView,
            >(None),
    {
        DirSpheres { dir: String::from_str(dir), files: Vec::new() }
    }

    /// The path of the JSON of `link[index]`.
    pub fn json_path(&self, link: &str, index: usize) -> (out: String)
        ensures
            out@ == self.path(link@, index as nat),
    {
        inspect::join_path(self.dir.as_str(), pack::json_filename(link, index).as_str())
    }

    /// Note what was read of the JSON of `link[index]`; the others stay as they
    /// were.
    pub fn was_read(&mut self, link: &str, index: usize, what: Result<Vec<Sphere>, Error>)
        ensures
            final(self).dir == old(self).dir,
            final(self).found(link@, index as int) == match what {
                Ok(s) => Ok::<Option<Seq<SphereView>>, ErrorView>(Some(sphere_views(s@))),
                Err(e) => Err(e@),
            },
            forall|l: Seq<char>, i: int|
                l != link@ || i != index ==> #[trigger] final(self).found(l, i) == old(self).found(l, i),
    {
        let ghost before = self.files@;
        self.files.push((String::from_str(link), index, what));
        assert forall|l: Seq<char>, i: int| l != link@ || i != index implies #[trigger] self.found(
            l,
            i,
        ) == file_at(before, l, i, before.len() as int) by {
            lemma_file_prefix(before, self.files@, l, i, before.len() as int);
        }
    }
}

impl SphereSource for DirSpheres {
    open spec fn found(&self, link: Seq<char>, index: int) -> Result<
        Option<Seq<SphereView>>,
        ErrorView,
    > {
        file_at(self.files@, link, index, self.files@.len() as int)
    }

    open spec fn reason(&self, link: Seq<char>, index: int) -> Seq<char> {
        "missing JSON: "@ + self.path(link, index as nat)
    }

    fn spheres(&self, link: &str, index: usize) -> (res: Result<Option<Vec<Sphere>>, Error>) {
        let mut n: usize = self.files.len();
        while n > 0
            invariant
                n <= self.files@.len(),
                self.found(link@, index as int) == file_at(
                    self.files@,
                    link@,
                    index as int,
                    n as int,
                ),
            decreases n,
        {
            let e = &self.files[n - 1];
            if e.1 == index && text::same(e.0.as_str(), link) {
                return match &e.2 {
                    Ok(s) => Ok(Some(copy_spheres(s))),
                    Err(e) => Err(e.clone()),
                };
            }
            n = n - 1;
        }
        Ok(None)
    }

    fn missing(&self, link: &str, index: usize) -> (out: String) {
        let mut out = String::from_str("missing JSON: ");
        out.append(self.json_path(link, index).as_str());
        out
    }
}

/// Whether the characters of a stretch of text are blank.
pub open spec fn is_blank(s: Seq<char>) -> bool {
    forall|i: int| 0 <= i < s.len() ==> blank_char(#[trigger] s[i])
}

/// A space, a tab or the end of a line.
pub open spec fn blank_char(c: char) -> bool {
    c == ' ' || c == '\t' || c == '\r' || c == '\n'
}

/// Whether `cs[from..to]` is blank.
fn blank(cs: &[char], from: usize, to: usize) -> (yes: bool)
    requires
        from <= to <= cs@.len(),
    ensures
        yes == is_blank(cs@.subrange(from as int, to as int)),
{
    let mut i: usize = from;
    while i < to
        invariant
            from <= i <= to <= cs@.len(),
            forall|j: int| from <= j < i ==> blank_char(#[trigger] cs@[j]),
        decreases to - i,
    {
        let c = cs[i];
        if !(c == ' ' || c == '\t' || c == '\r' || c == '\n') {
            assert(cs@.subrange(from as int, to as int)[i - from] == c);
            return false;
        }
        i = i + 1;
    }
    assert forall|k: int| 0 <= k < to - from implies blank_char(
        #[trigger] cs@.subrange(from as int, to as int)[k],
    ) by {
        assert(blank_char(cs@[from + k]));
    }
    true
}

/// Where the line that holds position `at` starts.
pub open spec fn line_start(s: Seq<char>, at: int) -> int {
    match text::last_char(s, '\n', at) {
        Some(i) => i + 1,
        None => 0,
    }
}

/// Where the line that holds position `at` ends, with its line break.
pub open spec fn line_end(s: Seq<char>, at: int) -> int {
    match text::first_char(s, '\n', at) {
        Some(i) => i + 1,
        None => s.len() as int,
    }
}

/// The range to cut for an element at `start..end`: the element, plus its line
/// when nothing else shares that line.
pub open spec fn cut_at(s: Seq<char>, start: int, end: int) -> (int, int) {
    let a = line_start(s, start);
    let b = line_end(s, end);
    if is_blank(s.subrange(a, start)) && is_blank(s.subrange(end, b)) {
        (a, b)
    } else {
        (start, end)
    }
}

/// The range to cut for an element at `start..end`: the element, plus its line
/// when nothing else shares that line.
fn cut_range(cs: &[char], start: usize, end: usize) -> (out: (usize, usize))
    requires
        start <= cs@.len(),
        end <= cs@.len(),
    ensures
        (out.0 as int, out.1 as int) == cut_at(cs@, start as int, end as int),
        out.0 <= start,
        end <= out.1 <= cs@.len(),
{
    let n: usize = cs.len();
    let a: usize = match text::rfind_char(cs, '\n', start) {
        Some(i) => i + 1,
        None => 0,
    };
    let b: usize = match text::find_char(cs, '\n', end) {
        Some(i) => i + 1,
        None => n,
    };
    if blank(cs, a, start) && blank(cs, end, b) {
        (a, b)
    } else {
        (start, end)
    }
}

/// Where a node starts and ends in the text, in characters.
pub open spec fn span_of(s: Seq<char>, n: NodeView) -> (int, int) {
    (xml::char_index(s, 0, n.start), xml::char_index(s, 0, n.end))
}

/// Where a node starts and ends in the text, in characters.
fn span(cs: &[char], n: &XmlNode) -> (out: (usize, usize))
    ensures
        (out.0 as int, out.1 as int) == span_of(cs@, n@),
        out.0 <= cs@.len(),
        out.1 <= cs@.len(),
{
    (xml::position_of(cs, n.start), xml::position_of(cs, n.end))
}

/// The text of a node.
pub open spec fn text_of(s: Seq<char>, n: NodeView) -> Seq<char> {
    s.subrange(span_of(s, n).0, span_of(s, n).1)
}

/// The first position at or after `from` that holds white space, `>` or `/`,
/// or (with `colon`) `:`; the length of the text when there is none.
pub open spec fn name_end(s: Seq<char>, colon: bool, from: int) -> int
    decreases s.len() - from,
{
    if from < 0 || from >= s.len() {
        s.len() as int
    } else if text::is_white(s[from]) || s[from] == '>' || s[from] == '/' || (colon && s[from]
        == ':') {
        from
    } else {
        name_end(s, colon, from + 1)
    }
}

/// The position that [`name_end`] describes.
fn find_name_end(cs: &[char], colon: bool, from: usize) -> (at: usize)
    requires
        from <= cs@.len(),
    ensures
        at == name_end(cs@, colon, from as int),
        from <= at <= cs@.len(),
{
    let mut i: usize = from;
    while i < cs.len()
        invariant
            from <= i <= cs@.len(),
            name_end(cs@, colon, from as int) == name_end(cs@, colon, i as int),
        decreases cs@.len() - i,
    {
        let c = cs[i];
        if text::white(c) || c == '>' || c == '/' || (colon && c == ':') {
            return i;
        }
        i = i + 1;
    }
    i
}

/// The raw element `raw`, with a declaration of the Drake namespace added when
/// neither the root (which binds it to `bound`) nor the element binds the
/// prefix that the element uses.
pub open spec fn with_namespace(raw: Seq<char>, bound: Option<Seq<char>>) -> Option<Seq<char>> {
    let prefix = raw.subrange(1, name_end(raw, true, 1));
    let at = name_end(raw, false, 1);
    if bound == Some(prefix) || text::first_at(raw, "xmlns:"@ + prefix + "="@, 0) is Some {
        Some(raw)
    } else if at >= raw.len() {
        None
    } else {
        Some(
            raw.take(at) + " xmlns:"@ + prefix + "=\""@ + drake_ns() + "\""@ + raw.skip(at),
        )
    }
}

/// The raw element with its namespace, as [`with_namespace`] describes it.
fn add_namespace(raw: &[char], bound: &Option<String>) -> (out: Option<String>)
    requires
        raw@.len() > 0,
    ensures
        text::opt_text(out) == with_namespace(raw@, text::opt_text(*bound)),
{
    let stop = find_name_end(raw, true, 1);
    let prefix = text::from_range(raw, 1, stop);
    let is_bound = match bound {
        Some(b) => text::same(b.as_str(), prefix.as_str()),
        None => false,
    };
    let mut decl = String::from_str("xmlns:");
    decl.append(prefix.as_str());
    decl.append("=");
    if is_bound || text::find(raw, decl.as_str(), 0).is_some() {
        return Some(text::from_chars(raw));
    }
    let at = find_name_end(raw, false, 1);
    if at >= raw.len() {
        return None;
    }
    let mut out = text::from_range(raw, 0, at);
    assert(out@ =~= raw@.take(at as int));
    out.append(" xmlns:");
    out.append(prefix.as_str());
    out.append("=\"");
    out.append("http://drake.mit.edu");
    out.append("\"");
    let rest = text::from_range(raw, at, raw.len());
    assert(rest@ =~= raw@.skip(at as int));
    out.append(rest.as_str());
    Some(out)
}

/// The test for the Drake properties of the collision `coll`.
pub open spec fn is_drake(nodes: Seq<NodeView>, coll: int) -> spec_fn(int) -> bool {
    |j: int|
        nodes[j].parent == Some(coll) && nodes[j].name == "proximity_properties"@
            && nodes[j].namespace == Some(drake_ns())
}

/// The Drake properties of the collision `coll`, as they are written into each
/// of its spheres.
pub open spec fn drake_of(
    s: Seq<char>,
    nodes: Seq<NodeView>,
    bound: Option<Seq<char>>,
    coll: int,
) -> Option<Seq<char>> {
    let all = xml::select(nodes.len(), is_drake(nodes, coll));
    if all.len() > 0 {
        with_namespace(text_of(s, nodes[all[0]]), bound)
    } else {
        None
    }
}

/// Whether every element spans at least one character of the text.
pub open spec fn well_spanned(s: Seq<char>, nodes: Seq<NodeView>) -> bool {
    forall|j: int|
        0 <= j < nodes.len() && xml::is_element(#[trigger] nodes[j]) ==> span_of(s, nodes[j]).0
            < span_of(s, nodes[j]).1
}

/// [`well_spanned`], decided.
fn all_spanned(cs: &[char], nodes: &[XmlNode]) -> (yes: bool)
    ensures
        yes == well_spanned(cs@, xml::views(nodes@)),
{
    let ghost v = xml::views(nodes@);
    let mut j: usize = 0;
    while j < nodes.len()
        invariant
            j <= nodes@.len(),
            v == xml::views(nodes@),
            forall|k: int|
                0 <= k < j && xml::is_element(#[trigger] v[k]) ==> span_of(cs@, v[k]).0 < span_of(
                    cs@,
                    v[k],
                ).1,
        decreases nodes@.len() - j,
    {
        let n = &nodes[j];
        assert(v[j as int] == n@);
        let (a, b) = span(cs, n);
        if !n.name.as_str().is_empty() && a >= b {
            assert(xml::is_element(v[j as int]));
            return false;
        }
        j = j + 1;
    }
    true
}

/// Raw text of a `drake:proximity_properties` child of `coll`, with a
/// namespace declaration added when the prefix is not bound at the root.
fn drake_block(cs: &[char], nodes: &[XmlNode], bound: &Option<String>, coll: usize) -> (out: Option<
    String,
>)
    requires
        well_spanned(cs@, xml::views(nodes@)),
    ensures
        text::opt_text(out) == drake_of(
            cs@,
            xml::views(nodes@),
            text::opt_text(*bound),
            coll as int,
        ),
{
    let ghost v = xml::views(nodes@);
    let ghost keep = is_drake(v, coll as int);
    let mut j: usize = 0;
    while j < nodes.len()
        invariant
            j <= nodes@.len(),
            v == xml::views(nodes@),
            keep == is_drake(v, coll as int),
            well_spanned(cs@, v),
            xml::select(j as nat, keep) == Seq::<int>::empty(),
        decreases nodes@.len() - j,
    {
        let n = &nodes[j];
        assert(v[j as int] == n@);
        let below = match n.parent {
            Some(p) => p == coll,
            None => false,
        };
        let drake = match &n.namespace {
            Some(ns) => text::same(ns.as_str(), "http://drake.mit.edu"),
            None => false,
        };
        if below && drake && text::same(n.name.as_str(), "proximity_properties") {
            proof {
                reveal_strlit("proximity_properties");
                xml::lemma_select_prefix((j + 1) as nat, nodes@.len(), keep);
                assert(xml::select((j + 1) as nat, keep) =~= seq![j as int]);
                assert(xml::is_element(v[j as int]));
            }
            let (a, b) = span(cs, n);
            let raw = text::to_chars(text::from_range(cs, a, b).as_str());
            assert(raw@ =~= text_of(cs@, v[j as int]));
            return add_namespace(&raw, bound);
        }
        j = j + 1;
    }
    None
}

/// The link of one sphere.
pub open spec fn sphere_link_text(
    name: Seq<char>,
    radius: Seq<char>,
    rgba: Seq<char>,
    drake: Option<Seq<char>>,
) -> Seq<char> {
    let n = escaped(name);
    "  <link name=\""@ + n
        + "\">\n    <inertial>\n      <origin xyz=\"0 0 0\" rpy=\"0 0 0\" />\n      <mass value=\"0.001000\" />\n      <inertia ixx=\"0.000010\" ixy=\"0\" ixz=\"0\" iyy=\"0.000010\" iyz=\"0\" izz=\"0.000010\" />\n    </inertial>\n    <visual>\n      <origin xyz=\"0 0 0\" rpy=\"0 0 0\" />\n      <geometry>\n        <sphere radius=\""@
        + radius + "\" />\n      </geometry>\n      <material name=\"color_"@ + n
        + "\">\n        <color rgba=\""@ + rgba
        + "\" />\n      </material>\n    </visual>\n    <collision>\n      <origin xyz=\"0 0 0\" rpy=\"0 0 0\" />\n      <geometry>\n        <sphere radius=\""@
        + radius + "\" />\n      </geometry>\n"@ + (match drake {
        Some(d) => "      "@ + d + "\n"@,
        None => Seq::empty(),
    }) + "    </collision>\n  </link>\n"@
}

/// The link of one sphere.
fn sphere_link(name: &str, radius: &str, rgba: &str, drake: &Option<String>) -> (out: String)
    ensures
        out@ == sphere_link_text(name@, radius@, rgba@, text::opt_text(*drake)),
{
    let n = esc(name);
    let mut s = String::from_str("  <link name=\"");
    s.append(n.as_str());
    s.append(
        "\">\n    <inertial>\n      <origin xyz=\"0 0 0\" rpy=\"0 0 0\" />\n      <mass value=\"0.001000\" />\n      <inertia ixx=\"0.000010\" ixy=\"0\" ixz=\"0\" iyy=\"0.000010\" iyz=\"0\" izz=\"0.000010\" />\n    </inertial>\n    <visual>\n      <origin xyz=\"0 0 0\" rpy=\"0 0 0\" />\n      <geometry>\n        <sphere radius=\"",
    );
    s.append(radius);
    s.append("\" />\n      </geometry>\n      <material name=\"color_");
    s.append(n.as_str());
    s.append("\">\n        <color rgba=\"");
    s.append(rgba);
    s.append(
        "\" />\n      </material>\n    </visual>\n    <collision>\n      <origin xyz=\"0 0 0\" rpy=\"0 0 0\" />\n      <geometry>\n        <sphere radius=\"",
    );
    s.append(radius);
    s.append("\" />\n      </geometry>\n");
    match drake {
        Some(d) => {
            let ghost before = s@;
            s.append("      ");
            s.append(d.as_str());
            s.append("\n");
            assert(s@ =~= before + ("      "@ + d@ + "\n"@));
        },
        None => {
            assert(s@ + Seq::<char>::empty() =~= s@);
        },
    }
    s.append("    </collision>\n  </link>\n");
    s
}

/// The fixed joint that holds one sphere.
pub open spec fn joint_text(parent: Seq<char>, child: Seq<char>, at: TripleView) -> Seq<char> {
    let p = escaped(parent);
    let c = escaped(child);
    "  <joint name=\""@ + p + "_to_"@ + c + "\" type=\"fixed\">\n    <parent link=\""@ + p
        + "\" />\n    <child link=\""@ + c + "\" />\n    <origin xyz=\""@ + at.spaced()
        + "\" rpy=\"0 0 0\" />\n  </joint>\n"@
}

/// The fixed joint that holds one sphere.
fn fixed_joint(parent: &str, child: &str, at: &Triple) -> (out: String)
    ensures
        out@ == joint_text(parent@, child@, at@),
{
    let p = esc(parent);
    let c = esc(child);
    let mut s = String::from_str("  <joint name=\"");
    s.append(p.as_str());
    s.append("_to_");
    s.append(c.as_str());
    s.append("\" type=\"fixed\">\n    <parent link=\"");
    s.append(p.as_str());
    s.append("\" />\n    <child link=\"");
    s.append(c.as_str());
    s.append("\" />\n    <origin xyz=\"");
    s.append(at.spaced().as_str());
    s.append("\" rpy=\"0 0 0\" />\n  </joint>\n");
    s
}

/// The name of the sphere link `k` of a link.
pub open spec fn sphere_name(link: Seq<char>, k: int) -> Seq<char> {
    link + "_sphere"@ + text::decimal((k + 1) as nat)
}

/// The links of the first `n` spheres.
pub open spec fn sphere_links(
    link: Seq<char>,
    spheres: Seq<SphereView>,
    rgba: Seq<char>,
    drake: Option<Seq<char>>,
    n: int,
) -> Seq<char>
    decreases n,
{
    if n <= 0 {
        Seq::empty()
    } else {
        sphere_links(link, spheres, rgba, drake, n - 1) + sphere_link_text(
            sphere_name(link, n - 1),
            spheres[n - 1].radius,
            rgba,
            drake,
        )
    }
}

/// The joints of the first `n` spheres.
pub open spec fn sphere_joints(link: Seq<char>, spheres: Seq<SphereView>, n: int) -> Seq<char>
    decreases n,
{
    if n <= 0 {
        Seq::empty()
    } else {
        sphere_joints(link, spheres, n - 1) + joint_text(
            link,
            sphere_name(link, n - 1),
            spheres[n - 1].at,
        )
    }
}

/// What has been edited so far.
#[verifier::ext_equal]
pub struct EditView {
    pub stats: StatsView,
    /// The ranges to cut out of the text.
    pub cuts: Seq<(int, int)>,
    /// The new links.
    pub links: Seq<char>,
    /// The new joints.
    pub joints: Seq<char>,
    /// Whether the link at hand lost a collision.
    pub changed: bool,
}

/// What has been edited so far.
struct Edit {
    stats: RewriteStats,
    cuts: Vec<(usize, usize)>,
    links: String,
    joints: String,
    changed: bool,
}

/// The contents of a list of ranges.
pub open spec fn range_views(v: Seq<(usize, usize)>) -> Seq<(int, int)> {
    v.map_values(|r: (usize, usize)| (r.0 as int, r.1 as int))
}

impl View for Edit {
    type V = EditView;

    closed spec fn view(&self) -> EditView {
        EditView {
            stats: self.stats@,
            cuts: range_views(self.cuts@),
            links: self.links@,
            joints: self.joints@,
            changed: self.changed,
        }
    }
}

/// What the edits are made from: the text and its nodes, the prefix that the
/// root binds to Drake's namespace, and where spheres, skip reasons and colors
/// come from.
pub struct Scene {
    pub s: Seq<char>,
    pub nodes: Seq<NodeView>,
    pub bound: Option<Seq<char>>,
    pub found: spec_fn(Seq<char>, int) -> Result<Option<Seq<SphereView>>, ErrorView>,
    pub reason: spec_fn(Seq<char>, int) -> Seq<char>,
    pub color: spec_fn(Seq<char>) -> Seq<char>,
}

/// The edit with one more skipped item.
pub open spec fn with_skip(e: EditView, link: Seq<char>, index: int, reason: Seq<char>) -> EditView {
    EditView {
        stats: StatsView {
            skipped_pack_items: e.stats.skipped_pack_items.push((link, index, reason)),
            ..e.stats
        },
        ..e
    }
}

/// The skip reason for a collision that the link does not have.
pub open spec fn out_of_range(n: nat) -> Seq<char> {
    "collision_index out of range (link has "@ + text::decimal(n) + " collisions)"@
}

/// The edit with a collision replaced by spheres.
pub open spec fn with_spheres(
    e: EditView,
    link: Seq<char>,
    spheres: Seq<SphereView>,
    rgba: Seq<char>,
    drake: Option<Seq<char>>,
    cut: (int, int),
) -> EditView {
    EditView {
        stats: StatsView {
            mesh_collisions_replaced: e.stats.mesh_collisions_replaced + 1,
            sphere_children_added: e.stats.sphere_children_added + spheres.len(),
            ..e.stats
        },
        cuts: e.cuts.push(cut),
        links: e.links + sphere_links(link, spheres, rgba, drake, spheres.len() as int),
        joints: e.joints + sphere_joints(link, spheres, spheres.len() as int),
        changed: true,
    }
}

/// The edit after one item of the link whose collisions are `colls`.
pub open spec fn with_item(
    scene: Scene,
    e: EditView,
    link: Seq<char>,
    colls: Seq<int>,
    item: ItemView,
) -> Result<EditView, ErrorView> {
    let index = item.collision_index;
    if !(0 <= index < colls.len()) {
        if item.action is Pack {
            Ok(with_skip(e, link, index, out_of_range(colls.len())))
        } else {
            Ok(e)
        }
    } else {
        let target = colls[index];
        let (a, b) = span_of(scene.s, scene.nodes[target]);
        let cut = cut_at(scene.s, a, b);
        match item.action {
            Action::Pack => match (scene.found)(link, index) {
                Err(x) => Err(x),
                Ok(None) => Ok(with_skip(e, link, index, (scene.reason)(link, index))),
                Ok(Some(spheres)) => Ok(
                    with_spheres(
                        e,
                        link,
                        spheres,
                        (scene.color)(link),
                        drake_of(scene.s, scene.nodes, scene.bound, target),
                        cut,
                    ),
                ),
            },
            Action::RemovePrimitive => Ok(
                EditView {
                    stats: StatsView {
                        primitive_collisions_removed: e.stats.primitive_collisions_removed + 1,
                        ..e.stats
                    },
                    cuts: e.cuts.push(cut),
                    changed: true,
                    ..e
                },
            ),
            Action::RemoveAlreadySphere => Ok(
                EditView {
                    stats: StatsView {
                        sphere_collisions_removed: e.stats.sphere_collisions_removed + 1,
                        ..e.stats
                    },
                    cuts: e.cuts.push(cut),
                    changed: true,
                    ..e
                },
            ),
            Action::Error => Ok(e),
        }
    }
}

/// The edit after the items of one link, one after the other.
pub open spec fn with_items(
    scene: Scene,
    e: EditView,
    link: Seq<char>,
    colls: Seq<int>,
    items: Seq<ItemView>,
) -> Result<EditView, ErrorView>
    decreases items.len(),
{
    if items.len() == 0 {
        Ok(e)
    } else {
        match with_items(scene, e, link, colls, items.drop_last()) {
            Ok(m) => with_item(scene, m, link, colls, items.last()),
            Err(x) => Err(x),
        }
    }
}

/// The edit with every item that was to be packed skipped.
pub open spec fn with_skips(e: EditView, link: Seq<char>, items: Seq<ItemView>, reason: Seq<char>) -> EditView
    decreases items.len(),
{
    if items.len() == 0 {
        e
    } else {
        let m = with_skips(e, link, items.drop_last(), reason);
        if items.last().action is Pack {
            with_skip(m, link, items.last().collision_index, reason)
        } else {
            m
        }
    }
}

/// `v` with `x` put in its place: higher collision indices first, and after
/// those with the same index.
pub open spec fn insert_item(v: Seq<ItemView>, x: ItemView) -> Seq<ItemView>
    decreases v.len(),
{
    if v.len() == 0 || v.last().collision_index >= x.collision_index {
        v.push(x)
    } else {
        insert_item(v.drop_last(), x).push(v.last())
    }
}

/// The items from the highest collision index to the lowest.
pub open spec fn highest_first(items: Seq<ItemView>) -> Seq<ItemView>
    decreases items.len(),
{
    if items.len() == 0 {
        Seq::empty()
    } else {
        insert_item(highest_first(items.drop_last()), items.last())
    }
}

/// The test for links with any namespace below the root.
pub open spec fn is_any_link(nodes: Seq<NodeView>, root: int) -> spec_fn(int) -> bool {
    |j: int| xml::lies_below(nodes, j, root) && xml::is_named(nodes[j], "link"@)
}

/// The first of the link nodes, from position `k` on, that has the name.
pub open spec fn link_named(
    nodes: Seq<NodeView>,
    links: Seq<int>,
    name: Seq<char>,
    k: int,
) -> Option<int>
    decreases links.len() - k,
{
    if k < 0 || k >= links.len() {
        None
    } else if xml::attribute_of(nodes[links[k]], "name"@) == Some(name) {
        Some(links[k])
    } else {
        link_named(nodes, links, name, k + 1)
    }
}

/// The edit after the items of the link `name`.
pub open spec fn with_group(
    scene: Scene,
    e: EditView,
    links: Seq<int>,
    name: Seq<char>,
    items: Seq<ItemView>,
) -> Result<EditView, ErrorView> {
    match link_named(scene.nodes, links, name, 0) {
        None => Ok(with_skips(e, name, items, "link <"@ + name + "> not found in URDF"@)),
        Some(l) => {
            let colls = xml::children_of(scene.nodes, l, "collision"@);
            match with_items(
                scene,
                EditView { changed: false, ..e },
                name,
                colls,
                highest_first(items),
            ) {
                Err(x) => Err(x),
                Ok(m) => Ok(
                    EditView {
                        stats: StatsView {
                            links_with_collisions_replaced: m.stats.links_with_collisions_replaced
                                + (if m.changed {
                                1nat
                            } else {
                                0nat
                            }),
                            ..m.stats
                        },
                        ..m
                    },
                ),
            }
        },
    }
}

/// The items that change the text: all but the erroneous ones.
pub open spec fn actionable(items: Seq<ItemView>) -> Seq<ItemView> {
    items.filter(|c: ItemView| !(c.action is Error))
}

/// The link names of the items, each once, in the order of their first items.
pub open spec fn group_names(items: Seq<ItemView>) -> Seq<Seq<char>>
    decreases items.len(),
{
    if items.len() == 0 {
        Seq::empty()
    } else {
        let front = group_names(items.drop_last());
        if front.contains(items.last().link_name) {
            front
        } else {
            front.push(items.last().link_name)
        }
    }
}

/// The test for items of the link `name`.
pub open spec fn of_link(name: Seq<char>) -> spec_fn(ItemView) -> bool {
    |c: ItemView| c.link_name == name
}

/// The edit after the items of the named links, link by link.
pub open spec fn with_groups(
    scene: Scene,
    e: EditView,
    links: Seq<int>,
    items: Seq<ItemView>,
    names: Seq<Seq<char>>,
) -> Result<EditView, ErrorView>
    decreases names.len(),
{
    if names.len() == 0 {
        Ok(e)
    } else {
        match with_groups(scene, e, links, items, names.drop_last()) {
            Err(x) => Err(x),
            Ok(m) => with_group(
                scene,
                m,
                links,
                names.last(),
                items.filter(of_link(names.last())),
            ),
        }
    }
}

/// Nothing edited yet.
pub open spec fn no_edit() -> EditView {
    EditView {
        stats: StatsView {
            links_with_collisions_replaced: 0,
            mesh_collisions_replaced: 0,
            primitive_collisions_removed: 0,
            sphere_collisions_removed: 0,
            sphere_children_added: 0,
            skipped_pack_items: Seq::empty(),
        },
        cuts: Seq::empty(),
        links: Seq::empty(),
        joints: Seq::empty(),
        changed: false,
    }
}

/// All edits that the items of a report call for.
pub open spec fn edited(scene: Scene, items: Seq<ItemView>) -> Result<EditView, ErrorView> {
    let root = xml::root_of(scene.nodes)->0;
    let links = xml::select(scene.nodes.len(), is_any_link(scene.nodes, root));
    let acts = actionable(items);
    with_groups(scene, no_edit(), links, acts, group_names(acts))
}

impl Edit {
    /// The counters agree with the cuts.
    spec fn counted(&self) -> bool {
        &&& self.stats.mesh_collisions_replaced + self.stats.primitive_collisions_removed
            + self.stats.sphere_collisions_removed == self.cuts@.len()
        &&& self.stats.sphere_children_added <= self.stats.mesh_collisions_replaced * usize::MAX
    }

    /// Skip one item.
    fn skip(&mut self, link: &str, index: usize, reason: String)
        requires
            old(self).counted(),
        ensures
            final(self)@ == with_skip(old(self)@, link@, index as int, reason@),
            final(self).counted(),
            final(self).cuts@ == old(self).cuts@,
    {
        let ghost before = self@;
        let ghost r = reason@;
        self.stats.skipped_pack_items.push((String::from_str(link), index, reason));
        assert(self@.stats.skipped_pack_items =~= before.stats.skipped_pack_items.push(
            (link@, index as int, r),
        ));
    }

    /// Append the links and joints of the spheres.
    fn add_spheres(&mut self, link: &str, spheres: &[Sphere], rgba: &str, drake: &Option<String>)
        ensures
            final(self)@.links == old(self)@.links + sphere_links(
                link@,
                sphere_views(spheres@),
                rgba@,
                text::opt_text(*drake),
                spheres@.len() as int,
            ),
            final(self)@.joints == old(self)@.joints + sphere_joints(
                link@,
                sphere_views(spheres@),
                spheres@.len() as int,
            ),
            final(self).stats == old(self).stats,
            final(self).cuts == old(self).cuts,
            final(self).changed == old(self).changed,
    {
        let ghost v = sphere_views(spheres@);
        let ghost d = text::opt_text(*drake);
        let ghost l0 = self.links@;
        let ghost j0 = self.joints@;
        let ghost stats = self.stats;
        let ghost cuts = self.cuts;
        let ghost changed = self.changed;
        let mut k: usize = 0;
        assert(l0 + Seq::<char>::empty() =~= l0);
        assert(j0 + Seq::<char>::empty() =~= j0);
        while k < spheres.len()
            invariant
                k <= spheres.len(),
                v == sphere_views(spheres@),
                d == text::opt_text(*drake),
                self.stats == stats,
                self.cuts == cuts,
                self.changed == changed,
                self.links@ == l0 + sphere_links(link@, v, rgba@, d, k as int),
                self.joints@ == j0 + sphere_joints(link@, v, k as int),
            decreases spheres@.len() - k,
        {
            let mut child = String::from_str(link);
            child.append("_sphere");
            text::push_decimal(&mut child, k + 1);
            let s = &spheres[k];
            assert(v[k as int] == s@);
            let ghost a = sphere_links(link@, v, rgba@, d, k as int);
            let ghost b = sphere_joints(link@, v, k as int);
            let one = sphere_link(child.as_str(), s.radius.as_str(), rgba, drake);
            let joint = fixed_joint(link, child.as_str(), &s.at);
            self.links.append(one.as_str());
            self.joints.append(joint.as_str());
            assert(l0 + a + one@ =~= l0 + (a + one@));
            assert(j0 + b + joint@ =~= j0 + (b + joint@));
            k = k + 1;
        }
    }

    /// Cut a range.
    fn cut(&mut self, range: (usize, usize))
        ensures
            final(self)@ == (EditView {
                cuts: old(self)@.cuts.push((range.0 as int, range.1 as int)),
                changed: true,
                ..old(self)@
            }),
            final(self).cuts@ == old(self).cuts@.push(range),
            final(self).stats == old(self).stats,
            final(self).cuts@.len() <= usize::MAX,
    {
        let ghost before = self@;
        self.cuts.push(range);
        self.changed = true;
        assert(self@.cuts =~= before.cuts.push((range.0 as int, range.1 as int)));
        let n: usize = self.cuts.len();
    }
}

/// The color of a link: the one at its place among the packed links, from
/// position `k` on, or the base color.
pub open spec fn link_color(
    names: Seq<Seq<char>>,
    base: Seq<char>,
    colors: Seq<Seq<char>>,
    link: Seq<char>,
    k: int,
) -> Seq<char>
    decreases names.len() - k,
{
    if k < 0 || k >= names.len() {
        base
    } else if names[k] == link {
        if k < colors.len() {
            colors[k]
        } else {
            base
        }
    } else {
        link_color(names, base, colors, link, k + 1)
    }
}

/// The color of a link.
fn color_for(names: &[String], base: &str, colors: &[String], link: &str) -> (out: String)
    ensures
        out@ == link_color(text::texts(names@), base@, text::texts(colors@), link@, 0),
{
    let ghost t = text::texts(names@);
    let ghost c = text::texts(colors@);
    let mut k: usize = 0;
    while k < names.len()
        invariant
            k <= names@.len(),
            t == text::texts(names@),
            c == text::texts(colors@),
            link_color(t, base@, c, link@, 0) == link_color(t, base@, c, link@, k as int),
        decreases names@.len() - k,
    {
        if text::same(names[k].as_str(), link) {
            if k < colors.len() {
                assert(c[k as int] == colors@[k as int]@);
                return colors[k].clone();
            }
            return String::from_str(base);
        }
        k = k + 1;
    }
    String::from_str(base)
}

/// The scene of a rewrite: `names` are the packed links, in order.
pub open spec fn scene_of(
    s: Seq<char>,
    nodes: Seq<NodeView>,
    bound: Option<Seq<char>>,
    source: SourceView,
    names: Seq<Seq<char>>,
    base: Seq<char>,
    colors: Seq<Seq<char>>,
) -> Scene {
    Scene {
        s,
        nodes,
        bound,
        found: source.found,
        reason: source.reason,
        color: |link: Seq<char>| link_color(names, base, colors, link, 0),
    }
}

/// What a rewrite reads.
struct Input<'a, S: SphereSource> {
    cs: &'a [char],
    nodes: &'a [XmlNode],
    bound: &'a Option<String>,
    source: &'a S,
    names: &'a [String],
    base: &'a str,
    colors: &'a [String],
}

impl<'a, S: SphereSource> Input<'a, S> {
    /// The scene of the rewrite.
    spec fn scene(&self) -> Scene {
        scene_of(
            self.cs@,
            xml::views(self.nodes@),
            text::opt_text(*self.bound),
            source_view(self.source),
            text::texts(self.names@),
            self.base@,
            text::texts(self.colors@),
        )
    }

    /// Every element spans some text.
    spec fn sound(&self) -> bool {
        well_spanned(self.cs@, xml::views(self.nodes@))
    }

    /// Edit one item of the link whose collisions are `colls`.
    fn edit_item(&self, link: &str, colls: &[usize], item: &CollisionItem, e: &mut Edit) -> (res:
        Result<(), Error>)
        requires
            self.sound(),
            old(e).counted(),
            forall|k: int| 0 <= k < colls@.len() ==> #[trigger] colls@[k] < self.nodes@.len(),
        ensures
            match res {
                Ok(()) => with_item(self.scene(), old(e)@, link@, xml::ints(colls@), item@) == Ok::<
                    EditView,
                    ErrorView,
                >(final(e)@) && final(e).counted(),
                Err(x) => with_item(self.scene(), old(e)@, link@, xml::ints(colls@), item@)
                    == Err::<EditView, ErrorView>(x@),
            },
    {
        let ghost before = e@;
        let index: usize = item.collision_index;
        let n: usize = colls.len();
        if index >= n {
            if item.action == Action::Pack {
                let mut r = String::from_str("collision_index out of range (link has ");
                text::push_decimal(&mut r, n);
                r.append(" collisions)");
                e.skip(link, index, r);
            }
            return Ok(());
        }
        let target: usize = colls[index];
        proof {
            assert(xml::ints(colls@)[index as int] == target);
            assert(xml::views(self.nodes@)[target as int] == self.nodes@[target as int]@);
        }
        let (a, b) = span(self.cs, &self.nodes[target]);
        let range = cut_range(self.cs, a, b);
        match item.action {
            Action::Pack => {
                match self.source.spheres(link, index) {
                    Err(x) => {
                        return Err(x);
                    },
                    Ok(None) => {
                        let r = self.source.missing(link, index);
                        e.skip(link, index, r);
                    },
                    Ok(Some(spheres)) => {
                        let drake = drake_block(self.cs, self.nodes, self.bound, target);
                        let color = color_for(self.names, self.base, self.colors, link);
                        e.cut(range);
                        let count: usize = spheres.len();
                        proof {
                            let m = e.stats.mesh_collisions_replaced as int;
                            assert(m + 1 <= usize::MAX);
                            assert(m * usize::MAX + usize::MAX == (m + 1) * usize::MAX)
                                by (nonlinear_arith);
                            assert((m + 1) * usize::MAX <= u128::MAX) by (nonlinear_arith)
                                requires
                                    0 <= m + 1 <= u64::MAX,
                                    0 <= usize::MAX <= u64::MAX,
                            ;
                        }
                        e.stats.mesh_collisions_replaced = e.stats.mesh_collisions_replaced + 1;
                        e.stats.sphere_children_added = e.stats.sphere_children_added
                            + count as u128;
                        e.add_spheres(link, &spheres, color.as_str(), &drake);
                        proof {
                            let want = with_spheres(
                                before,
                                link@,
                                sphere_views(spheres@),
                                color@,
                                text::opt_text(drake),
                                (range.0 as int, range.1 as int),
                            );
                            assert(e@ =~= want);
                        }
                    },
                }
            },
            Action::RemovePrimitive => {
                e.cut(range);
                e.stats.primitive_collisions_removed = e.stats.primitive_collisions_removed + 1;
            },
            Action::RemoveAlreadySphere => {
                e.cut(range);
                e.stats.sphere_collisions_removed = e.stats.sphere_collisions_removed + 1;
            },
            Action::Error => {},
        }
        Ok(())
    }
}

/// An item that fails ends it, whatever follows.
proof fn lemma_items_fail(
    scene: Scene,
    e: EditView,
    link: Seq<char>,
    colls: Seq<int>,
    items: Seq<ItemView>,
    k: int,
)
    requires
        0 <= k <= items.len(),
        with_items(scene, e, link, colls, items.take(k)) is Err,
    ensures
        with_items(scene, e, link, colls, items) == with_items(scene, e, link, colls, items.take(k)),
    decreases items.len(),
{
    if k == items.len() {
        assert(items.take(k) =~= items);
    } else {
        assert(items.drop_last().take(k) =~= items.take(k));
        lemma_items_fail(scene, e, link, colls, items.drop_last(), k);
    }
}

/// A link that fails ends it, whatever follows.
proof fn lemma_groups_fail(
    scene: Scene,
    e: EditView,
    links: Seq<int>,
    items: Seq<ItemView>,
    names: Seq<Seq<char>>,
    k: int,
)
    requires
        0 <= k <= names.len(),
        with_groups(scene, e, links, items, names.take(k)) is Err,
    ensures
        with_groups(scene, e, links, items, names) == with_groups(
            scene,
            e,
            links,
            items,
            names.take(k),
        ),
    decreases names.len(),
{
    if k == names.len() {
        assert(names.take(k) =~= names);
    } else {
        assert(names.drop_last().take(k) =~= names.take(k));
        lemma_groups_fail(scene, e, links, items, names.drop_last(), k);
    }
}

/// Put `x` in its place: higher collision indices first.
fn add_highest_first(v: &mut Vec<CollisionItem>, x: CollisionItem)
    ensures
        inspect::item_views(final(v)@) == insert_item(inspect::item_views(old(v)@), x@),
{
    let ghost t = inspect::item_views(v@);
    let ghost y = x@;
    let mut k: usize = v.len();
    assert(t.take(k as int) =~= t);
    assert(insert_item(t, y) =~= insert_item(t.take(k as int), y) + t.skip(k as int));
    while k > 0 && v[k - 1].collision_index < x.collision_index
        invariant
            k <= v@.len(),
            t == inspect::item_views(v@),
            y == x@,
            insert_item(t, y) == insert_item(t.take(k as int), y) + t.skip(k as int),
        decreases k,
    {
        proof {
            let w = t.take(k as int);
            assert(w.last() == v@[k - 1]@);
            assert(w.drop_last() =~= t.take(k - 1));
            assert(insert_item(t.take(k - 1), y).push(w.last()) + t.skip(k as int) =~= insert_item(
                t.take(k - 1),
                y,
            ) + t.skip(k - 1));
        }
        k = k - 1;
    }
    v.insert(k, x);
    proof {
        if k > 0 {
            assert(t.take(k as int).last() == t[k - 1]);
        }
        assert(insert_item(t.take(k as int), y) =~= t.take(k as int).push(y));
        assert(inspect::item_views(v@) =~= t.take(k as int).push(y) + t.skip(k as int));
    }
}

/// The items that change the text.
fn actionable_items(items: &[CollisionItem]) -> (out: Vec<CollisionItem>)
    ensures
        inspect::item_views(out@) == actionable(inspect::item_views(items@)),
{
    let ghost all = inspect::item_views(items@);
    let ghost keep = |c: ItemView| !(c.action is Error);
    let mut out: Vec<CollisionItem> = Vec::new();
    let mut i: usize = 0;
    proof {
        reveal(Seq::filter);
        assert(inspect::item_views(out@) =~= all.take(0).filter(keep));
    }
    while i < items.len()
        invariant
            i <= items@.len(),
            all == inspect::item_views(items@),
            keep == (|c: ItemView| !(c.action is Error)),
            inspect::item_views(out@) == all.take(i as int).filter(keep),
        decreases items@.len() - i,
    {
        proof {
            assert(all.take(i + 1) =~= all.take(i as int).push(all[i as int]));
            all.take(i as int).lemma_filter_push(all[i as int], keep);
        }
        if items[i].action != Action::Error {
            let ghost seen = inspect::item_views(out@);
            out.push(items[i].clone());
            assert(inspect::item_views(out@) =~= seen.push(all[i as int]));
        }
        i = i + 1;
    }
    assert(all.take(i as int) =~= all);
    out
}

/// The link names of the items, each once, in the order of their first items.
fn names_of(items: &[CollisionItem]) -> (out: Vec<String>)
    ensures
        text::texts(out@) == group_names(inspect::item_views(items@)),
{
    let ghost all = inspect::item_views(items@);
    let mut out: Vec<String> = Vec::new();
    let mut i: usize = 0;
    assert(text::texts(out@) =~= Seq::<Seq<char>>::empty());
    while i < items.len()
        invariant
            i <= items@.len(),
            all == inspect::item_views(items@),
            text::texts(out@) == group_names(all.take(i as int)),
        decreases items@.len() - i,
    {
        proof {
            assert(all.take(i + 1).drop_last() =~= all.take(i as int));
            assert(all.take(i + 1).last() == items@[i as int]@);
        }
        if paths::position(&out, items[i].link_name.as_str()).is_none() {
            let ghost seen = text::texts(out@);
            out.push(items[i].link_name.clone());
            assert(text::texts(out@) =~= seen.push(items@[i as int]@.link_name));
        }
        i = i + 1;
    }
    assert(all.take(i as int) =~= all);
    out
}

/// The items of the link `name`, in order.
fn items_of_link(items: &[CollisionItem], name: &str) -> (out: Vec<CollisionItem>)
    ensures
        inspect::item_views(out@) == inspect::item_views(items@).filter(of_link(name@)),
{
    let ghost all = inspect::item_views(items@);
    let ghost keep = of_link(name@);
    let mut out: Vec<CollisionItem> = Vec::new();
    let mut i: usize = 0;
    proof {
        reveal(Seq::filter);
        assert(inspect::item_views(out@) =~= all.take(0).filter(keep));
    }
    while i < items.len()
        invariant
            i <= items@.len(),
            all == inspect::item_views(items@),
            keep == of_link(name@),
            inspect::item_views(out@) == all.take(i as int).filter(keep),
        decreases items@.len() - i,
    {
        proof {
            assert(all.take(i + 1) =~= all.take(i as int).push(all[i as int]));
            all.take(i as int).lemma_filter_push(all[i as int], keep);
        }
        if text::same(items[i].link_name.as_str(), name) {
            let ghost seen = inspect::item_views(out@);
            out.push(items[i].clone());
            assert(inspect::item_views(out@) =~= seen.push(all[i as int]));
        }
        i = i + 1;
    }
    assert(all.take(i as int) =~= all);
    out
}

/// The items from the highest collision index to the lowest.
fn sort_items(items: &[CollisionItem]) -> (out: Vec<CollisionItem>)
    ensures
        inspect::item_views(out@) == highest_first(inspect::item_views(items@)),
{
    let ghost all = inspect::item_views(items@);
    let mut out: Vec<CollisionItem> = Vec::new();
    let mut i: usize = 0;
    assert(inspect::item_views(out@) =~= Seq::<ItemView>::empty());
    while i < items.len()
        invariant
            i <= items@.len(),
            all == inspect::item_views(items@),
            inspect::item_views(out@) == highest_first(all.take(i as int)),
        decreases items@.len() - i,
    {
        proof {
            assert(all.take(i + 1).drop_last() =~= all.take(i as int));
            assert(all.take(i + 1).last() == items@[i as int]@);
        }
        add_highest_first(&mut out, items[i].clone());
        i = i + 1;
    }
    assert(all.take(i as int) =~= all);
    out
}

/// The links below the root, in any namespace.
fn all_links(nodes: &[XmlNode], root: usize) -> (out: Vec<usize>)
    ensures
        xml::ints(out@) == xml::select(
            nodes@.len(),
            is_any_link(xml::views(nodes@), root as int),
        ),
        forall|k: int| 0 <= k < out@.len() ==> #[trigger] out@[k] < nodes@.len(),
{
    let ghost keep = is_any_link(xml::views(nodes@), root as int);
    let inside = xml::below(nodes, root);
    let mut out: Vec<usize> = Vec::new();
    let mut j: usize = 0;
    assert(xml::ints(out@) =~= Seq::<int>::empty());
    while j < nodes.len()
        invariant
            j <= nodes@.len(),
            inside@.len() == nodes@.len(),
            forall|k: int|
                0 <= k < nodes@.len() ==> #[trigger] inside@[k] == xml::lies_below(
                    xml::views(nodes@),
                    k,
                    root as int,
                ),
            keep == is_any_link(xml::views(nodes@), root as int),
            xml::ints(out@) == xml::select(j as nat, keep),
            forall|k: int| 0 <= k < out@.len() ==> #[trigger] out@[k] < nodes@.len(),
        decreases nodes@.len() - j,
    {
        let ghost before = xml::ints(out@);
        proof {
            assert(xml::views(nodes@)[j as int] == nodes@[j as int]@);
            reveal_strlit("link");
        }
        if inside[j] && text::same(nodes[j].name.as_str(), "link") {
            out.push(j);
            assert(xml::ints(out@) =~= before.push(j as int));
        }
        j = j + 1;
    }
    out
}

/// The first of the link nodes that has the name.
fn find_link(nodes: &[XmlNode], links: &[usize], name: &str) -> (out: Option<usize>)
    requires
        forall|k: int| 0 <= k < links@.len() ==> #[trigger] links@[k] < nodes@.len(),
    ensures
        text::opt_int(out) == link_named(xml::views(nodes@), xml::ints(links@), name@, 0),
{
    let ghost v = xml::views(nodes@);
    let ghost ls = xml::ints(links@);
    let mut k: usize = 0;
    while k < links.len()
        invariant
            k <= links@.len(),
            v == xml::views(nodes@),
            ls == xml::ints(links@),
            forall|k: int| 0 <= k < links@.len() ==> #[trigger] links@[k] < nodes@.len(),
            link_named(v, ls, name@, 0) == link_named(v, ls, name@, k as int),
        decreases links@.len() - k,
    {
        let l: usize = links[k];
        assert(ls[k as int] == l);
        assert(v[l as int] == nodes@[l as int]@);
        let found = match xml::attribute(&nodes[l], "name") {
            Some(n) => text::same(n.as_str(), name),
            None => false,
        };
        if found {
            return Some(l);
        }
        k = k + 1;
    }
    None
}

impl<'a, S: SphereSource> Input<'a, S> {
    /// Edit the items of the link `name`.
    fn edit_group(&self, links: &[usize], name: &str, items: &[CollisionItem], e: &mut Edit) -> (res:
        Result<(), Error>)
        requires
            self.sound(),
            old(e).counted(),
            old(e).stats.links_with_collisions_replaced < usize::MAX,
            forall|k: int| 0 <= k < links@.len() ==> #[trigger] links@[k] < self.nodes@.len(),
        ensures
            match res {
                Ok(()) => with_group(
                    self.scene(),
                    old(e)@,
                    xml::ints(links@),
                    name@,
                    inspect::item_views(items@),
                ) == Ok::<EditView, ErrorView>(final(e)@) && final(e).counted()
                    && final(e).stats.links_with_collisions_replaced
                    <= old(e).stats.links_with_collisions_replaced + 1,
                Err(x) => with_group(
                    self.scene(),
                    old(e)@,
                    xml::ints(links@),
                    name@,
                    inspect::item_views(items@),
                ) == Err::<EditView, ErrorView>(x@),
            },
    {
        let ghost start = e@;
        match find_link(self.nodes, links, name) {
            None => {
                let mut reason = String::from_str("link <");
                reason.append(name);
                reason.append("> not found in URDF");
                let ghost all = inspect::item_views(items@);
                let mut i: usize = 0;
                while i < items.len()
                    invariant
                        i <= items@.len(),
                        all == inspect::item_views(items@),
                        e.counted(),
                        e@ == with_skips(start, name@, all.take(i as int), reason@),
                        e@.stats.links_with_collisions_replaced
                            == start.stats.links_with_collisions_replaced,
                    decreases items@.len() - i,
                {
                    proof {
                        assert(all.take(i + 1).drop_last() =~= all.take(i as int));
                        assert(all.take(i + 1).last() == items@[i as int]@);
                    }
                    if items[i].action == Action::Pack {
                        e.skip(name, items[i].collision_index, reason.clone());
                    }
                    i = i + 1;
                }
                assert(all.take(i as int) =~= all);
                Ok(())
            },
            Some(l) => {
                let colls = xml::children(self.nodes, l, "collision");
                let sorted = sort_items(items);
                e.changed = false;
                let ghost fresh = e@;
                let ghost all = inspect::item_views(sorted@);
                let mut i: usize = 0;
                assert(fresh =~= (EditView { changed: false, ..start }));
                while i < sorted.len()
                    invariant
                        i <= sorted@.len(),
                        self.sound(),
                        e.counted(),
                        all == inspect::item_views(sorted@),
                        forall|k: int|
                            0 <= k < colls@.len() ==> #[trigger] colls@[k] < self.nodes@.len(),
                        with_items(self.scene(), fresh, name@, xml::ints(colls@), all.take(i as int))
                            == Ok::<EditView, ErrorView>(e@),
                        e@.stats.links_with_collisions_replaced
                            == start.stats.links_with_collisions_replaced,
                        fresh == (EditView { changed: false, ..start }),
                        all == highest_first(inspect::item_views(items@)),
                        link_named(
                            xml::views(self.nodes@),
                            xml::ints(links@),
                            name@,
                            0,
                        ) == Some(l as int),
                        xml::ints(colls@) == xml::children_of(
                            xml::views(self.nodes@),
                            l as int,
                            "collision"@,
                        ),
                        start == old(e)@,
                    decreases sorted@.len() - i,
                {
                    proof {
                        assert(all.take(i + 1).drop_last() =~= all.take(i as int));
                        assert(all.take(i + 1).last() == sorted@[i as int]@);
                    }
                    match self.edit_item(name, &colls, &sorted[i], e) {
                        Ok(()) => {},
                        Err(x) => {
                            proof {
                                lemma_items_fail(
                                    self.scene(),
                                    fresh,
                                    name@,
                                    xml::ints(colls@),
                                    all,
                                    i + 1,
                                );
                            }
                            return Err(x);
                        },
                    }
                    i = i + 1;
                }
                assert(all.take(i as int) =~= all);
                if e.changed {
                    e.stats.links_with_collisions_replaced =
                        e.stats.links_with_collisions_replaced + 1;
                }
                Ok(())
            },
        }
    }

    /// Make all edits that the items call for.
    fn edit_all(&self, root: usize, items: &[CollisionItem]) -> (res: Result<Edit, Error>)
        requires
            self.sound(),
            xml::root_of(xml::views(self.nodes@)) == Some(root as int),
        ensures
            match res {
                Ok(e) => edited(self.scene(), inspect::item_views(items@)) == Ok::<
                    EditView,
                    ErrorView,
                >(e@),
                Err(x) => edited(self.scene(), inspect::item_views(items@)) == Err::<
                    EditView,
                    ErrorView,
                >(x@),
            },
    {
        let acts = actionable_items(items);
        let names = names_of(&acts);
        let links = all_links(self.nodes, root);
        let ghost t = text::texts(names@);
        let ghost ai = inspect::item_views(acts@);
        let ghost ls = xml::ints(links@);
        let mut e = Edit {
            stats: RewriteStats {
                links_with_collisions_replaced: 0,
                mesh_collisions_replaced: 0,
                primitive_collisions_removed: 0,
                sphere_collisions_removed: 0,
                sphere_children_added: 0,
                skipped_pack_items: Vec::new(),
            },
            cuts: Vec::new(),
            links: String::new(),
            joints: String::new(),
            changed: false,
        };
        assert(e@ =~= no_edit());
        let mut i: usize = 0;
        assert(t.take(0) =~= Seq::<Seq<char>>::empty());
        while i < names.len()
            invariant
                i <= names.len(),
                self.sound(),
                e.counted(),
                e.stats.links_with_collisions_replaced <= i,
                t == text::texts(names@),
                ai == inspect::item_views(acts@),
                ls == xml::ints(links@),
                ai == actionable(inspect::item_views(items@)),
                t == group_names(ai),
                ls == xml::select(
                    self.nodes@.len(),
                    is_any_link(xml::views(self.nodes@), root as int),
                ),
                xml::root_of(xml::views(self.nodes@)) == Some(root as int),
                forall|k: int| 0 <= k < links@.len() ==> #[trigger] links@[k] < self.nodes@.len(),
                with_groups(self.scene(), no_edit(), ls, ai, t.take(i as int)) == Ok::<
                    EditView,
                    ErrorView,
                >(e@),
            decreases names@.len() - i,
        {
            proof {
                assert(t.take(i + 1).drop_last() =~= t.take(i as int));
                assert(t.take(i + 1).last() == names@[i as int]@);
            }
            let group = items_of_link(&acts, names[i].as_str());
            match self.edit_group(&links, names[i].as_str(), &group, &mut e) {
                Ok(()) => {},
                Err(x) => {
                    proof {
                        lemma_groups_fail(self.scene(), no_edit(), ls, ai, t, i + 1);
                    }
                    return Err(x);
                },
            }
            i = i + 1;
        }
        assert(t.take(i as int) =~= t);
        Ok(e)
    }
}

/// `v` with the range `x` put in its place by where it starts.
pub open spec fn insert_cut(v: Seq<(int, int)>, x: (int, int)) -> Seq<(int, int)>
    decreases v.len(),
{
    if v.len() == 0 || v.last().0 <= x.0 {
        v.push(x)
    } else {
        insert_cut(v.drop_last(), x).push(v.last())
    }
}

/// The ranges in the order in which they start.
pub open spec fn sorted_cuts(cuts: Seq<(int, int)>) -> Seq<(int, int)>
    decreases cuts.len(),
{
    if cuts.len() == 0 {
        Seq::empty()
    } else {
        insert_cut(sorted_cuts(cuts.drop_last()), cuts.last())
    }
}

/// Put the range `x` in its place by where it starts.
fn add_cut(v: &mut Vec<(usize, usize)>, x: (usize, usize))
    ensures
        range_views(final(v)@) == insert_cut(range_views(old(v)@), (x.0 as int, x.1 as int)),
{
    let ghost t = range_views(v@);
    let ghost y = (x.0 as int, x.1 as int);
    let mut k: usize = v.len();
    assert(t.take(k as int) =~= t);
    assert(insert_cut(t, y) =~= insert_cut(t.take(k as int), y) + t.skip(k as int));
    while k > 0 && v[k - 1].0 > x.0
        invariant
            k <= v@.len(),
            t == range_views(v@),
            y == (x.0 as int, x.1 as int),
            insert_cut(t, y) == insert_cut(t.take(k as int), y) + t.skip(k as int),
        decreases k,
    {
        proof {
            let w = t.take(k as int);
            assert(w.last() == (v@[k - 1].0 as int, v@[k - 1].1 as int));
            assert(w.drop_last() =~= t.take(k - 1));
            assert(insert_cut(t.take(k - 1), y).push(w.last()) + t.skip(k as int) =~= insert_cut(
                t.take(k - 1),
                y,
            ) + t.skip(k - 1));
        }
        k = k - 1;
    }
    v.insert(k, x);
    proof {
        if k > 0 {
            assert(t.take(k as int).last() == t[k - 1]);
        }
        assert(insert_cut(t.take(k as int), y) =~= t.take(k as int).push(y));
        assert(range_views(v@) =~= t.take(k as int).push(y) + t.skip(k as int));
    }
}

/// The ranges in the order in which they start.
fn sort_cuts(cuts: &[(usize, usize)]) -> (out: Vec<(usize, usize)>)
    ensures
        range_views(out@) == sorted_cuts(range_views(cuts@)),
{
    let ghost all = range_views(cuts@);
    let mut out: Vec<(usize, usize)> = Vec::new();
    let mut i: usize = 0;
    assert(range_views(out@) =~= Seq::<(int, int)>::empty());
    while i < cuts.len()
        invariant
            i <= cuts@.len(),
            all == range_views(cuts@),
            range_views(out@) == sorted_cuts(all.take(i as int)),
        decreases cuts@.len() - i,
    {
        proof {
            assert(all.take(i + 1).drop_last() =~= all.take(i as int));
            assert(all.take(i + 1).last() == (cuts@[i as int].0 as int, cuts@[i as int].1 as int));
        }
        add_cut(&mut out, cuts[i]);
        i = i + 1;
    }
    assert(all.take(i as int) =~= all);
    out
}

/// Where the last of the cuts ends, or 0.
pub open spec fn cut_end(cuts: Seq<(int, int)>) -> int {
    if cuts.len() == 0 {
        0
    } else {
        cuts.last().1
    }
}

/// Whether each cut starts where or after the one before it ends, inside the
/// text.
pub open spec fn cuts_apart(s: Seq<char>, cuts: Seq<(int, int)>) -> bool
    decreases cuts.len(),
{
    cuts.len() == 0 || (cuts_apart(s, cuts.drop_last()) && cut_end(cuts.drop_last())
        <= cuts.last().0 <= s.len() && cuts.last().1 <= s.len())
}

/// What lies before and between the cuts.
pub open spec fn kept(s: Seq<char>, cuts: Seq<(int, int)>) -> Seq<char>
    decreases cuts.len(),
{
    if cuts.len() == 0 {
        Seq::empty()
    } else {
        kept(s, cuts.drop_last()) + s.subrange(cut_end(cuts.drop_last()), cuts.last().0)
    }
}

/// Whether the root's text is closed by `/>`.
pub open spec fn closes_itself(s: Seq<char>, root: NodeView) -> bool {
    text::ends(text_of(s, root), "/>"@)
}

/// Where new elements go: before the root's end tag.
pub open spec fn insert_point(s: Seq<char>, root: NodeView) -> Option<int> {
    let (a, b) = span_of(s, root);
    if closes_itself(s, root) {
        Some(b - 2)
    } else {
        match text::last_at(text_of(s, root), "</"@, b - a) {
            Some(i) => Some(a + i),
            None => None,
        }
    }
}

/// The XML declaration, for a text that lacks one.
pub open spec fn declaration(s: Seq<char>) -> Seq<char> {
    if text::begins(text::trim_start(s), "<?xml"@) {
        Seq::empty()
    } else {
        "<?xml version='1.0' encoding='utf-8'?>\n"@
    }
}

/// The text with the edits made: the cuts left out, and the new links and then
/// the new joints before the root's end tag.
pub open spec fn assembled(s: Seq<char>, root: NodeView, e: EditView) -> Seq<char> {
    let cuts = sorted_cuts(e.cuts);
    let at = insert_point(s, root)->0;
    let additions = e.links + e.joints;
    let body = declaration(s) + kept(s, cuts) + s.subrange(cut_end(cuts), at);
    if closes_itself(s, root) {
        body + ">\n"@ + additions + "</robot>"@ + s.skip(span_of(s, root).1)
    } else {
        body + (if additions.len() > 0 && (body.len() == 0 || body.last() != '\n') {
            seq!['\n']
        } else {
            Seq::empty()
        }) + additions + s.skip(at)
    }
}

/// Whether the edits can be made: the root's end tag can be found, and the
/// cuts neither overlap nor reach beyond it.
pub open spec fn can_assemble(s: Seq<char>, root: NodeView, e: EditView) -> bool {
    let cuts = sorted_cuts(e.cuts);
    insert_point(s, root) matches Some(at) && cuts_apart(s, cuts) && cut_end(cuts) <= at
}

/// Make the edits; `None` when they cannot be made.
fn splice(cs: &[char], root: &XmlNode, e: &Edit) -> (out: Option<String>)
    requires
        span_of(cs@, root@).0 < span_of(cs@, root@).1,
    ensures
        match out {
            Some(t) => can_assemble(cs@, root@, e@) && t@ == assembled(cs@, root@, e@),
            None => !can_assemble(cs@, root@, e@),
        },
{
    let n: usize = cs.len();
    let (a, b) = span(cs, root);
    let inner = text::to_chars(text::from_range(cs, a, b).as_str());
    assert(inner@ =~= text_of(cs@, root@));
    let closing = text::ends_with(&inner, "/>");
    proof {
        reveal_strlit("/>");
    }
    let at: usize = if closing {
        b - 2
    } else {
        match text::rfind(&inner, "</") {
            Some(i) => a + i,
            None => {
                return None;
            },
        }
    };
    let cuts = sort_cuts(&e.cuts);
    let ghost all = range_views(cuts@);
    let mut out = String::new();
    let first = text::skip_white(cs, 0);
    let p = text::to_chars("<?xml");
    let trimmed = text::to_chars(text::from_range(cs, first, n).as_str());
    assert(trimmed@ =~= text::trim_start(cs@));
    if !text::starts_with(&trimmed, "<?xml") {
        out.append("<?xml version='1.0' encoding='utf-8'?>\n");
    }
    assert(out@ =~= declaration(cs@));
    let ghost decl = out@;
    let mut pos: usize = 0;
    let mut i: usize = 0;
    assert(all.take(0) =~= Seq::<(int, int)>::empty());
    assert(out@ =~= decl + kept(cs@, all.take(0)));
    while i < cuts.len()
        invariant
            i <= cuts@.len(),
            n == cs@.len(),
            all == range_views(cuts@),
            all == sorted_cuts(e@.cuts),
            pos == cut_end(all.take(i as int)),
            pos <= n,
            cuts_apart(cs@, all.take(i as int)),
            out@ == decl + kept(cs@, all.take(i as int)),
        decreases cuts@.len() - i,
    {
        let (from, to) = cuts[i];
        proof {
            assert(all.take(i + 1).drop_last() =~= all.take(i as int));
            assert(all.take(i + 1).last() == (from as int, to as int));
        }
        if from < pos || from > n || to > n {
            proof {
                lemma_cuts_apart(cs@, all, i + 1);
            }
            return None;
        }
        let ghost before = kept(cs@, all.take(i as int));
        let piece = text::from_range(cs, pos, from);
        out.append(piece.as_str());
        assert(decl + before + piece@ =~= decl + (before + piece@));
        pos = to;
        i = i + 1;
    }
    assert(all.take(i as int) =~= all);
    if pos > at {
        return None;
    }
    out.append(text::from_range(cs, pos, at).as_str());
    let ghost body = out@;
    let mut additions = e.links.clone();
    additions.append(e.joints.as_str());
    if closing {
        out.append(">\n");
        out.append(additions.as_str());
        out.append("</robot>");
        let rest = text::from_range(cs, b, n);
        assert(rest@ =~= cs@.skip(b as int));
        out.append(rest.as_str());
    } else {
        let written = text::to_chars(out.as_str());
        if !additions.as_str().is_empty() && (written.len() == 0 || written[written.len() - 1]
            != '\n') {
            out.push('\n');
            assert(out@ =~= body + seq!['\n']);
        } else {
            assert(out@ =~= body + Seq::<char>::empty());
        }
        out.append(additions.as_str());
        let rest = text::from_range(cs, at, n);
        assert(rest@ =~= cs@.skip(at as int));
        out.append(rest.as_str());
    }
    Some(out)
}

/// Cuts that overlap somewhere are not apart.
proof fn lemma_cuts_apart(s: Seq<char>, cuts: Seq<(int, int)>, k: int)
    requires
        0 <= k <= cuts.len(),
        !cuts_apart(s, cuts.take(k)),
    ensures
        !cuts_apart(s, cuts),
    decreases cuts.len(),
{
    if k == cuts.len() {
        assert(cuts.take(k) =~= cuts);
    } else {
        assert(cuts.drop_last().take(k) =~= cuts.take(k));
        lemma_cuts_apart(s, cuts.drop_last(), k);
    }
}

/// The names of the links that are packed, each once, in the order of their
/// first items.
pub open spec fn packed_links(items: Seq<ItemView>) -> Seq<Seq<char>> {
    group_names(inspect::packed_items(items))
}

/// The names of the links that are packed, each once, in the order of their
/// first items. The hue of the spheres is spread over these links.
pub fn pack_links(report: &InspectionReport) -> (out: Vec<String>)
    ensures
        text::texts(out@) == packed_links(report@.collisions),
{
    let items = report.to_pack();
    names_of(&items)
}

/// The scene of rewriting the URDF `s` by a report on it.
pub open spec fn rewrite_scene(
    s: Seq<char>,
    nodes: Seq<NodeView>,
    bound: Option<Seq<char>>,
    report: inspect::ReportView,
    source: SourceView,
    base: Seq<char>,
    colors: Seq<Seq<char>>,
) -> Scene {
    scene_of(s, nodes, bound, source, packed_links(report.collisions), base, colors)
}

/// Whether the rewrite can be made: every element spans some text, and the
/// edits can be made.
pub open spec fn can_rewrite(scene: Scene, items: Seq<ItemView>) -> bool {
    &&& well_spanned(scene.s, scene.nodes)
    &&& edited(scene, items) matches Ok(e) ==> can_assemble(
        scene.s,
        scene.nodes[xml::root_of(scene.nodes)->0],
        e,
    )
}

/// The rewritten text and what changed.
pub open spec fn rewritten(scene: Scene, items: Seq<ItemView>) -> Result<
    (Seq<char>, StatsView),
    ErrorView,
> {
    match edited(scene, items) {
        Ok(e) => Ok(
            (
                assembled(scene.s, scene.nodes[xml::root_of(scene.nodes)->0], e),
                e.stats,
            ),
        ),
        Err(x) => Err(x),
    }
}

/// The rewrite of a parsed URDF: `nodes` are the nodes of `text` and `bound` is
/// the prefix that its root binds to Drake's namespace. `None` when the edits
/// overlap or the root's end tag cannot be found.
pub fn rewrite_document<S: SphereSource>(
    text: &str,
    nodes: &[XmlNode],
    bound: &Option<String>,
    report: &InspectionReport,
    source: &S,
    base_color: &str,
    link_colors: &[String],
) -> (out: Option<Result<(String, RewriteStats), Error>>)
    requires
        xml::root_of(xml::views(nodes@)) is Some,
    ensures
        ({
            let scene = rewrite_scene(
                text@,
                xml::views(nodes@),
                text::opt_text(*bound),
                report@,
                source_view(source),
                base_color@,
                text::texts(link_colors@),
            );
            let items = report@.collisions;
            match out {
                None => !can_rewrite(scene, items),
                Some(Ok((t, stats))) => can_rewrite(scene, items) && rewritten(scene, items) == Ok::<
                    (Seq<char>, StatsView),
                    ErrorView,
                >((t@, stats@)),
                Some(Err(x)) => can_rewrite(scene, items) && rewritten(scene, items) == Err::<
                    (Seq<char>, StatsView),
                    ErrorView,
                >(x@),
            }
        }),
{
    let cs = text::to_chars(text);
    let root = match xml::root_element(nodes) {
        Some(r) => r,
        None => {
            return None;
        },
    };
    if !all_spanned(&cs, nodes) {
        return None;
    }
    let names = pack_links(report);
    let input = Input { cs: &cs, nodes, bound, source, names: &names, base: base_color, colors: link_colors };
    let ghost v = xml::views(nodes@);
    proof {
        assert(v[root as int] == nodes@[root as int]@);
        let keep = xml::is_top(v);
        xml::lemma_select(v.len(), keep);
        let tops = xml::select(v.len(), keep);
        assert(tops.contains(tops[0]));
        assert(xml::is_element(v[root as int]));
    }
    match input.edit_all(root, &report.collisions) {
        Err(x) => Some(Err(x)),
        Ok(e) => match splice(&cs, &nodes[root], &e) {
            None => None,
            Some(t) => Some(Ok((t, e.stats))),
        },
    }
}

/// Whether the URDF `s` can be rewritten: it does not parse, which is an error,
/// or the rewrite can be made.
pub open spec fn can_rewrite_urdf(
    s: Seq<char>,
    report: inspect::ReportView,
    source: SourceView,
    base: Seq<char>,
    colors: Seq<Seq<char>>,
) -> bool {
    match xml::parsed_xml(s, true) {
        Err(_) => true,
        Ok(nodes) => can_rewrite(
            rewrite_scene(
                s,
                nodes,
                xml::root_prefix_of(s, drake_ns()),
                report,
                source,
                base,
                colors,
            ),
            report.collisions,
        ),
    }
}

/// The rewritten URDF and what changed, or the error.
pub open spec fn rewritten_urdf(
    s: Seq<char>,
    report: inspect::ReportView,
    source: SourceView,
    base: Seq<char>,
    colors: Seq<Seq<char>>,
) -> Result<(Seq<char>, StatsView), ErrorView> {
    match xml::parsed_xml(s, true) {
        Err(e) => Err(ErrorView::Invalid("URDF is not valid XML: "@ + e)),
        Ok(nodes) => rewritten(
            rewrite_scene(
                s,
                nodes,
                xml::root_prefix_of(s, drake_ns()),
                report,
                source,
                base,
                colors,
            ),
            report.collisions,
        ),
    }
}

/// Whether `res` is the rewritten URDF and what changed, or the error.
pub open spec fn is_rewrite(
    res: Result<(String, RewriteStats), Error>,
    want: Result<(Seq<char>, StatsView), ErrorView>,
) -> bool {
    match res {
        Ok((t, stats)) => want == Ok::<(Seq<char>, StatsView), ErrorView>((t@, stats@)),
        Err(e) => want == Err::<(Seq<char>, StatsView), ErrorView>(e@),
    }
}

/// Whether `out` is the rewritten URDF and what changed, or the error; `None` where the
/// rewrite cannot be made.
pub open spec fn rewrites(
    out: Option<Result<(String, RewriteStats), Error>>,
    s: Seq<char>,
    report: inspect::ReportView,
    source: SourceView,
    base: Seq<char>,
    colors: Seq<Seq<char>>,
) -> bool {
    match out {
        None => !can_rewrite_urdf(s, report, source, base, colors),
        Some(res) => can_rewrite_urdf(s, report, source, base, colors) && is_rewrite(
            res,
            rewritten_urdf(s, report, source, base, colors),
        ),
    }
}

/// Rewrite the URDF `text` (the file `report` describes) with the spheres from
/// `source`: the new text and what changed. Pack items whose spheres are
/// missing (or whose link or collision cannot be found) are left in place and
/// listed in [`RewriteStats::skipped_pack_items`]. The spheres of the links
/// that [`pack_links`] lists have the colors `link_colors`, in that order, or
/// `base_color` where there is none.
///
/// The collisions to remove must not overlap: no item may be listed twice, and
/// no link may lie inside a collision of another. [`try_rewrite_urdf_text`]
/// tests for that.
pub fn rewrite_urdf_text<S: SphereSource>(
    text: &str,
    report: &InspectionReport,
    source: &S,
    base_color: &str,
    link_colors: &[String],
) -> (res: Result<(String, RewriteStats), Error>)
    requires
        can_rewrite_urdf(
            text@,
            report@,
            source_view(source),
            base_color@,
            text::texts(link_colors@),
        ),
    ensures
        is_rewrite(
            res,
            rewritten_urdf(
                text@,
                report@,
                source_view(source),
                base_color@,
                text::texts(link_colors@),
            ),
        ),
{
    let nodes = match xml::parse_xml(text, true) {
        Ok(nodes) => nodes,
        Err(e) => {
            let mut m = String::from_str("URDF is not valid XML: ");
            m.append(e.as_str());
            return Err(Error::Invalid(m));
        },
    };
    let bound = xml::root_prefix(text, "http://drake.mit.edu");
    match rewrite_document(text, &nodes, &bound, report, source, base_color, link_colors) {
        Some(res) => res,
        None => Err(Error::Invalid(String::new())),
    }
}

/// [`rewrite_urdf_text`], or `None` when the collisions to remove overlap or
/// the root's end tag cannot be found.
pub fn try_rewrite_urdf_text<S: SphereSource>(
    text: &str,
    report: &InspectionReport,
    source: &S,
    base_color: &str,
    link_colors: &[String],
) -> (out: Option<Result<(String, RewriteStats), Error>>)
    ensures
        ({
            let colors = text::texts(link_colors@);
            rewrites(out, text@, report@, source_view(source), base_color@, colors)
        }),
{
    match xml::parse_xml(text, true) {
        Ok(nodes) => {
            let bound = xml::root_prefix(text, "http://drake.mit.edu");
            if rewrite_document(text, &nodes, &bound, report, source, base_color, link_colors).is_none() {
                return None;
            }
        },
        Err(_) => {},
    }
    Some(rewrite_urdf_text(text, report, source, base_color, link_colors))
}

/// What a cut takes besides the element is blank: spaces, tabs and line breaks.
pub proof fn cuts_take_only_the_element_and_blanks(s: Seq<char>, start: int, end: int)
    requires
        0 <= start <= end <= s.len(),
    ensures
        ({
            let (a, b) = cut_at(s, start, end);
            0 <= a <= start && end <= b <= s.len() && is_blank(s.subrange(a, start)) && is_blank(
                s.subrange(end, b),
            )
        }),
{
    text::lemma_last_char(s, '\n', start);
    text::lemma_first_char(s, '\n', end);
    assert(s.subrange(start, start) =~= Seq::<char>::empty());
    assert(s.subrange(end, end) =~= Seq::<char>::empty());
}

/// The cuts of two elements that follow each other do not overlap, since an
/// element neither starts nor ends with a blank.
pub proof fn cuts_of_separate_elements_do_not_overlap(
    s: Seq<char>,
    start: int,
    end: int,
    next_start: int,
    next_end: int,
)
    requires
        0 <= start < end <= next_start < next_end <= s.len(),
        !blank_char(s[end - 1]),
        !blank_char(s[next_start]),
    ensures
        cut_at(s, start, end).1 <= cut_at(s, next_start, next_end).0,
{
    let (a, b) = cut_at(s, start, end);
    let (c, d) = cut_at(s, next_start, next_end);
    cuts_take_only_the_element_and_blanks(s, start, end);
    cuts_take_only_the_element_and_blanks(s, next_start, next_end);
    text::lemma_first_char(s, '\n', end);
    text::lemma_last_char(s, '\n', next_start);
    if b > next_start {
        assert(blank_char(s.subrange(end, b)[next_start - end]));
    }
    if c < end {
        assert(blank_char(s.subrange(c, next_start)[end - 1 - c]));
    }
    if b > c {
        // Both cuts took whole lines, and those lines are different ones: the
        // first ends with the break at `b - 1`, so the second starts after it.
        assert(b > end);
        assert(s[b - 1] == '\n' || b == s.len());
        assert(c < next_start);
        assert(b - 1 < next_start);
        if s[b - 1] == '\n' {
            match text::last_char(s, '\n', next_start) {
                Some(i) => {
                    assert(i >= b - 1);
                },
                None => {},
            }
        }
    }
}

/// A rewrite that has nothing to edit keeps the text and only adds a missing
/// XML declaration.
pub proof fn nothing_to_edit_keeps_the_text(s: Seq<char>, root: NodeView)
    requires
        can_assemble(s, root, no_edit()),
        !closes_itself(s, root),
        0 <= span_of(s, root).0 <= span_of(s, root).1 <= s.len(),
    ensures
        assembled(s, root, no_edit()) == declaration(s) + s,
{
    let (a, b) = span_of(s, root);
    let at = insert_point(s, root)->0;
    text::lemma_last_at(text_of(s, root), "</"@, b - a);
    let e = no_edit();
    assert(sorted_cuts(e.cuts) =~= Seq::<(int, int)>::empty());
    assert(kept(s, sorted_cuts(e.cuts)) =~= Seq::<char>::empty());
    let body = declaration(s) + kept(s, sorted_cuts(e.cuts)) + s.subrange(0, at);
    assert((e.links + e.joints).len() == 0);
    assert(assembled(s, root, e) =~= body + Seq::<char>::empty() + (e.links + e.joints) + s.skip(at));
    assert(s.subrange(0, at) + s.skip(at) =~= s);
    assert(assembled(s, root, e) =~= declaration(s) + s);
}

/// Escaped text holds no character that would end an attribute or open or
/// close a tag.
pub proof fn escaped_text_is_inert(s: Seq<char>)
    ensures
        !escaped(s).contains('<') && !escaped(s).contains('>') && !escaped(s).contains('"'),
    decreases s.len(),
{
    let f = |c: char| escaped_char(c);
    if s.len() == 0 {
        assert(s.map_values(f) =~= Seq::<Seq<char>>::empty());
        assert(escaped(s) =~= Seq::<char>::empty());
    } else {
        let front = s.drop_last();
        escaped_text_is_inert(front);
        assert(front.push(s.last()) =~= s);
        front.lemma_flat_map_push(f, s.last());
        let x = escaped_char(s.last());
        reveal_strlit("&amp;");
        reveal_strlit("&lt;");
        reveal_strlit("&gt;");
        reveal_strlit("&quot;");
        assert(!x.contains('<') && !x.contains('>') && !x.contains('"'));
        assert(escaped(s) == escaped(front) + x);
        assert forall|c: char| (c == '<' || c == '>' || c == '"') implies !(escaped(front)
            + x).contains(c) by {
            let whole = escaped(front) + x;
            if whole.contains(c) {
                let k = choose|k: int| 0 <= k < whole.len() && whole[k] == c;
                if k < escaped(front).len() {
                    assert(escaped(front)[k] == c);
                } else {
                    assert(x[k - escaped(front).len()] == c);
                }
            }
        }
    }
}

/// How many of the items are to be packed.
pub open spec fn pack_count(items: Seq<ItemView>) -> nat {
    inspect::packed_items(items).len()
}

/// How many pack items an edit has dealt with.
pub open spec fn settled(e: EditView) -> nat {
    e.stats.mesh_collisions_replaced + e.stats.skipped_pack_items.len()
}

proof fn lemma_pack_push(items: Seq<ItemView>, x: ItemView)
    ensures
        pack_count(items.push(x)) == pack_count(items) + (if x.action is Pack {
            1nat
        } else {
            0nat
        }),
{
    items.lemma_filter_push(x, |c: ItemView| c.action is Pack);
}

proof fn lemma_pack_empty()
    ensures
        pack_count(Seq::<ItemView>::empty()) == 0,
{
    reveal(Seq::filter);
}

/// Every item that is gone through settles one pack item, if it is one, and
/// adds one cut for each collision that it removes.
proof fn lemma_items_settle(
    scene: Scene,
    e: EditView,
    link: Seq<char>,
    colls: Seq<int>,
    items: Seq<ItemView>,
)
    ensures
        with_items(scene, e, link, colls, items) matches Ok(m) ==> settled(m) == settled(e)
            + pack_count(items) && m.cuts.len() - removed(m) == e.cuts.len() - removed(e),
    decreases items.len(),
{
    if items.len() == 0 {
        lemma_pack_empty();
        assert(items =~= Seq::<ItemView>::empty());
    } else {
        lemma_items_settle(scene, e, link, colls, items.drop_last());
        lemma_pack_push(items.drop_last(), items.last());
        assert(items.drop_last().push(items.last()) =~= items);
    }
}

/// How many collisions an edit has removed.
pub open spec fn removed(e: EditView) -> nat {
    e.stats.mesh_collisions_replaced + e.stats.primitive_collisions_removed
        + e.stats.sphere_collisions_removed
}

proof fn lemma_skips_settle(e: EditView, link: Seq<char>, items: Seq<ItemView>, reason: Seq<char>)
    ensures
        settled(with_skips(e, link, items, reason)) == settled(e) + pack_count(items),
        with_skips(e, link, items, reason).cuts == e.cuts,
        removed(with_skips(e, link, items, reason)) == removed(e),
    decreases items.len(),
{
    if items.len() == 0 {
        lemma_pack_empty();
        assert(items =~= Seq::<ItemView>::empty());
    } else {
        lemma_skips_settle(e, link, items.drop_last(), reason);
        lemma_pack_push(items.drop_last(), items.last());
        assert(items.drop_last().push(items.last()) =~= items);
    }
}

proof fn lemma_insert_item_count(v: Seq<ItemView>, x: ItemView)
    ensures
        pack_count(insert_item(v, x)) == pack_count(v.push(x)),
    decreases v.len(),
{
    if !(v.len() == 0 || v.last().collision_index >= x.collision_index) {
        let f = v.drop_last();
        lemma_insert_item_count(f, x);
        lemma_pack_push(insert_item(f, x), v.last());
        lemma_pack_push(f, x);
        lemma_pack_push(f, v.last());
        lemma_pack_push(v, x);
        assert(f.push(v.last()) =~= v);
    }
}

proof fn lemma_sorting_keeps_count(items: Seq<ItemView>)
    ensures
        pack_count(highest_first(items)) == pack_count(items),
    decreases items.len(),
{
    if items.len() > 0 {
        let f = items.drop_last();
        lemma_sorting_keeps_count(f);
        lemma_insert_item_count(highest_first(f), items.last());
        lemma_pack_push(highest_first(f), items.last());
        lemma_pack_push(f, items.last());
        assert(f.push(items.last()) =~= items);
    }
}

/// The pack items of the named links, counted link by link.
spec fn grouped_count(items: Seq<ItemView>, names: Seq<Seq<char>>) -> nat
    decreases names.len(),
{
    if names.len() == 0 {
        0
    } else {
        grouped_count(items, names.drop_last()) + pack_count(items.filter(of_link(names.last())))
    }
}

proof fn lemma_groups_settle(
    scene: Scene,
    e: EditView,
    links: Seq<int>,
    items: Seq<ItemView>,
    names: Seq<Seq<char>>,
)
    ensures
        with_groups(scene, e, links, items, names) matches Ok(m) ==> settled(m) == settled(e)
            + grouped_count(items, names) && m.cuts.len() - removed(m) == e.cuts.len() - removed(e),
    decreases names.len(),
{
    if names.len() > 0 {
        lemma_groups_settle(scene, e, links, items, names.drop_last());
        if let Ok(m) = with_groups(scene, e, links, items, names.drop_last()) {
            let name = names.last();
            let group = items.filter(of_link(name));
            match link_named(scene.nodes, links, name, 0) {
                None => {
                    lemma_skips_settle(m, name, group, "link <"@ + name + "> not found in URDF"@);
                },
                Some(l) => {
                    let colls = xml::children_of(scene.nodes, l, "collision"@);
                    lemma_items_settle(
                        scene,
                        EditView { changed: false, ..m },
                        name,
                        colls,
                        highest_first(group),
                    );
                    lemma_sorting_keeps_count(group);
                },
            }
        }
    }
}

proof fn lemma_names_distinct(items: Seq<ItemView>)
    ensures
        group_names(items).no_duplicates(),
        forall|i: int|
            0 <= i < items.len() ==> group_names(items).contains(#[trigger] items[i].link_name),
    decreases items.len(),
{
    if items.len() > 0 {
        let f = items.drop_last();
        let x = items.last().link_name;
        lemma_names_distinct(f);
        let front = group_names(f);
        let all = group_names(items);
        assert forall|i: int| 0 <= i < items.len() implies all.contains(
            #[trigger] items[i].link_name,
        ) by {
            if i < f.len() {
                assert(front.contains(f[i].link_name));
                let k = choose|k: int| 0 <= k < front.len() && front[k] == f[i].link_name;
                assert(all[k] == items[i].link_name);
            } else if !front.contains(x) {
                assert(all[all.len() - 1] == x);
            }
        }
    }
}

/// One more item counts for its link, once.
proof fn lemma_grouped_push(items: Seq<ItemView>, x: ItemView, names: Seq<Seq<char>>)
    requires
        names.no_duplicates(),
    ensures
        grouped_count(items.push(x), names) == grouped_count(items, names) + (if x.action is Pack
            && names.contains(x.link_name) {
            1nat
        } else {
            0nat
        }),
    decreases names.len(),
{
    if names.len() > 0 {
        let f = names.drop_last();
        let name = names.last();
        assert(f.no_duplicates()) by {
            assert forall|i: int, j: int| 0 <= i < f.len() && 0 <= j < f.len() && i != j implies f[i]
                != f[j] by {
                assert(names[i] != names[j]);
            }
        }
        lemma_grouped_push(items, x, f);
        items.lemma_filter_push(x, of_link(name));
        if x.link_name == name {
            lemma_pack_push(items.filter(of_link(name)), x);
            assert(names[names.len() - 1] == name);
            if f.contains(name) {
                let k = choose|k: int| 0 <= k < f.len() && f[k] == name;
                assert(names[k] == names[names.len() - 1]);
            }
        } else {
            if names.contains(x.link_name) {
                let k = choose|k: int| 0 <= k < names.len() && names[k] == x.link_name;
                assert(f[k] == x.link_name);
            }
            if f.contains(x.link_name) {
                let k = choose|k: int| 0 <= k < f.len() && f[k] == x.link_name;
                assert(names[k] == x.link_name);
            }
        }
    }
}

proof fn lemma_grouped_empty(names: Seq<Seq<char>>)
    ensures
        grouped_count(Seq::<ItemView>::empty(), names) == 0,
    decreases names.len(),
{
    if names.len() > 0 {
        lemma_grouped_empty(names.drop_last());
        reveal(Seq::filter);
        assert(Seq::<ItemView>::empty().filter(of_link(names.last())) =~= Seq::<ItemView>::empty());
        lemma_pack_empty();
    }
}

/// Counting link by link counts every item whose link is named.
proof fn lemma_grouped_all(items: Seq<ItemView>, names: Seq<Seq<char>>)
    requires
        names.no_duplicates(),
        forall|i: int| 0 <= i < items.len() ==> names.contains(#[trigger] items[i].link_name),
    ensures
        grouped_count(items, names) == pack_count(items),
    decreases items.len(),
{
    if items.len() == 0 {
        assert(items =~= Seq::<ItemView>::empty());
        lemma_grouped_empty(names);
        lemma_pack_empty();
    } else {
        let f = items.drop_last();
        assert forall|i: int| 0 <= i < f.len() implies names.contains(
            #[trigger] f[i].link_name,
        ) by {
            assert(f[i] == items[i]);
        }
        lemma_grouped_all(f, names);
        lemma_grouped_push(f, items.last(), names);
        lemma_pack_push(f, items.last());
        assert(f.push(items.last()) =~= items);
        assert(names.contains(items[items.len() - 1].link_name));
    }
}

proof fn lemma_actionable_packs(items: Seq<ItemView>)
    ensures
        pack_count(actionable(items)) == pack_count(items),
    decreases items.len(),
{
    let keep = |c: ItemView| !(c.action is Error);
    if items.len() == 0 {
        reveal(Seq::filter);
        assert(actionable(items) =~= Seq::<ItemView>::empty());
        assert(items =~= Seq::<ItemView>::empty());
    } else {
        let f = items.drop_last();
        lemma_actionable_packs(f);
        f.lemma_filter_push(items.last(), keep);
        assert(f.push(items.last()) =~= items);
        lemma_pack_push(f, items.last());
        lemma_pack_push(actionable(f), items.last());
    }
}

/// Every item that was to be packed is either replaced by its spheres or
/// listed as skipped, and the text loses one range for each collision that is
/// counted as replaced or removed.
pub proof fn every_pack_item_is_replaced_or_skipped(scene: Scene, items: Seq<ItemView>)
    ensures
        edited(scene, items) matches Ok(e) ==> e.stats.mesh_collisions_replaced
            + e.stats.skipped_pack_items.len() == inspect::packed_items(items).len()
            && e.cuts.len() == e.stats.mesh_collisions_replaced
            + e.stats.primitive_collisions_removed + e.stats.sphere_collisions_removed,
{
    let root = xml::root_of(scene.nodes)->0;
    let links = xml::select(scene.nodes.len(), is_any_link(scene.nodes, root));
    let acts = actionable(items);
    let names = group_names(acts);
    lemma_groups_settle(scene, no_edit(), links, acts, names);
    lemma_names_distinct(acts);
    lemma_grouped_all(acts, names);
    lemma_actionable_packs(items);
}

/// Centers and radii of a sphere JSON, numbers as JSON writes them.
#[derive(Debug)]
pub struct SphereSet {
    pub centers: Vec<Triple>,
    pub radii: Vec<String>,
}

/// The contents of a [`SphereSet`].
#[verifier::ext_equal]
pub struct SphereSetView {
    pub centers: Seq<TripleView>,
    pub radii: Seq<Seq<char>>,
}

/// The contents of a list of triples.
pub open spec fn triple_views(v: Seq<Triple>) -> Seq<TripleView> {
    v.map_values(|t: Triple| t@)
}

impl View for SphereSet {
    type V = SphereSetView;

    open spec fn view(&self) -> SphereSetView {
        SphereSetView { centers: triple_views(self.centers@), radii: text::texts(self.radii@) }
    }
}

/// Whether every row holds three numbers.
pub open spec fn rows_of_three(rows: Seq<Seq<Seq<char>>>) -> bool {
    forall|i: int| 0 <= i < rows.len() ==> (#[trigger] rows[i]).len() == 3
}

/// The triple that a row of three is.
pub open spec fn row_triple(row: Seq<Seq<char>>) -> TripleView {
    TripleView { x: row[0], y: row[1], z: row[2] }
}

/// What [`load_spheres_str`] makes of the parsed members: `rows` is what the
/// text gives for `centers`, `list` for `radii`.
pub open spec fn sphere_set(
    rows: Result<Option<Seq<Seq<Seq<char>>>>, Seq<char>>,
    list: Result<Option<Seq<Seq<char>>>, Seq<char>>,
    name: Seq<char>,
) -> Result<SphereSetView, ErrorView> {
    match (rows, list) {
        (Err(e), _) => Err(ErrorView::Io(name + ": "@ + e)),
        (_, Err(e)) => Err(ErrorView::Io(name + ": "@ + e)),
        (Ok(Some(c)), Ok(Some(r))) => if !rows_of_three(c) {
            Err(ErrorView::Io(name + ": missing or malformed centers/radii"@))
        } else if c.len() != r.len() {
            Err(
                ErrorView::Io(
                    name + ": centers ("@ + text::decimal(c.len()) + ") and radii ("@
                        + text::decimal(r.len()) + ") length mismatch"@,
                ),
            )
        } else {
            Ok(SphereSetView { centers: c.map_values(|row: Seq<Seq<char>>| row_triple(row)), radii: r })
        },
        _ => Err(ErrorView::Io(name + ": missing or malformed centers/radii"@)),
    }
}

/// The contents of parsed rows.
pub open spec fn rows_view(rows: Result<Option<Vec<Vec<String>>>, String>) -> Result<
    Option<Seq<Seq<Seq<char>>>>,
    Seq<char>,
> {
    match rows {
        Ok(Some(r)) => Ok(Some(json::row_views(r@))),
        Ok(None) => Ok(None),
        Err(e) => Err(e@),
    }
}

/// The contents of a parsed list.
pub open spec fn list_view(list: Result<Option<Vec<String>>, String>) -> Result<
    Option<Seq<Seq<char>>>,
    Seq<char>,
> {
    match list {
        Ok(Some(r)) => Ok(Some(text::texts(r@))),
        Ok(None) => Ok(None),
        Err(e) => Err(e@),
    }
}

/// `name: message`, as an I/O error.
fn labelled(name: &str, message: &str) -> (out: Error)
    ensures
        out@ == ErrorView::Io(name@ + ": "@ + message@),
{
    let mut m = String::from_str(name);
    m.append(": ");
    m.append(message);
    Error::Io(m)
}

/// The error for centers or radii that are missing or malformed.
fn malformed(name: &str) -> (out: Error)
    ensures
        out@ == ErrorView::Io(name@ + ": missing or malformed centers/radii"@),
{
    let mut m = String::from_str(name);
    m.append(": missing or malformed centers/radii");
    Error::Io(m)
}

/// The centers in rows of three numbers; `None` when a row has another length.
fn make_centers(rows: &[Vec<String>]) -> (out: Option<Vec<Triple>>)
    ensures
        match out {
            Some(c) => rows_of_three(json::row_views(rows@)) && triple_views(c@)
                == json::row_views(rows@).map_values(|row: Seq<Seq<char>>| row_triple(row)),
            None => !rows_of_three(json::row_views(rows@)),
        },
{
    let ghost c = json::row_views(rows@);
    let ghost f = |row: Seq<Seq<char>>| row_triple(row);
    let mut centers: Vec<Triple> = Vec::new();
    let mut i: usize = 0;
    while i < rows.len()
        invariant
            i <= rows@.len(),
            c == json::row_views(rows@),
            f == (|row: Seq<Seq<char>>| row_triple(row)),
            centers@.len() == i,
            forall|j: int| 0 <= j < i ==> (#[trigger] c[j]).len() == 3,
            forall|j: int| 0 <= j < i ==> (#[trigger] centers@[j])@ == f(c[j]),
        decreases rows@.len() - i,
    {
        assert(c[i as int] == text::texts(rows@[i as int]@));
        if rows[i].len() != 3 {
            return None;
        }
        let t = Triple { x: rows[i][0].clone(), y: rows[i][1].clone(), z: rows[i][2].clone() };
        assert(t@ == f(c[i as int]));
        centers.push(t);
        i = i + 1;
    }
    assert(triple_views(centers@) =~= c.map_values(f));
    Some(centers)
}

/// The spheres that the parsed `centers` and `radii` of a text make; `name`
/// labels the errors.
pub fn make_sphere_set(
    rows: Result<Option<Vec<Vec<String>>>, String>,
    list: Result<Option<Vec<String>>, String>,
    name: &str,
) -> (res: Result<SphereSet, Error>)
    ensures
        match res {
            Ok(s) => sphere_set(rows_view(rows), list_view(list), name@) == Ok::<
                SphereSetView,
                ErrorView,
            >(s@),
            Err(e) => sphere_set(rows_view(rows), list_view(list), name@) == Err::<
                SphereSetView,
                ErrorView,
            >(e@),
        },
{
    let rows: Option<Vec<Vec<String>>> = match rows {
        Ok(r) => r,
        Err(e) => return Err(labelled(name, e.as_str())),
    };
    let list: Option<Vec<String>> = match list {
        Ok(r) => r,
        Err(e) => return Err(labelled(name, e.as_str())),
    };
    let (rows, radii) = match (rows, list) {
        (Some(r), Some(l)) => (r, l),
        _ => return Err(malformed(name)),
    };
    let centers = match make_centers(&rows) {
        Some(c) => c,
        None => return Err(malformed(name)),
    };
    assert(triple_views(centers@).len() == json::row_views(rows@).len());
    assert(text::texts(radii@).len() == radii@.len());
    if centers.len() != radii.len() {
        let mut m = String::from_str(name);
        m.append(": centers (");
        text::push_decimal(&mut m, centers.len());
        m.append(") and radii (");
        text::push_decimal(&mut m, radii.len());
        m.append(") length mismatch");
        return Err(Error::Io(m));
    }
    Ok(SphereSet { centers, radii })
}

/// The spheres of a sphere JSON (`{"centers": [[x, y, z], ...], "radii":
/// [...]}`); `name` labels the errors.
pub fn load_spheres_str(text: &str, name: &str) -> (res: Result<SphereSet, Error>)
    ensures
        match res {
            Ok(s) => sphere_set(
                json::json_rows(text@, "centers"@),
                json::json_list(text@, "radii"@),
                name@,
            ) == Ok::<SphereSetView, ErrorView>(s@),
            Err(e) => sphere_set(
                json::json_rows(text@, "centers"@),
                json::json_list(text@, "radii"@),
                name@,
            ) == Err::<SphereSetView, ErrorView>(e@),
        },
{
    make_sphere_set(json::rows_at(text, "centers"), json::list_at(text, "radii"), name)
}

/// Loaded centers and radii come in pairs, and every center has three
/// coordinates in the text.
pub proof fn loaded_spheres_are_paired(
    rows: Result<Option<Seq<Seq<Seq<char>>>>, Seq<char>>,
    list: Result<Option<Seq<Seq<char>>>, Seq<char>>,
    name: Seq<char>,
)
    ensures
        sphere_set(rows, list, name) matches Ok(s) ==> s.centers.len() == s.radii.len()
            && rows_of_three(rows->Ok_0->0) && s.centers.len() == rows->Ok_0->0.len(),
{
}

} // verus!
