//! Path helpers for uploaded robot packages.

use vstd::prelude::*;

use crate::text;
use crate::{py_repr, Error, ErrorView};

verus! {

/// Whether a path component counts: empty ones and `.` do not.
pub open spec fn is_part(p: Seq<char>) -> bool {
    p.len() > 0 && p != seq!['.']
}

/// The components of a slash-separated path.
pub open spec fn path_parts(s: Seq<char>) -> Seq<Seq<char>> {
    text::split(s, '/').filter(|p: Seq<char>| is_part(p))
}

/// The components of the slash-separated path `cs`.
pub fn parts_of(cs: &[char]) -> (out: Vec<String>)
    ensures
        text::texts(out@) == path_parts(cs@),
{
    let all = text::split_char(cs, '/');
    let ghost t = text::texts(all@);
    let ghost keep = |p: Seq<char>| is_part(p);
    let mut out: Vec<String> = Vec::new();
    let mut i: usize = 0;
    proof {
        reveal(Seq::filter);
        assert(text::texts(out@) =~= t.take(0).filter(keep));
    }
    while i < all.len()
        invariant
            i <= all@.len(),
            t == text::texts(all@),
            keep == (|p: Seq<char>| is_part(p)),
            text::texts(out@) == t.take(i as int).filter(keep),
        decreases all@.len() - i,
    {
        let p = all[i].as_str();
        proof {
            assert(t.take(i + 1) =~= t.take(i as int).push(t[i as int]));
            t.take(i as int).lemma_filter_push(t[i as int], keep);
            reveal_strlit(".");
            assert("."@ =~= seq!['.']);
        }
        if !p.is_empty() && !text::same(p, ".") {
            let ghost seen = text::texts(out@);
            out.push(all[i].clone());
            assert(text::texts(out@) =~= seen.push(t[i as int]));
        }
        i = i + 1;
    }
    assert(t.take(i as int) =~= t);
    out
}

/// Whether the first component starts with a drive letter.
pub open spec fn has_drive(parts: Seq<Seq<char>>) -> bool {
    parts.len() > 0 && parts[0].len() >= 2 && (parts[0][0] as u32) < 128 && parts[0][1] == ':'
}

/// An upload's relative path with slashes only, and none at its start.
pub open spec fn slashed(rel: Seq<char>) -> Seq<char> {
    let s = text::replace_char(rel, '\\', '/');
    s.skip(text::after_char(s, '/', 0))
}

/// The components of an upload's relative path, or why it is refused.
pub open spec fn normalized(rel: Seq<char>) -> Result<Seq<Seq<char>>, ErrorView> {
    let norm = slashed(rel);
    let parts = path_parts(norm);
    if norm.len() == 0 {
        Err(ErrorView::Invalid("Empty upload filename."@))
    } else if parts.len() == 0 || has_drive(parts) || parts.contains(seq!['.', '.']) {
        Err(ErrorView::Invalid("Bad upload path: "@ + crate::repr(norm)))
    } else {
        Ok(parts)
    }
}

/// The position of `name` in `items`.
pub fn position(items: &[String], name: &str) -> (at: Option<usize>)
    ensures
        at is Some == text::texts(items@).contains(name@),
        at matches Some(i) ==> i < items@.len() && items@[i as int]@ == name@ && (forall|j: int|
            0 <= j < i ==> (#[trigger] items@[j])@ != name@),
{
    let mut i: usize = 0;
    while i < items.len()
        invariant
            i <= items@.len(),
            forall|j: int| 0 <= j < i ==> (#[trigger] items@[j])@ != name@,
        decreases items@.len() - i,
    {
        if text::same(items[i].as_str(), name) {
            assert(text::texts(items@)[i as int] == name@);
            return Some(i);
        }
        i = i + 1;
    }
    assert(!text::texts(items@).contains(name@)) by {
        assert forall|j: int| 0 <= j < items@.len() implies text::texts(items@)[j] != name@ by {
            assert(text::texts(items@)[j] == items@[j]@);
        }
    }
    None
}

/// The components of an upload's relative path (the browser's
/// `webkitRelativePath`): backslashes become slashes, leading slashes, empty
/// and `.` components are dropped, and anything that could escape the
/// package (`..`, drive letters) is refused with the API's messages.
pub fn normalize_rel(rel: &str) -> (res: Result<Vec<String>, Error>)
    ensures
        match res {
            Ok(parts) => normalized(rel@) == Ok::<Seq<Seq<char>>, ErrorView>(text::texts(parts@)),
            Err(e) => normalized(rel@) == Err::<Seq<Seq<char>>, ErrorView>(e@),
        },
{
    let all = text::replaced(rel, '\\', '/');
    let start = text::skip_char(&all, '/', 0);
    let norm = text::from_range(&all, start, all.len());
    assert(norm@ =~= slashed(rel@));
    let cs = text::to_chars(norm.as_str());
    if cs.len() == 0 {
        return Err(Error::Invalid(String::from_str("Empty upload filename.")));
    }
    let parts = parts_of(&cs);
    let mut drive: bool = false;
    if parts.len() > 0 {
        let first = text::to_chars(parts[0].as_str());
        drive = first.len() >= 2 && (first[0] as u32) < 128 && first[1] == ':';
    }
    proof {
        reveal_strlit("..");
        assert(".."@ =~= seq!['.', '.']);
        if parts@.len() > 0 {
            assert(text::texts(parts@)[0] == parts@[0]@);
        }
    }
    if parts.len() == 0 || drive || position(&parts, "..").is_some() {
        let mut m = String::from_str("Bad upload path: ");
        m.append(py_repr(norm.as_str()).as_str());
        return Err(Error::Invalid(m));
    }
    Ok(parts)
}

/// The path `base` with the component `part` below it.
pub open spec fn pushed(base: Seq<char>, part: Seq<char>) -> Seq<char> {
    if base.len() == 0 {
        part
    } else if base.last() == '/' {
        base + part
    } else {
        base.push('/') + part
    }
}

/// The path `base` with the components `parts` below it.
pub open spec fn joined(base: Seq<char>, parts: Seq<Seq<char>>) -> Seq<char>
    decreases parts.len(),
{
    if parts.len() == 0 {
        base
    } else {
        pushed(joined(base, parts.drop_last()), parts.last())
    }
}

/// The path `base` with the component `part` below it.
pub fn push_part(base: &str, part: &str) -> (out: String)
    ensures
        out@ == pushed(base@, part@),
{
    let cs = text::to_chars(base);
    let mut out = String::from_str(base);
    if cs.len() > 0 && cs[cs.len() - 1] != '/' {
        out.push('/');
    }
    out.append(part);
    assert(out@ =~= pushed(base@, part@));
    out
}

/// Join an upload's relative path onto `base`, refusing anything that could
/// land outside it. Drive letters are rejected on every system.
pub fn safe_join(base: &str, rel: &str) -> (res: Result<String, Error>)
    ensures
        match res {
            Ok(path) => normalized(rel@) matches Ok(parts) && path@ == joined(base@, parts),
            Err(e) => normalized(rel@) == Err::<Seq<Seq<char>>, ErrorView>(e@),
        },
{
    match normalize_rel(rel) {
        Err(e) => Err(e),
        Ok(parts) => {
            let mut out = String::from_str(base);
            let mut i: usize = 0;
            while i < parts.len()
                invariant
                    i <= parts@.len(),
                    out@ == joined(base@, text::texts(parts@).take(i as int)),
                decreases parts@.len() - i,
            {
                proof {
                    let t = text::texts(parts@);
                    assert(t.take(i + 1).drop_last() =~= t.take(i as int));
                    assert(t.take(i + 1).last() == parts@[i as int]@);
                }
                out = push_part(out.as_str(), parts[i].as_str());
                i = i + 1;
            }
            assert(text::texts(parts@).take(i as int) =~= text::texts(parts@));
            Ok(out)
        },
    }
}

/// The components left when the components are followed one by one: `.` stays,
/// `..` goes up; `None` when that would leave the root.
pub open spec fn lexical(parts: Seq<Seq<char>>) -> Option<Seq<Seq<char>>>
    decreases parts.len(),
{
    if parts.len() == 0 {
        Some(Seq::empty())
    } else {
        let p = parts.last();
        match lexical(parts.drop_last()) {
            None => None,
            Some(at) => if p.len() == 0 || p == seq!['.'] {
                Some(at)
            } else if p == seq!['.', '.'] {
                if at.len() == 0 {
                    None
                } else {
                    Some(at.drop_last())
                }
            } else {
                Some(at.push(p))
            },
        }
    }
}

/// What [`join_lexical`] gives.
pub open spec fn lexical_join(dir: Seq<char>, rel: Seq<char>) -> Option<Seq<char>> {
    match lexical(text::split(dir, '/') + text::split(rel, '/')) {
        None => None,
        Some(at) => Some(text::join(at, seq!['/'])),
    }
}

/// A walk that has left the root stays outside.
proof fn lemma_lexical_none(parts: Seq<Seq<char>>, k: int)
    requires
        0 <= k <= parts.len(),
        lexical(parts.take(k)) is None,
    ensures
        lexical(parts) is None,
    decreases parts.len(),
{
    if k == parts.len() {
        assert(parts.take(k) =~= parts);
    } else {
        assert(parts.drop_last().take(k) =~= parts.take(k));
        lemma_lexical_none(parts.drop_last(), k);
    }
}

/// Resolve `rel` against the directory `dir` of a slash-separated relative
/// path, lexically: `.` is dropped and `..` removes a component. `None` if
/// the result would leave the root.
pub fn join_lexical(dir: &str, rel: &str) -> (out: Option<String>)
    ensures
        text::opt_text(out) == lexical_join(dir@, rel@),
{
    let dc = text::to_chars(dir);
    let rc = text::to_chars(rel);
    let mut parts = text::split_char(&dc, '/');
    let mut more = text::split_char(&rc, '/');
    let ghost t = text::texts(parts@) + text::texts(more@);
    parts.append(&mut more);
    assert(text::texts(parts@) =~= t);
    let mut at: Vec<String> = Vec::new();
    let mut i: usize = 0;
    assert(text::texts(at@) =~= Seq::<Seq<char>>::empty());
    while i < parts.len()
        invariant
            i <= parts@.len(),
            t == text::texts(parts@),
            t == text::split(dir@, '/') + text::split(rel@, '/'),
            lexical(t.take(i as int)) == Some(text::texts(at@)),
        decreases parts@.len() - i,
    {
        let p = parts[i].as_str();
        proof {
            assert(t.take(i + 1).drop_last() =~= t.take(i as int));
            assert(t.take(i + 1).last() == p@);
            reveal_strlit(".");
            reveal_strlit("..");
            assert("."@ =~= seq!['.']);
            assert(".."@ =~= seq!['.', '.']);
        }
        let ghost before = text::texts(at@);
        if p.is_empty() || text::same(p, ".") {
        } else if text::same(p, "..") {
            if at.len() == 0 {
                proof {
                    lemma_lexical_none(t, i + 1);
                }
                return None;
            }
            at.pop();
            assert(text::texts(at@) =~= before.drop_last());
        } else {
            at.push(parts[i].clone());
            assert(text::texts(at@) =~= before.push(p@));
        }
        i = i + 1;
    }
    proof {
        assert(t.take(i as int) =~= t);
        reveal_strlit("/");
        assert("/"@ =~= seq!['/']);
    }
    Some(text::join_with(&at, "/"))
}

/// The directory part of a slash-separated relative path.
pub open spec fn parent(rel: Seq<char>) -> Seq<char> {
    match text::last_char(rel, '/', rel.len() as int) {
        Some(i) => rel.take(i),
        None => Seq::empty(),
    }
}

/// The directory part of a slash-separated relative path (`""` at the root).
pub fn parent_rel(rel: &str) -> (out: &str)
    ensures
        out@ == parent(rel@),
{
    let cs = text::to_chars(rel);
    match text::rfind_char(&cs, '/', cs.len()) {
        Some(i) => rel.substring_char(0, i),
        None => {
            proof {
                reveal_strlit("");
                assert(""@ =~= Seq::<char>::empty());
            }
            ""
        },
    }
}

/// The text without a leading `prefix`.
pub open spec fn without_prefix(s: Seq<char>, prefix: Seq<char>) -> Option<Seq<char>> {
    if text::begins(s, prefix) {
        Some(s.skip(prefix.len() as int))
    } else {
        None
    }
}

/// The text without a leading `prefix`.
pub fn strip_prefix(s: &str, prefix: &str) -> (out: Option<String>)
    ensures
        text::opt_text(out) == without_prefix(s@, prefix@),
{
    let cs = text::to_chars(s);
    let p = text::to_chars(prefix);
    if text::matches_at(&cs, &p, 0) {
        let rest = text::from_range(&cs, p.len(), cs.len());
        assert(rest@ =~= s@.skip(prefix@.len() as int));
        Some(rest)
    } else {
        None
    }
}

/// A resolved path without the verbatim prefix that Windows gives it.
pub open spec fn plain_path(p: Seq<char>) -> Seq<char> {
    match without_prefix(p, "\\\\?\\UNC\\"@) {
        Some(rest) => "\\\\"@ + rest,
        None => match without_prefix(p, "\\\\?\\"@) {
            Some(rest) => rest,
            None => p,
        },
    }
}

/// A resolved path without the verbatim prefix that Windows gives it.
pub fn strip_verbatim(p: &str) -> (out: String)
    ensures
        out@ == plain_path(p@),
{
    match strip_prefix(p, "\\\\?\\UNC\\") {
        Some(rest) => {
            let mut out = String::from_str("\\\\");
            out.append(rest.as_str());
            out
        },
        None => match strip_prefix(p, "\\\\?\\") {
            Some(rest) => rest,
            None => String::from_str(p),
        },
    }
}

/// Whether `path` is absolute.
pub open spec fn absolute(path: Seq<char>) -> bool {
    path.len() > 0 && path[0] == '/'
}

/// Whether the resolved `path` is `root` or lies below it.
pub open spec fn below(path: Seq<char>, root: Seq<char>) -> bool {
    &&& absolute(path) == absolute(root)
    &&& path_parts(root).is_prefix_of(path_parts(path))
}

/// Whether a path lies inside a root, both given as they resolve (`None` for
/// one that does not resolve).
pub fn is_within(path: Option<&str>, root: Option<&str>) -> (inside: bool)
    ensures
        inside == (path is Some && root is Some && below(path->0@, root->0@)),
{
    match (path, root) {
        (Some(p), Some(r)) => {
            let pc = text::to_chars(p);
            let rc = text::to_chars(r);
            let pa = pc.len() > 0 && pc[0] == '/';
            let ra = rc.len() > 0 && rc[0] == '/';
            let ps = parts_of(&pc);
            let rs = parts_of(&rc);
            if pa != ra || rs.len() > ps.len() {
                return false;
            }
            let ghost tp = text::texts(ps@);
            let ghost tr = text::texts(rs@);
            let mut i: usize = 0;
            while i < rs.len()
                invariant
                    i <= rs@.len() <= ps@.len(),
                    path == Some(p),
                    root == Some(r),
                    tp == text::texts(ps@),
                    tr == text::texts(rs@),
                    tr == path_parts(r@),
                    tp == path_parts(p@),
                    forall|j: int| 0 <= j < i ==> tr[j] == tp[j],
                decreases rs@.len() - i,
            {
                if !text::same(rs[i].as_str(), ps[i].as_str()) {
                    assert(tp.subrange(0, tr.len() as int)[i as int] != tr[i as int]);
                    return false;
                }
                i = i + 1;
            }
            assert(tr =~= tp.subrange(0, tr.len() as int));
            true
        },
        _ => false,
    }
}

/// The last component of a path, unless it is `..` or there is none.
pub open spec fn base_name(path: Seq<char>) -> Option<Seq<char>> {
    let parts = path_parts(path);
    if parts.len() == 0 || parts.last() == seq!['.', '.'] {
        None
    } else {
        Some(parts.last())
    }
}

/// The position of the dot before a file name's extension.
pub open spec fn dot_at(name: Seq<char>) -> Option<int> {
    match text::last_char(name, '.', name.len() as int) {
        Some(i) => if i > 0 {
            Some(i)
        } else {
            None
        },
        None => None,
    }
}

/// The extension of the file that `path` names.
pub open spec fn path_extension(path: Seq<char>) -> Option<Seq<char>> {
    match base_name(path) {
        Some(name) => match dot_at(name) {
            Some(i) => Some(name.skip(i + 1)),
            None => None,
        },
        None => None,
    }
}

/// The name of the file that `path` names, without its extension.
pub open spec fn path_stem(path: Seq<char>) -> Option<Seq<char>> {
    match base_name(path) {
        Some(name) => match dot_at(name) {
            Some(i) => Some(name.take(i)),
            None => Some(name),
        },
        None => None,
    }
}

/// The last component of a path, unless it is `..` or there is none.
pub fn file_name(path: &str) -> (name: Option<String>)
    ensures
        text::opt_text(name) == base_name(path@),
{
    let cs = text::to_chars(path);
    let parts = parts_of(&cs);
    let ghost t = text::texts(parts@);
    if parts.len() == 0 {
        return None;
    }
    proof {
        reveal_strlit("..");
        assert(".."@ =~= seq!['.', '.']);
        assert(t.last() == parts@[parts@.len() - 1]@);
    }
    let last = &parts[parts.len() - 1];
    if text::same(last.as_str(), "..") {
        None
    } else {
        Some(last.clone())
    }
}

/// The extension of the file that `path` names.
pub fn extension(path: &str) -> (ext: Option<String>)
    ensures
        text::opt_text(ext) == path_extension(path@),
{
    match file_name(path) {
        None => None,
        Some(name) => {
            let cs = text::to_chars(name.as_str());
            match text::rfind_char(&cs, '.', cs.len()) {
                Some(i) => if i > 0 {
                    let ext = text::from_range(&cs, i + 1, cs.len());
                    assert(ext@ =~= name@.skip(i + 1));
                    Some(ext)
                } else {
                    None
                },
                None => None,
            }
        },
    }
}

/// The name of the file that `path` names, without its extension.
pub fn file_stem_of(path: &str) -> (stem: Option<String>)
    ensures
        text::opt_text(stem) == path_stem(path@),
{
    match file_name(path) {
        None => None,
        Some(name) => {
            let cs = text::to_chars(name.as_str());
            match text::rfind_char(&cs, '.', cs.len()) {
                Some(i) => if i > 0 {
                    let stem = text::from_range(&cs, 0, i);
                    assert(stem@ =~= name@.take(i as int));
                    Some(stem)
                } else {
                    Some(name)
                },
                None => Some(name),
            }
        },
    }
}

/// Whether a component is an ordinary name: not empty, `.` or `..`, and
/// without slashes.
pub open spec fn plain_part(p: Seq<char>) -> bool {
    is_part(p) && p != seq!['.', '.'] && !p.contains('/')
}

/// Every component of a path counts and holds no slash.
pub proof fn lemma_path_parts(s: Seq<char>)
    ensures
        forall|i: int|
            0 <= i < path_parts(s).len() ==> is_part(#[trigger] path_parts(s)[i])
                && !path_parts(s)[i].contains('/'),
{
    let keep = |p: Seq<char>| is_part(p);
    let all = text::split(s, '/');
    let got = path_parts(s);
    text::lemma_split_pieces(s, text::is_char('/'));
    assert forall|i: int| 0 <= i < got.len() implies is_part(#[trigger] got[i])
        && !got[i].contains('/') by {
        all.lemma_filter_pred(keep, i);
        assert(got.contains(got[i]));
        all.lemma_filter_contains_rev(keep, got[i]);
        let j = choose|j: int| 0 <= j < all.len() && all[j] == got[i];
        if got[i].contains('/') {
            let k = choose|k: int| 0 <= k < got[i].len() && got[i][k] == '/';
            assert(!text::is_char('/')(all[j][k]));
        }
    }
}

/// An accepted upload path has only ordinary components: none is empty, `.`
/// or `..`, and none holds a slash.
pub proof fn normalized_parts_are_plain(rel: Seq<char>)
    ensures
        normalized(rel) matches Ok(parts) ==> parts.len() > 0 && !has_drive(parts) && (forall|i: int|
            0 <= i < parts.len() ==> plain_part(#[trigger] parts[i])),
{
    if let Ok(parts) = normalized(rel) {
        lemma_path_parts(slashed(rel));
        assert forall|i: int| 0 <= i < parts.len() implies plain_part(#[trigger] parts[i]) by {
            if parts[i] == seq!['.', '.'] {
                assert(parts.contains(seq!['.', '.']));
            }
        }
    }
}

/// No component of an accepted upload path holds a backslash.
proof fn lemma_no_backslash(rel: Seq<char>)
    ensures
        forall|i: int|
            0 <= i < path_parts(slashed(rel)).len() ==> !(#[trigger] path_parts(
                slashed(rel),
            )[i]).contains('\\'),
{
    let s = slashed(rel);
    let all = text::split(s, '/');
    let keep = |p: Seq<char>| is_part(p);
    let got = path_parts(s);
    assert forall|k: int| 0 <= k < s.len() implies s[k] != '\\' by {
        let full = text::replace_char(rel, '\\', '/');
        lemma_after_char(full, '/', 0);
        let at = text::after_char(full, '/', 0);
        assert(s[k] == full[at + k]);
    }
    lemma_pieces_chars(s, text::is_char('/'));
    assert forall|i: int| 0 <= i < got.len() implies !(#[trigger] got[i]).contains('\\') by {
        assert(got.contains(got[i]));
        all.lemma_filter_contains_rev(keep, got[i]);
        let j = choose|j: int| 0 <= j < all.len() && all[j] == got[i];
        if got[i].contains('\\') {
            let k = choose|k: int| 0 <= k < got[i].len() && got[i][k] == '\\';
            assert(s.contains(all[j][k]));
        }
    }
}

/// `after_char` stays inside the text.
proof fn lemma_after_char(s: Seq<char>, c: char, from: int)
    requires
        0 <= from <= s.len(),
    ensures
        from <= text::after_char(s, c, from) <= s.len(),
    decreases s.len() - from,
{
    if from < s.len() && s[from] == c {
        lemma_after_char(s, c, from + 1);
    }
}

/// The characters of the pieces are characters of the text.
proof fn lemma_pieces_chars(s: Seq<char>, sep: spec_fn(char) -> bool)
    ensures
        forall|i: int, k: int|
            0 <= i < text::split_on(s, sep).len() && 0 <= k < text::split_on(s, sep)[i].len()
                ==> s.contains(#[trigger] text::split_on(s, sep)[i][k]),
    decreases s.len(),
{
    if s.len() > 0 {
        let f = s.drop_last();
        let front = text::split_on(f, sep);
        let all = text::split_on(s, sep);
        text::lemma_split_nonempty(f, sep);
        lemma_pieces_chars(f, sep);
        assert forall|i: int, k: int| 0 <= i < all.len() && 0 <= k < all[i].len() implies s.contains(
            #[trigger] all[i][k],
        ) by {
            if i < front.len() && k < front[i].len() {
                assert(all[i][k] == front[i][k]);
                assert(f.contains(front[i][k]));
                let m = choose|m: int| 0 <= m < f.len() && f[m] == front[i][k];
                assert(s[m] == all[i][k]);
            } else {
                assert(s[s.len() - 1] == all[i][k]);
            }
        }
    }
}

/// A key of ordinary components, joined by slashes, splits into them again.
pub proof fn lemma_key_parts(parts: Seq<Seq<char>>)
    requires
        parts.len() > 0,
        forall|i: int| 0 <= i < parts.len() ==> plain_part(#[trigger] parts[i]),
    ensures
        path_parts(text::join(parts, seq!['/'])) == parts,
{
    let keep = |p: Seq<char>| is_part(p);
    text::lemma_split_join(parts, '/');
    lemma_filter_all(parts, keep);
}

/// Filtering keeps everything when everything passes.
pub proof fn lemma_filter_all<A>(s: Seq<A>, keep: spec_fn(A) -> bool)
    requires
        forall|i: int| 0 <= i < s.len() ==> keep(#[trigger] s[i]),
    ensures
        s.filter(keep) == s,
    decreases s.len(),
{
    reveal(Seq::filter);
    if s.len() > 0 {
        let f = s.drop_last();
        assert forall|i: int| 0 <= i < f.len() implies keep(#[trigger] f[i]) by {
            assert(f[i] == s[i]);
        }
        lemma_filter_all(f, keep);
        assert(keep(s[s.len() - 1]));
        assert(f.push(s.last()) =~= s);
    }
}

/// Normalizing is idempotent: the key of an accepted upload path is accepted
/// and has the same components.
pub proof fn normalizing_twice_changes_nothing(rel: Seq<char>)
    ensures
        normalized(rel) matches Ok(parts) ==> normalized(text::join(parts, seq!['/'])) == Ok::<
            Seq<Seq<char>>,
            ErrorView,
        >(parts),
{
    if let Ok(parts) = normalized(rel) {
        let key = text::join(parts, seq!['/']);
        normalized_parts_are_plain(rel);
        lemma_no_backslash(rel);
        lemma_key_parts(parts);
        lemma_join_chars(parts, '/', '\\');
        assert(text::replace_char(key, '\\', '/') =~= key) by {
            assert forall|k: int| 0 <= k < key.len() implies key[k] != '\\' by {
                if key[k] == '\\' {
                    assert(key.contains('\\'));
                }
            }
        }
        lemma_join_first(parts, '/');
        assert(plain_part(parts[0]));
        assert(parts[0][0] != '/') by {
            if parts[0][0] == '/' {
                assert(parts[0].contains('/'));
            }
        }
        assert(text::after_char(key, '/', 0) == 0);
        assert(key.skip(0) =~= key);
        assert(slashed(key) == key);
    }
}

/// A character that no part holds is not in the joined text.
proof fn lemma_join_chars(parts: Seq<Seq<char>>, sep: char, c: char)
    requires
        c != sep,
        forall|i: int| 0 <= i < parts.len() ==> !(#[trigger] parts[i]).contains(c),
    ensures
        !text::join(parts, seq![sep]).contains(c),
    decreases parts.len(),
{
    if parts.len() > 1 {
        let front = parts.drop_last();
        assert forall|i: int| 0 <= i < front.len() implies !(#[trigger] front[i]).contains(c) by {
            assert(front[i] == parts[i]);
        }
        lemma_join_chars(front, sep, c);
        let a = text::join(front, seq![sep]);
        let s = text::join(parts, seq![sep]);
        assert(!parts[parts.len() - 1].contains(c));
        if s.contains(c) {
            let k = choose|k: int| 0 <= k < s.len() && s[k] == c;
            if k < a.len() {
                assert(a[k] == c);
            } else if k > a.len() {
                assert(parts.last()[k - a.len() - 1] == c);
            }
        }
    }
}

/// The joined text starts with the first part.
proof fn lemma_join_first(parts: Seq<Seq<char>>, sep: char)
    requires
        parts.len() > 0,
        parts[0].len() > 0,
    ensures
        text::join(parts, seq![sep]).len() > 0,
        text::join(parts, seq![sep])[0] == parts[0][0],
    decreases parts.len(),
{
    if parts.len() > 1 {
        lemma_join_first(parts.drop_last(), sep);
    }
}

/// A lexical walk ends at ordinary components only, so it never leads out of
/// the root.
pub proof fn lexical_walks_stay_inside(dir: Seq<char>, rel: Seq<char>)
    ensures
        lexical(text::split(dir, '/') + text::split(rel, '/')) matches Some(at) ==> forall|i: int|
            0 <= i < at.len() ==> plain_part(#[trigger] at[i]),
{
    let parts = text::split(dir, '/') + text::split(rel, '/');
    text::lemma_split_pieces(dir, text::is_char('/'));
    text::lemma_split_pieces(rel, text::is_char('/'));
    assert forall|i: int| 0 <= i < parts.len() implies !(#[trigger] parts[i]).contains('/') by {
        let d = text::split(dir, '/');
        let r = text::split(rel, '/');
        if parts[i].contains('/') {
            let k = choose|k: int| 0 <= k < parts[i].len() && parts[i][k] == '/';
            if i < d.len() {
                assert(!text::is_char('/')(d[i][k]));
            } else {
                assert(!text::is_char('/')(r[i - d.len()][k]));
            }
        }
    }
    lemma_lexical_plain(parts);
}

proof fn lemma_lexical_plain(parts: Seq<Seq<char>>)
    requires
        forall|i: int| 0 <= i < parts.len() ==> !(#[trigger] parts[i]).contains('/'),
    ensures
        lexical(parts) matches Some(at) ==> forall|i: int|
            0 <= i < at.len() ==> plain_part(#[trigger] at[i]),
    decreases parts.len(),
{
    if parts.len() > 0 {
        let front = parts.drop_last();
        assert forall|i: int| 0 <= i < front.len() implies !(#[trigger] front[i]).contains('/') by {
            assert(front[i] == parts[i]);
        }
        lemma_lexical_plain(front);
        assert(!parts[parts.len() - 1].contains('/'));
    }
}

/// A joined upload path has the components of its base followed by those of
/// the upload, so it lies below the base.
pub proof fn joined_paths_stay_below(base: Seq<char>, rel: Seq<char>)
    ensures
        normalized(rel) matches Ok(parts) ==> path_parts(joined(base, parts)) == path_parts(base)
            + parts && below(joined(base, parts), base),
{
    if let Ok(parts) = normalized(rel) {
        normalized_parts_are_plain(rel);
        lemma_joined_parts(base, parts);
        assert(path_parts(base) =~= (path_parts(base) + parts).subrange(
            0,
            path_parts(base).len() as int,
        ));
    }
}

proof fn lemma_joined_parts(base: Seq<char>, parts: Seq<Seq<char>>)
    requires
        forall|i: int| 0 <= i < parts.len() ==> plain_part(#[trigger] parts[i]),
    ensures
        path_parts(joined(base, parts)) == path_parts(base) + parts,
        absolute(joined(base, parts)) == absolute(base),
    decreases parts.len(),
{
    if parts.len() == 0 {
        assert(path_parts(base) + parts =~= path_parts(base));
    } else {
        let front = parts.drop_last();
        let last = parts.last();
        assert forall|i: int| 0 <= i < front.len() implies plain_part(#[trigger] front[i]) by {
            assert(front[i] == parts[i]);
        }
        lemma_joined_parts(base, front);
        assert(plain_part(parts[parts.len() - 1]));
        lemma_pushed_parts(joined(base, front), last);
        if last[0] == '/' {
            assert(last.contains('/'));
        }
        assert(path_parts(base) + front + seq![last] =~= path_parts(base) + parts);
    }
}

proof fn lemma_pushed_parts(base: Seq<char>, last: Seq<char>)
    requires
        plain_part(last),
    ensures
        path_parts(pushed(base, last)) == path_parts(base) + seq![last],
{
    let keep = |p: Seq<char>| is_part(p);
    let sep = text::is_char('/');
    assert forall|k: int| 0 <= k < last.len() implies !sep(#[trigger] last[k]) by {
        if last[k] == '/' {
            assert(last.contains('/'));
        }
    }
    text::lemma_split_single(last, sep);
    reveal(Seq::filter);
    assert(seq![last].drop_last() =~= Seq::<Seq<char>>::empty());
    assert(seq![last].filter(keep) =~= seq![last]);
    let none = seq![Seq::<char>::empty()];
    assert(text::split_on(Seq::<char>::empty(), sep) =~= none);
    assert(none.drop_last() =~= Seq::<Seq<char>>::empty());
    assert(none.filter(keep) =~= Seq::<Seq<char>>::empty());
    if base.len() == 0 {
        assert(base =~= Seq::<char>::empty());
        assert(path_parts(base) + seq![last] =~= seq![last]);
    } else if base.last() == '/' {
        let b = base.drop_last();
        assert(base =~= b.push('/'));
        text::lemma_split_concat(b, '/', last, sep);
        text::lemma_split_concat(b, '/', Seq::<char>::empty(), sep);
        assert(b.push('/') + Seq::<char>::empty() =~= base);
        Seq::filter_distributes_over_add(text::split_on(b, sep), seq![last], keep);
        Seq::filter_distributes_over_add(text::split_on(b, sep), none, keep);
        assert(path_parts(base) =~= text::split_on(b, sep).filter(keep));
    } else {
        text::lemma_split_concat(base, '/', last, sep);
        Seq::filter_distributes_over_add(text::split_on(base, sep), seq![last], keep);
    }
}

/// Followed from a directory, ordinary components lead further down, and each leading `..`
/// leads one directory up; where there is none the walk has left the root.
pub proof fn walks_go_down_and_up(dir: Seq<Seq<char>>, ups: nat, rel: Seq<Seq<char>>)
    requires
        forall|i: int| 0 <= i < dir.len() ==> plain_part(#[trigger] dir[i]),
        forall|i: int| 0 <= i < rel.len() ==> plain_part(#[trigger] rel[i]),
    ensures
        ups <= dir.len() ==> lexical(dir + Seq::new(ups, |i: int| seq!['.', '.']) + rel) == Some(
            dir.take(dir.len() - ups) + rel,
        ),
        ups > dir.len() ==> lexical(dir + Seq::new(ups, |i: int| seq!['.', '.']) + rel) is None,
    decreases rel.len(), ups, dir.len(),
{
    let up = Seq::new(ups, |i: int| seq!['.', '.']);
    let all = dir + up + rel;
    if rel.len() > 0 {
        let front = rel.drop_last();
        assert forall|i: int| 0 <= i < front.len() implies plain_part(#[trigger] front[i]) by {
            assert(front[i] == rel[i]);
        }
        walks_go_down_and_up(dir, ups, front);
        assert(all.drop_last() =~= dir + up + front);
        assert(all.last() == rel[rel.len() - 1]);
        assert(plain_part(rel[rel.len() - 1]));
        if ups <= dir.len() {
            assert((dir.take(dir.len() - ups) + front).push(rel.last()) =~= dir.take(
                dir.len() - ups,
            ) + rel);
        }
    } else if ups > 0 {
        let less = (ups - 1) as nat;
        walks_go_down_and_up(dir, less, rel);
        let up1 = Seq::new(less, |i: int| seq!['.', '.']);
        assert(all.drop_last() =~= dir + up1 + rel);
        assert(all.last() == seq!['.', '.']);
        if ups <= dir.len() {
            assert((dir.take(dir.len() - less) + rel).drop_last() =~= dir.take(dir.len() - ups)
                + rel);
        } else if less == dir.len() {
            assert(dir.take(dir.len() - less) + rel =~= Seq::<Seq<char>>::empty());
        }
    } else if dir.len() > 0 {
        let front = dir.drop_last();
        assert forall|i: int| 0 <= i < front.len() implies plain_part(#[trigger] front[i]) by {
            assert(front[i] == dir[i]);
        }
        walks_go_down_and_up(front, 0, rel);
        let none = Seq::new(0, |i: int| seq!['.', '.']);
        assert(all.drop_last() =~= front + none + rel);
        assert(all.last() == dir[dir.len() - 1]);
        assert(plain_part(dir[dir.len() - 1]));
        assert(front.take(front.len() as int) + rel =~= front);
        assert(dir.take(dir.len() as int) + rel =~= front.push(dir.last()));
    } else {
        assert(all =~= Seq::<Seq<char>>::empty());
        assert(dir.take(0) + rel =~= Seq::<Seq<char>>::empty());
    }
}

/// The name of a path is its last component, and its directory is what stands before that.
pub proof fn paths_end_in_their_name(dir: Seq<Seq<char>>, name: Seq<char>)
    requires
        forall|i: int| 0 <= i < dir.len() ==> plain_part(#[trigger] dir[i]),
        plain_part(name),
    ensures
        base_name(text::join(dir.push(name), seq!['/'])) == Some(name),
        parent(text::join(dir.push(name), seq!['/'])) == text::join(dir, seq!['/']),
{
    let all = dir.push(name);
    assert forall|i: int| 0 <= i < all.len() implies plain_part(#[trigger] all[i]) by {
        if i < dir.len() {
            assert(all[i] == dir[i]);
        }
    }
    lemma_key_parts(all);
    assert(all.last() == name);
    let path = text::join(all, seq!['/']);
    assert(all.drop_last() =~= dir);
    text::lemma_last_char(path, '/', path.len() as int);
    if dir.len() > 0 {
        let d = text::join(dir, seq!['/']);
        assert(path == d + seq!['/'] + name);
        assert(path[d.len() as int] == '/');
        assert(text::last_char(path, '/', path.len() as int) == Some(d.len() as int)) by {
            let i = text::last_char(path, '/', path.len() as int)->0;
            if i > d.len() {
                assert(name[i - d.len() - 1] == '/');
                assert(name.contains('/'));
            }
        }
        assert(path.take(d.len() as int) =~= d);
    } else {
        assert(path == name);
        if let Some(i) = text::last_char(path, '/', path.len() as int) {
            assert(name.contains('/'));
        }
    }
}

/// The extension of a file name is what follows its last dot, and the stem what stands
/// before it.
pub proof fn names_end_in_their_extension(path: Seq<char>, stem: Seq<char>, ext: Seq<char>)
    requires
        stem.len() > 0,
        !ext.contains('.'),
        base_name(path) == Some(stem + seq!['.'] + ext),
    ensures
        path_extension(path) == Some(ext),
        path_stem(path) == Some(stem),
{
    let name = stem + seq!['.'] + ext;
    text::lemma_last_char(name, '.', name.len() as int);
    assert(name[stem.len() as int] == '.');
    let i = text::last_char(name, '.', name.len() as int)->0;
    if i > stem.len() {
        assert(ext[i - stem.len() - 1] == '.');
        assert(ext.contains('.'));
    }
    assert(name.skip(i + 1) =~= ext);
    assert(name.take(i) =~= stem);
}

/// A file name without a dot, or with one at its start alone, has no extension.
pub proof fn names_without_dots_have_no_extension(path: Seq<char>, name: Seq<char>)
    requires
        base_name(path) == Some(name),
        forall|i: int| 1 <= i < name.len() ==> name[i] != '.',
    ensures
        path_extension(path) is None,
        path_stem(path) == Some(name),
{
    text::lemma_last_char(name, '.', name.len() as int);
}

/// A resolved path loses its verbatim prefix and nothing else.
pub proof fn verbatim_prefixes_are_left_out(rest: Seq<char>)
    ensures
        plain_path(seq!['\\', '\\', '?', '\\', 'U', 'N', 'C', '\\'] + rest) == seq!['\\', '\\']
            + rest,
        !text::begins(rest, seq!['U', 'N', 'C', '\\']) ==> plain_path(
            seq!['\\', '\\', '?', '\\'] + rest,
        ) == rest,
        !text::begins(rest, seq!['\\', '\\', '?', '\\']) ==> plain_path(rest) == rest,
{
    reveal_strlit("\\\\?\\UNC\\");
    reveal_strlit("\\\\?\\");
    reveal_strlit("\\\\");
    let u = "\\\\?\\UNC\\"@;
    let v = "\\\\?\\"@;
    assert(u =~= seq!['\\', '\\', '?', '\\', 'U', 'N', 'C', '\\']);
    assert(v =~= seq!['\\', '\\', '?', '\\']);
    assert("\\\\"@ =~= seq!['\\', '\\']);
    let a = u + rest;
    assert(a.subrange(0, 8) =~= u);
    assert(a.skip(8) =~= rest);
    let b = v + rest;
    assert(b.subrange(0, 4) =~= v);
    assert(b.skip(4) =~= rest);
    if text::begins(b, u) {
        assert(b.subrange(0, 8).subrange(4, 8) =~= rest.subrange(0, 4));
        assert(u.subrange(4, 8) =~= seq!['U', 'N', 'C', '\\']);
        assert(text::begins(rest, seq!['U', 'N', 'C', '\\']));
    }
    if text::begins(rest, u) {
        assert(rest.subrange(0, 8).subrange(0, 4) =~= rest.subrange(0, 4));
        assert(u.subrange(0, 4) =~= v);
        assert(text::begins(rest, v));
    }
}

} // verus!
