//! Strings as sequences of characters: searching, splitting, joining,
//! ordering and decimal numbers.

use vstd::prelude::*;

verus! {

/// `String::push` appends the character to the end of the string.
pub assume_specification[ String::push ](s: &mut String, c: char)
    ensures
        final(s)@ == old(s)@.push(c),
;

/// The contents of a list of strings.
pub open spec fn texts(v: Seq<String>) -> Seq<Seq<char>> {
    v.map_values(|s: String| s@)
}

/// An optional string's contents.
pub open spec fn opt_text(o: Option<String>) -> Option<Seq<char>> {
    match o {
        Some(s) => Some(s@),
        None => None,
    }
}

/// An optional index as an integer.
pub open spec fn opt_int(o: Option<usize>) -> Option<int> {
    match o {
        Some(i) => Some(i as int),
        None => None,
    }
}

/// The characters of `s`.
pub fn to_chars(s: &str) -> (out: Vec<char>)
    ensures
        out@ == s@,
{
    let mut out: Vec<char> = Vec::new();
    for c in it: s.chars()
        invariant
            it.seq() == s@,
            out@ == s@.take(it.index()),
    {
        out.push(c);
    }
    out
}

/// The string with the characters `cs[from..to]`.
pub fn from_range(cs: &[char], from: usize, to: usize) -> (out: String)
    requires
        from <= to <= cs@.len(),
    ensures
        out@ == cs@.subrange(from as int, to as int),
{
    let mut out = String::new();
    let mut i: usize = from;
    while i < to
        invariant
            from <= i <= to <= cs@.len(),
            out@ == cs@.subrange(from as int, i as int),
        decreases to - i,
    {
        out.push(cs[i]);
        i = i + 1;
        assert(out@ =~= cs@.subrange(from as int, i as int));
    }
    out
}

/// The string with the characters `cs`.
pub fn from_chars(cs: &[char]) -> (out: String)
    ensures
        out@ == cs@,
{
    let out = from_range(cs, 0, cs.len());
    assert(out@ =~= cs@);
    out
}

/// Whether `c` occurs in `cs`.
pub fn contains_char(cs: &[char], c: char) -> (found: bool)
    ensures
        found == cs@.contains(c),
{
    let mut i: usize = 0;
    while i < cs.len()
        invariant
            i <= cs@.len(),
            forall|j: int| 0 <= j < i ==> cs@[j] != c,
        decreases cs@.len() - i,
    {
        if cs[i] == c {
            assert(cs@[i as int] == c);
            return true;
        }
        i = i + 1;
    }
    false
}

/// Whether the two strings hold the same characters.
pub fn same(a: &str, b: &str) -> (equal: bool)
    ensures
        equal == (a@ == b@),
{
    let x = to_chars(a);
    let y = to_chars(b);
    same_chars(&x, &y)
}

/// Whether the two character slices are equal.
pub fn same_chars(x: &[char], y: &[char]) -> (equal: bool)
    ensures
        equal == (x@ == y@),
{
    if x.len() != y.len() {
        return false;
    }
    let mut i: usize = 0;
    while i < x.len()
        invariant
            i <= x@.len(),
            x@.len() == y@.len(),
            forall|j: int| 0 <= j < i ==> x@[j] == y@[j],
        decreases x@.len() - i,
    {
        if x[i] != y[i] {
            assert(x@[i as int] != y@[i as int]);
            return false;
        }
        i = i + 1;
    }
    assert(x@ =~= y@);
    true
}

/// Whether `pat` occurs in `s` at position `at`.
pub open spec fn occurs_at(s: Seq<char>, pat: Seq<char>, at: int) -> bool {
    0 <= at && at + pat.len() <= s.len() && s.subrange(at, at + pat.len()) == pat
}

/// [`occurs_at`], decided.
pub fn matches_at(cs: &[char], pat: &[char], at: usize) -> (found: bool)
    ensures
        found == occurs_at(cs@, pat@, at as int),
{
    if at > cs.len() || pat.len() > cs.len() - at {
        return false;
    }
    let mut i: usize = 0;
    while i < pat.len()
        invariant
            i <= pat@.len(),
            at + pat.len() <= cs.len(),
            forall|j: int| 0 <= j < i ==> cs@[at + j] == pat@[j],
        decreases pat@.len() - i,
    {
        if cs[at + i] != pat[i] {
            assert(cs@.subrange(at as int, at + pat@.len())[i as int] != pat@[i as int]);
            return false;
        }
        i = i + 1;
    }
    assert(cs@.subrange(at as int, at + pat@.len()) =~= pat@);
    true
}

/// Whether `s` begins with `pat`.
pub open spec fn begins(s: Seq<char>, pat: Seq<char>) -> bool {
    occurs_at(s, pat, 0)
}

/// Whether `s` ends with `pat`.
pub open spec fn ends(s: Seq<char>, pat: Seq<char>) -> bool {
    occurs_at(s, pat, s.len() - pat.len())
}

/// Whether `cs` begins with `pat`.
pub fn starts_with(cs: &[char], pat: &str) -> (found: bool)
    ensures
        found == begins(cs@, pat@),
{
    let p = to_chars(pat);
    matches_at(cs, &p, 0)
}

/// Whether `cs` ends with `pat`.
pub fn ends_with(cs: &[char], pat: &str) -> (found: bool)
    ensures
        found == ends(cs@, pat@),
{
    let p = to_chars(pat);
    if p.len() > cs.len() {
        return false;
    }
    matches_at(cs, &p, cs.len() - p.len())
}

/// The first position at or after `from` where `pat` occurs in `s`.
pub open spec fn first_at(s: Seq<char>, pat: Seq<char>, from: int) -> Option<int>
    decreases s.len() - from + 1,
{
    if from < 0 || from > s.len() {
        None
    } else if occurs_at(s, pat, from) {
        Some(from)
    } else {
        first_at(s, pat, from + 1)
    }
}

/// The last position where `pat` occurs in `s`, looking at positions up to `to`.
pub open spec fn last_at(s: Seq<char>, pat: Seq<char>, to: int) -> Option<int>
    decreases to + 1,
{
    if to < 0 {
        None
    } else if occurs_at(s, pat, to) {
        Some(to)
    } else {
        last_at(s, pat, to - 1)
    }
}

/// `first_at` finds an occurrence, and none lies between `from` and it.
pub proof fn lemma_first_at(s: Seq<char>, pat: Seq<char>, from: int)
    requires
        0 <= from,
    ensures
        match first_at(s, pat, from) {
            Some(i) => from <= i && occurs_at(s, pat, i) && (forall|j: int|
                from <= j < i ==> !occurs_at(s, pat, j)),
            None => forall|j: int| from <= j ==> !occurs_at(s, pat, j),
        },
    decreases s.len() - from + 1,
{
    if from <= s.len() && !occurs_at(s, pat, from) {
        lemma_first_at(s, pat, from + 1);
    }
}

/// The first occurrence is the one that `first_at` finds.
pub proof fn lemma_first_at_is(s: Seq<char>, pat: Seq<char>, from: int, at: int)
    requires
        0 <= from <= at,
        occurs_at(s, pat, at),
        forall|j: int| from <= j < at ==> !occurs_at(s, pat, j),
    ensures
        first_at(s, pat, from) == Some(at),
    decreases at - from,
{
    if from < at {
        lemma_first_at_is(s, pat, from + 1, at);
    }
}

/// `last_at` finds an occurrence, and none lies between it and `to`.
pub proof fn lemma_last_at(s: Seq<char>, pat: Seq<char>, to: int)
    ensures
        match last_at(s, pat, to) {
            Some(i) => 0 <= i <= to && occurs_at(s, pat, i) && (forall|j: int|
                i < j <= to ==> !occurs_at(s, pat, j)),
            None => forall|j: int| j <= to ==> !occurs_at(s, pat, j),
        },
    decreases to + 1,
{
    if to >= 0 && !occurs_at(s, pat, to) {
        lemma_last_at(s, pat, to - 1);
    }
}

/// The first occurrence of `pat` in `cs` at or after `from`.
pub fn find_chars(cs: &[char], pat: &[char], from: usize) -> (at: Option<usize>)
    ensures
        opt_int(at) == first_at(cs@, pat@, from as int),
        at matches Some(i) ==> from <= i && i + pat@.len() <= cs@.len(),
{
    if from > cs.len() {
        return None;
    }
    let mut i: usize = from;
    while i < cs.len()
        invariant
            from <= i <= cs@.len(),
            first_at(cs@, pat@, from as int) == first_at(cs@, pat@, i as int),
        decreases cs@.len() - i,
    {
        if matches_at(cs, pat, i) {
            return Some(i);
        }
        i = i + 1;
    }
    if matches_at(cs, pat, i) {
        return Some(i);
    }
    assert(first_at(cs@, pat@, i + 1) is None);
    None
}

/// The first occurrence of `pat` in `cs` at or after `from`.
pub fn find(cs: &[char], pat: &str, from: usize) -> (at: Option<usize>)
    ensures
        opt_int(at) == first_at(cs@, pat@, from as int),
        at matches Some(i) ==> from <= i && i + pat@.len() <= cs@.len(),
{
    let p = to_chars(pat);
    find_chars(cs, &p, from)
}

/// The last occurrence of `pat` in `cs`.
pub fn rfind(cs: &[char], pat: &str) -> (at: Option<usize>)
    ensures
        opt_int(at) == last_at(cs@, pat@, cs@.len() as int),
        at matches Some(i) ==> i + pat@.len() <= cs@.len(),
{
    let p = to_chars(pat);
    let mut i: usize = cs.len();
    while i > 0
        invariant
            i <= cs@.len(),
            p@ == pat@,
            last_at(cs@, pat@, cs@.len() as int) == last_at(cs@, pat@, i as int),
        decreases i,
    {
        if matches_at(cs, &p, i) {
            return Some(i);
        }
        i = i - 1;
    }
    if matches_at(cs, &p, 0) {
        return Some(0);
    }
    assert(last_at(cs@, pat@, -1) is None);
    None
}

/// The first position at or after `from` where `s` holds `c`.
pub open spec fn first_char(s: Seq<char>, c: char, from: int) -> Option<int>
    decreases s.len() - from,
{
    if from < 0 || from >= s.len() {
        None
    } else if s[from] == c {
        Some(from)
    } else {
        first_char(s, c, from + 1)
    }
}

/// The last position before `to` where `s` holds `c`.
pub open spec fn last_char(s: Seq<char>, c: char, to: int) -> Option<int>
    decreases to,
{
    if to <= 0 || to > s.len() {
        None
    } else if s[to - 1] == c {
        Some(to - 1)
    } else {
        last_char(s, c, to - 1)
    }
}

/// `first_char` finds `c`, and `c` does not occur between `from` and it.
pub proof fn lemma_first_char(s: Seq<char>, c: char, from: int)
    requires
        0 <= from,
    ensures
        match first_char(s, c, from) {
            Some(i) => from <= i < s.len() && s[i] == c && (forall|j: int|
                from <= j < i ==> s[j] != c),
            None => forall|j: int| from <= j < s.len() ==> s[j] != c,
        },
    decreases s.len() - from,
{
    if from < s.len() && s[from] != c {
        lemma_first_char(s, c, from + 1);
    }
}

/// `last_char` finds `c`, and `c` does not occur between it and `to`.
pub proof fn lemma_last_char(s: Seq<char>, c: char, to: int)
    requires
        to <= s.len(),
    ensures
        match last_char(s, c, to) {
            Some(i) => 0 <= i < to && s[i] == c && (forall|j: int| i < j < to ==> s[j] != c),
            None => forall|j: int| 0 <= j < to ==> s[j] != c,
        },
    decreases to,
{
    if to > 0 && s[to - 1] != c {
        lemma_last_char(s, c, to - 1);
    }
}

/// The first position of `c` in `cs` at or after `from`.
pub fn find_char(cs: &[char], c: char, from: usize) -> (at: Option<usize>)
    ensures
        opt_int(at) == first_char(cs@, c, from as int),
        at matches Some(i) ==> from <= i < cs@.len() && cs@[i as int] == c,
{
    let mut i: usize = from;
    while i < cs.len()
        invariant
            from <= i,
            first_char(cs@, c, from as int) == first_char(cs@, c, i as int),
        decreases cs@.len() - i,
    {
        if cs[i] == c {
            return Some(i);
        }
        i = i + 1;
    }
    None
}

/// The last position of `c` in `cs` before `to`.
pub fn rfind_char(cs: &[char], c: char, to: usize) -> (at: Option<usize>)
    requires
        to <= cs@.len(),
    ensures
        opt_int(at) == last_char(cs@, c, to as int),
        at matches Some(i) ==> i < to && cs@[i as int] == c,
{
    let mut i: usize = to;
    while i > 0
        invariant
            i <= to <= cs@.len(),
            last_char(cs@, c, to as int) == last_char(cs@, c, i as int),
        decreases i,
    {
        if cs[i - 1] == c {
            return Some(i - 1);
        }
        i = i - 1;
    }
    None
}

/// The characters with the Unicode `White_Space` property.
pub open spec fn is_white(c: char) -> bool {
    let n = c as u32;
    ||| 9 <= n <= 13
    ||| n == 0x20
    ||| n == 0x85
    ||| n == 0xA0
    ||| n == 0x1680
    ||| 0x2000 <= n <= 0x200A
    ||| n == 0x2028
    ||| n == 0x2029
    ||| n == 0x202F
    ||| n == 0x205F
    ||| n == 0x3000
}

/// [`is_white`], decided.
pub fn white(c: char) -> (w: bool)
    ensures
        w == is_white(c),
{
    let n: u32 = c as u32;
    (9 <= n && n <= 13) || n == 0x20 || n == 0x85 || n == 0xA0 || n == 0x1680 || (0x2000 <= n && n
        <= 0x200A) || n == 0x2028 || n == 0x2029 || n == 0x202F || n == 0x205F || n == 0x3000
}

/// The pieces of `s` between the separators.
pub open spec fn split_on(s: Seq<char>, sep: spec_fn(char) -> bool) -> Seq<Seq<char>>
    decreases s.len(),
{
    if s.len() == 0 {
        seq![Seq::empty()]
    } else {
        let front = split_on(s.drop_last(), sep);
        if sep(s.last()) {
            front.push(Seq::empty())
        } else {
            front.drop_last().push(front.last().push(s.last()))
        }
    }
}

/// The test for the character `c`.
pub open spec fn is_char(c: char) -> spec_fn(char) -> bool {
    |x: char| x == c
}

/// The pieces of `s` between occurrences of `c`.
pub open spec fn split(s: Seq<char>, c: char) -> Seq<Seq<char>> {
    split_on(s, is_char(c))
}

/// The pieces of `s` between white space, empty ones left out.
pub open spec fn words(s: Seq<char>) -> Seq<Seq<char>> {
    split_on(s, |x: char| is_white(x)).filter(|w: Seq<char>| w.len() > 0)
}

/// The pieces of `cs` between occurrences of `c`.
pub fn split_char(cs: &[char], c: char) -> (out: Vec<String>)
    ensures
        texts(out@) == split(cs@, c),
{
    let ghost sep = is_char(c);
    let mut out: Vec<String> = Vec::new();
    let mut cur = String::new();
    let mut i: usize = 0;
    while i < cs.len()
        invariant
            i <= cs@.len(),
            sep == is_char(c),
            texts(out@).push(cur@) == split_on(cs@.take(i as int), sep),
        decreases cs@.len() - i,
    {
        let ghost before = texts(out@).push(cur@);
        proof {
            assert(cs@.take(i + 1).drop_last() =~= cs@.take(i as int));
            assert(before.drop_last() =~= texts(out@));
        }
        if cs[i] == c {
            out.push(cur);
            assert(texts(out@) =~= before);
            cur = String::new();
        } else {
            cur.push(cs[i]);
        }
        i = i + 1;
    }
    let ghost before = texts(out@).push(cur@);
    out.push(cur);
    assert(texts(out@) =~= before);
    assert(cs@.take(i as int) =~= cs@);
    out
}

/// The pieces of `cs` between white space, empty ones left out.
pub fn split_words(cs: &[char]) -> (out: Vec<String>)
    ensures
        texts(out@) == words(cs@),
{
    let ghost sep = |x: char| is_white(x);
    let ghost full = |w: Seq<char>| w.len() > 0;
    let ghost mut pieces: Seq<Seq<char>> = Seq::empty();
    let mut out: Vec<String> = Vec::new();
    let mut cur = String::new();
    let mut empty: bool = true;
    let mut i: usize = 0;
    proof {
        reveal(Seq::filter);
        assert(pieces.push(cur@) =~= seq![Seq::<char>::empty()]);
        assert(texts(out@) =~= pieces.filter(full));
    }
    while i < cs.len()
        invariant
            i <= cs@.len(),
            sep == (|x: char| is_white(x)),
            full == (|w: Seq<char>| w.len() > 0),
            empty == (cur@.len() == 0),
            pieces.push(cur@) == split_on(cs@.take(i as int), sep),
            texts(out@) == pieces.filter(full),
        decreases cs@.len() - i,
    {
        let ghost before = pieces.push(cur@);
        proof {
            assert(cs@.take(i + 1).drop_last() =~= cs@.take(i as int));
            assert(before.drop_last() =~= pieces);
            pieces.lemma_filter_push(cur@, full);
        }
        if white(cs[i]) {
            let ghost seen = texts(out@);
            let ghost last = cur@;
            if !empty {
                out.push(cur);
                assert(texts(out@) =~= seen.push(last));
            }
            proof {
                pieces = before;
            }
            cur = String::new();
            empty = true;
        } else {
            cur.push(cs[i]);
            empty = false;
        }
        i = i + 1;
    }
    proof {
        pieces.lemma_filter_push(cur@, full);
        assert(cs@.take(i as int) =~= cs@);
    }
    let ghost seen = texts(out@);
    let ghost last = cur@;
    if !empty {
        out.push(cur);
        assert(texts(out@) =~= seen.push(last));
    }
    out
}

/// The parts, one after the other, with `sep` between them.
pub open spec fn join(parts: Seq<Seq<char>>, sep: Seq<char>) -> Seq<char>
    decreases parts.len(),
{
    if parts.len() == 0 {
        Seq::empty()
    } else if parts.len() == 1 {
        parts[0]
    } else {
        join(parts.drop_last(), sep) + sep + parts.last()
    }
}

/// The parts, one after the other, with `sep` between them.
pub fn join_with(parts: &[String], sep: &str) -> (out: String)
    ensures
        out@ == join(texts(parts@), sep@),
{
    let mut out = String::new();
    let mut i: usize = 0;
    while i < parts.len()
        invariant
            i <= parts@.len(),
            out@ == join(texts(parts@).take(i as int), sep@),
        decreases parts@.len() - i,
    {
        let ghost t = texts(parts@);
        if i > 0 {
            out.append(sep);
        }
        out.append(parts[i].as_str());
        proof {
            assert(t.take(i + 1).drop_last() =~= t.take(i as int));
            assert(t.take(i + 1).last() == parts@[i as int]@);
            if i == 0 {
                assert(out@ =~= parts@[0]@);
            }
        }
        i = i + 1;
    }
    assert(texts(parts@).take(i as int) =~= texts(parts@));
    out
}

/// The first position at or after `from` that holds no white space.
pub open spec fn after_white(s: Seq<char>, from: int) -> int
    decreases s.len() - from,
{
    if 0 <= from < s.len() && is_white(s[from]) {
        after_white(s, from + 1)
    } else {
        from
    }
}

/// The position after the last character of `s` before `to` that is no white space.
pub open spec fn before_white(s: Seq<char>, to: int) -> int
    decreases to,
{
    if 0 < to <= s.len() && is_white(s[to - 1]) {
        before_white(s, to - 1)
    } else {
        to
    }
}

/// `s` without its leading white space.
pub open spec fn trim_start(s: Seq<char>) -> Seq<char> {
    s.subrange(after_white(s, 0), s.len() as int)
}

/// `s` without its trailing white space.
pub open spec fn trim_end(s: Seq<char>) -> Seq<char> {
    s.subrange(0, before_white(s, s.len() as int))
}

/// `s` without its leading and trailing white space.
pub open spec fn trim(s: Seq<char>) -> Seq<char> {
    trim_end(trim_start(s))
}

/// What lies between `from` and `after_white` is white space; what follows is not.
pub proof fn lemma_after_white(s: Seq<char>, from: int)
    requires
        0 <= from <= s.len(),
    ensures
        from <= after_white(s, from) <= s.len(),
        forall|j: int| from <= j < after_white(s, from) ==> is_white(s[j]),
        after_white(s, from) < s.len() ==> !is_white(s[after_white(s, from)]),
    decreases s.len() - from,
{
    if from < s.len() && is_white(s[from]) {
        lemma_after_white(s, from + 1);
    }
}

/// What lies between `before_white` and `to` is white space; what precedes is not.
pub proof fn lemma_before_white(s: Seq<char>, to: int)
    requires
        0 <= to <= s.len(),
    ensures
        0 <= before_white(s, to) <= to,
        forall|j: int| before_white(s, to) <= j < to ==> is_white(s[j]),
        before_white(s, to) > 0 ==> !is_white(s[before_white(s, to) - 1]),
    decreases to,
{
    if to > 0 && is_white(s[to - 1]) {
        lemma_before_white(s, to - 1);
    }
}

/// The first position at or after `from` that holds no white space.
pub fn skip_white(cs: &[char], from: usize) -> (at: usize)
    requires
        from <= cs@.len(),
    ensures
        at == after_white(cs@, from as int),
        from <= at <= cs@.len(),
{
    let mut i: usize = from;
    while i < cs.len() && white(cs[i])
        invariant
            from <= i <= cs@.len(),
            after_white(cs@, from as int) == after_white(cs@, i as int),
        decreases cs@.len() - i,
    {
        i = i + 1;
    }
    i
}

/// `s` without its leading and trailing white space.
pub fn trimmed(s: &str) -> (out: String)
    ensures
        out@ == trim(s@),
{
    let cs = to_chars(s);
    let a = skip_white(&cs, 0);
    let mut b: usize = cs.len();
    let ghost t = trim_start(s@);
    while b > a && white(cs[b - 1])
        invariant
            cs@ == s@,
            a <= b <= cs@.len(),
            t == s@.subrange(a as int, s@.len() as int),
            before_white(t, t.len() as int) == before_white(t, b - a),
        decreases b,
    {
        b = b - 1;
    }
    let out = from_range(&cs, a, b);
    assert(out@ =~= trim(s@));
    out
}

/// `s` with every `from` replaced by `to`.
pub open spec fn replace_char(s: Seq<char>, from: char, to: char) -> Seq<char> {
    s.map_values(
        |c: char|
            if c == from {
                to
            } else {
                c
            },
    )
}

/// The characters of `s` with every `from` replaced by `to`.
pub fn replaced(s: &str, from: char, to: char) -> (out: Vec<char>)
    ensures
        out@ == replace_char(s@, from, to),
{
    let mut cs = to_chars(s);
    let mut i: usize = 0;
    while i < cs.len()
        invariant
            i <= cs@.len(),
            cs@.len() == s@.len(),
            forall|j: int| 0 <= j < i ==> cs@[j] == replace_char(s@, from, to)[j],
            forall|j: int| i <= j < cs@.len() ==> cs@[j] == s@[j],
        decreases cs@.len() - i,
    {
        if cs[i] == from {
            cs.set(i, to);
        }
        i = i + 1;
    }
    assert(cs@ =~= replace_char(s@, from, to));
    cs
}

/// Lexicographic order by code point, the order of strings.
pub open spec fn lex_lt(a: Seq<char>, b: Seq<char>) -> bool
    decreases a.len(),
{
    if b.len() == 0 {
        false
    } else if a.len() == 0 {
        true
    } else if a[0] != b[0] {
        a[0] < b[0]
    } else {
        lex_lt(a.drop_first(), b.drop_first())
    }
}

/// The order is total: of two different strings one comes first.
pub proof fn lemma_lex_total(a: Seq<char>, b: Seq<char>)
    ensures
        a == b || lex_lt(a, b) || lex_lt(b, a),
    decreases a.len(),
{
    if a.len() > 0 && b.len() > 0 && a[0] == b[0] {
        lemma_lex_total(a.drop_first(), b.drop_first());
        if a.drop_first() == b.drop_first() {
            assert(a =~= seq![a[0]] + a.drop_first());
            assert(b =~= seq![b[0]] + b.drop_first());
        }
    } else if a.len() == 0 && b.len() == 0 {
        assert(a =~= b);
    }
}

/// No string comes before itself.
pub proof fn lemma_lex_irreflexive(a: Seq<char>)
    ensures
        !lex_lt(a, a),
    decreases a.len(),
{
    if a.len() > 0 {
        lemma_lex_irreflexive(a.drop_first());
    }
}

/// The order is transitive.
pub proof fn lemma_lex_transitive(a: Seq<char>, b: Seq<char>, c: Seq<char>)
    requires
        lex_lt(a, b),
        lex_lt(b, c),
    ensures
        lex_lt(a, c),
    decreases a.len(),
{
    if a.len() > 0 && a[0] == b[0] && b[0] == c[0] {
        lemma_lex_transitive(a.drop_first(), b.drop_first(), c.drop_first());
    }
}

/// Whether `a` comes before `b`.
pub fn less(a: &str, b: &str) -> (lt: bool)
    ensures
        lt == lex_lt(a@, b@),
{
    let x = to_chars(a);
    let y = to_chars(b);
    let mut i: usize = 0;
    assert(a@.skip(0) =~= a@);
    assert(b@.skip(0) =~= b@);
    while i < x.len() && i < y.len()
        invariant
            x@ == a@,
            y@ == b@,
            i <= x.len(),
            i <= y.len(),
            lex_lt(a@, b@) == lex_lt(a@.skip(i as int), b@.skip(i as int)),
        decreases x.len() - i,
    {
        if x[i] != y[i] {
            return x[i] < y[i];
        }
        assert(a@.skip(i as int).drop_first() =~= a@.skip(i + 1));
        assert(b@.skip(i as int).drop_first() =~= b@.skip(i + 1));
        i = i + 1;
    }
    i < y.len()
}

/// Whether the strings are in strictly ascending order.
pub open spec fn ascending(v: Seq<Seq<char>>) -> bool {
    forall|i: int, j: int| 0 <= i < j < v.len() ==> lex_lt(#[trigger] v[i], #[trigger] v[j])
}

/// `v` with `x` put in its place, unless it is there.
pub open spec fn insert_sorted(v: Seq<Seq<char>>, x: Seq<char>) -> Seq<Seq<char>>
    decreases v.len(),
{
    if v.len() == 0 {
        seq![x]
    } else if v.last() == x {
        v
    } else if lex_lt(x, v.last()) {
        insert_sorted(v.drop_last(), x).push(v.last())
    } else {
        v.push(x)
    }
}

/// The items in ascending order, each once.
pub open spec fn sorted_set(items: Seq<Seq<char>>) -> Seq<Seq<char>>
    decreases items.len(),
{
    if items.len() == 0 {
        Seq::empty()
    } else {
        insert_sorted(sorted_set(items.drop_last()), items.last())
    }
}

/// Insertion keeps the order and adds exactly `x`.
pub proof fn lemma_insert_sorted(v: Seq<Seq<char>>, x: Seq<char>)
    requires
        ascending(v),
    ensures
        ascending(insert_sorted(v, x)),
        forall|y: Seq<char>| #[trigger]
            insert_sorted(v, x).contains(y) <==> v.contains(y) || y == x,
    decreases v.len(),
{
    let r = insert_sorted(v, x);
    if v.len() == 0 {
        assert(r[0] == x);
    } else if v.last() == x {
        assert(v[v.len() - 1] == x);
    } else if lex_lt(x, v.last()) {
        let w = v.drop_last();
        lemma_insert_sorted(w, x);
        let q = insert_sorted(w, x);
        assert forall|i: int, j: int| 0 <= i < j < r.len() implies lex_lt(
            #[trigger] r[i],
            #[trigger] r[j],
        ) by {
            if j == r.len() - 1 {
                assert(q.contains(q[i]));
                if q[i] != x {
                    assert(w.contains(q[i]));
                    let k = choose|k: int| 0 <= k < w.len() && w[k] == q[i];
                    assert(lex_lt(v[k], v[v.len() - 1]));
                }
            }
        }
        assert forall|y: Seq<char>| #[trigger] r.contains(y) <==> v.contains(y) || y == x by {
            if r.contains(y) {
                let k = choose|k: int| 0 <= k < r.len() && r[k] == y;
                if k < q.len() {
                    assert(q.contains(q[k]));
                    if y != x {
                        let m = choose|m: int| 0 <= m < w.len() && w[m] == y;
                        assert(v[m] == y);
                    }
                } else {
                    assert(v[v.len() - 1] == y);
                }
            }
            if v.contains(y) {
                let k = choose|k: int| 0 <= k < v.len() && v[k] == y;
                if k < v.len() - 1 {
                    assert(w[k] == y);
                    assert(q.contains(y));
                    let m = choose|m: int| 0 <= m < q.len() && q[m] == y;
                    assert(r[m] == y);
                } else {
                    assert(r[r.len() - 1] == y);
                }
            }
            if y == x {
                assert(q.contains(x));
                let m = choose|m: int| 0 <= m < q.len() && q[m] == x;
                assert(r[m] == x);
            }
        }
    } else {
        lemma_lex_total(v.last(), x);
        assert forall|i: int, j: int| 0 <= i < j < r.len() implies lex_lt(
            #[trigger] r[i],
            #[trigger] r[j],
        ) by {
            if j == r.len() - 1 && i < v.len() - 1 {
                lemma_lex_transitive(v[i], v[v.len() - 1], x);
            }
        }
        assert forall|y: Seq<char>| #[trigger] r.contains(y) <==> v.contains(y) || y == x by {
            if v.contains(y) {
                let k = choose|k: int| 0 <= k < v.len() && v[k] == y;
                assert(r[k] == y);
            }
            if y == x {
                assert(r[r.len() - 1] == x);
            }
        }
    }
}

/// A sorted set is in strictly ascending order and holds exactly the items.
pub proof fn lemma_sorted_set(items: Seq<Seq<char>>)
    ensures
        ascending(sorted_set(items)),
        forall|y: Seq<char>| #[trigger] sorted_set(items).contains(y) <==> items.contains(y),
    decreases items.len(),
{
    if items.len() > 0 {
        let front = items.drop_last();
        lemma_sorted_set(front);
        lemma_insert_sorted(sorted_set(front), items.last());
        assert forall|y: Seq<char>| #[trigger] sorted_set(items).contains(y) <==> items.contains(
            y,
        ) by {
            if items.contains(y) {
                let k = choose|k: int| 0 <= k < items.len() && items[k] == y;
                if k < items.len() - 1 {
                    assert(front[k] == y);
                }
            }
            if front.contains(y) {
                let k = choose|k: int| 0 <= k < front.len() && front[k] == y;
                assert(items[k] == y);
            }
            assert(items[items.len() - 1] == items.last());
        }
    }
}

/// Put `x` in its place among the sorted `v`, unless it is there.
pub fn add_sorted(v: &mut Vec<String>, x: String)
    ensures
        texts(final(v)@) == insert_sorted(texts(old(v)@), x@),
{
    let ghost t = texts(v@);
    let mut k: usize = v.len();
    assert(t.take(k as int) =~= t);
    assert(t.skip(k as int) =~= Seq::<Seq<char>>::empty());
    assert(insert_sorted(t, x@) =~= insert_sorted(t.take(k as int), x@) + t.skip(k as int));
    while k > 0 && less(x.as_str(), v[k - 1].as_str())
        invariant
            k <= v.len(),
            t == texts(v@),
            insert_sorted(t, x@) == insert_sorted(t.take(k as int), x@) + t.skip(k as int),
        decreases k,
    {
        proof {
            lemma_lex_irreflexive(x@);
            let w = t.take(k as int);
            assert(w.drop_last() =~= t.take(k - 1));
            assert(insert_sorted(w, x@).len() > 0);
            assert(insert_sorted(t.take(k - 1), x@).push(w.last()) + t.skip(k as int)
                =~= insert_sorted(t.take(k - 1), x@) + t.skip(k - 1));
        }
        k = k - 1;
    }
    if k > 0 && same(x.as_str(), v[k - 1].as_str()) {
        assert(t.take(k as int) + t.skip(k as int) =~= t);
        return ;
    }
    let ghost y = x@;
    v.insert(k, x);
    proof {
        if k > 0 {
            assert(t.take(k as int).last() == t[k - 1]);
            assert(insert_sorted(t.take(k as int), y) =~= t.take(k as int).push(y));
        } else {
            assert(insert_sorted(t.take(0), y) =~= seq![y]);
        }
        assert(texts(v@) =~= t.take(k as int).push(y) + t.skip(k as int));
    }
}

/// The decimal digit with value `d`.
pub open spec fn digit(d: nat) -> char {
    (48 + d) as char
}

/// The decimal digits of `n`, without leading zeros.
pub open spec fn decimal(n: nat) -> Seq<char>
    decreases n,
{
    if n < 10 {
        seq![digit(n)]
    } else {
        decimal(n / 10).push(digit(n % 10))
    }
}

/// Append the decimal digits of a 128-bit `n`.
pub fn push_decimal_u128(out: &mut String, n: u128)
    ensures
        final(out)@ == old(out)@ + decimal(n as nat),
    decreases n,
{
    let ghost before = out@;
    if n >= 10 {
        push_decimal_u128(out, n / 10);
    }
    let d: u8 = (n % 10) as u8;
    out.push((48 + d) as char);
    assert(out@ =~= before + decimal(n as nat));
}

/// Append the decimal digits of a 64-bit `n`.
pub fn push_decimal_u64(out: &mut String, n: u64)
    ensures
        final(out)@ == old(out)@ + decimal(n as nat),
{
    push_decimal_u128(out, n as u128);
}

/// Append the decimal digits of `n`.
pub fn push_decimal(out: &mut String, n: usize)
    ensures
        final(out)@ == old(out)@ + decimal(n as nat),
{
    push_decimal_u128(out, n as u128);
}

/// `n` in decimal, with its sign.
pub open spec fn signed(n: int) -> Seq<char> {
    if n < 0 {
        "-"@ + decimal((-n) as nat)
    } else {
        decimal(n as nat)
    }
}

/// Append `n` in decimal, with its sign.
pub fn push_signed(out: &mut String, n: i64)
    ensures
        final(out)@ == old(out)@ + signed(n as int),
{
    let ghost before = out@;
    if n < 0 {
        out.append("-");
        let m: u64 = if n == i64::MIN {
            0x8000_0000_0000_0000
        } else {
            (-n) as u64
        };
        push_decimal_u64(out, m);
        assert(out@ =~= before + signed(n as int));
    } else {
        push_decimal_u64(out, n as u64);
    }
}

/// The decimal digits of `n`.
pub fn to_decimal(n: usize) -> (out: String)
    ensures
        out@ == decimal(n as nat),
{
    let mut out = String::new();
    push_decimal(&mut out, n);
    assert(out@ =~= decimal(n as nat));
    out
}

/// The first position at or after `from` that does not hold `c`.
pub open spec fn after_char(s: Seq<char>, c: char, from: int) -> int
    decreases s.len() - from,
{
    if 0 <= from < s.len() && s[from] == c {
        after_char(s, c, from + 1)
    } else {
        from
    }
}

/// The first position of `cs` at or after `from` that does not hold `c`.
pub fn skip_char(cs: &[char], c: char, from: usize) -> (at: usize)
    requires
        from <= cs@.len(),
    ensures
        at == after_char(cs@, c, from as int),
        from <= at <= cs@.len(),
{
    let mut i: usize = from;
    while i < cs.len() && cs[i] == c
        invariant
            from <= i <= cs@.len(),
            after_char(cs@, c, from as int) == after_char(cs@, c, i as int),
        decreases cs@.len() - i,
    {
        i = i + 1;
    }
    i
}

/// There is always at least one piece.
pub proof fn lemma_split_nonempty(s: Seq<char>, sep: spec_fn(char) -> bool)
    ensures
        split_on(s, sep).len() > 0,
    decreases s.len(),
{
    if s.len() > 0 {
        lemma_split_nonempty(s.drop_last(), sep);
    }
}

/// No piece holds a separator.
pub proof fn lemma_split_pieces(s: Seq<char>, sep: spec_fn(char) -> bool)
    ensures
        forall|i: int, k: int|
            0 <= i < split_on(s, sep).len() && 0 <= k < split_on(s, sep)[i].len() ==> !sep(
                #[trigger] split_on(s, sep)[i][k],
            ),
    decreases s.len(),
{
    if s.len() > 0 {
        let front = split_on(s.drop_last(), sep);
        let all = split_on(s, sep);
        lemma_split_nonempty(s.drop_last(), sep);
        lemma_split_pieces(s.drop_last(), sep);
        assert forall|i: int, k: int| 0 <= i < all.len() && 0 <= k < all[i].len() implies !sep(
            #[trigger] all[i][k],
        ) by {
            if i < front.len() - 1 {
                assert(all[i] == front[i]);
                assert(!sep(front[i][k]));
            } else if sep(s.last()) {
                if i < front.len() {
                    assert(!sep(front[i][k]));
                }
            } else if k < front.last().len() {
                assert(!sep(front[i][k]));
            }
        }
    }
}

/// A separator splits: the pieces of `a`, then the pieces of `b`.
pub proof fn lemma_split_concat(a: Seq<char>, c: char, b: Seq<char>, sep: spec_fn(char) -> bool)
    requires
        sep(c),
    ensures
        split_on(a.push(c) + b, sep) == split_on(a, sep) + split_on(b, sep),
    decreases b.len(),
{
    let s = a.push(c) + b;
    if b.len() == 0 {
        assert(s =~= a.push(c));
        assert(s.drop_last() =~= a);
        assert(split_on(s, sep) =~= split_on(a, sep) + split_on(b, sep));
    } else {
        let bf = b.drop_last();
        lemma_split_concat(a, c, bf, sep);
        lemma_split_nonempty(bf, sep);
        assert(s.drop_last() =~= a.push(c) + bf);
        assert(s.last() == b.last());
        let x = split_on(a, sep);
        let y = split_on(bf, sep);
        if sep(b.last()) {
            assert((x + y).push(Seq::empty()) =~= x + y.push(Seq::empty()));
        } else {
            assert((x + y).drop_last().push((x + y).last().push(b.last())) =~= x
                + y.drop_last().push(y.last().push(b.last())));
        }
    }
}

/// A text without separators is one piece.
pub proof fn lemma_split_single(s: Seq<char>, sep: spec_fn(char) -> bool)
    requires
        forall|k: int| 0 <= k < s.len() ==> !sep(#[trigger] s[k]),
    ensures
        split_on(s, sep) == seq![s],
    decreases s.len(),
{
    if s.len() > 0 {
        let f = s.drop_last();
        assert forall|k: int| 0 <= k < f.len() implies !sep(#[trigger] f[k]) by {
            assert(f[k] == s[k]);
        }
        lemma_split_single(f, sep);
        assert(f.push(s.last()) =~= s);
        assert(!sep(s[s.len() - 1]));
        assert(split_on(s, sep) =~= seq![s]);
    } else {
        assert(s =~= Seq::empty());
    }
}

/// Splitting undoes joining: parts that do not hold `c`, joined by `c`, come
/// back as they were.
pub proof fn lemma_split_join(parts: Seq<Seq<char>>, c: char)
    requires
        parts.len() > 0,
        forall|i: int| 0 <= i < parts.len() ==> !(#[trigger] parts[i]).contains(c),
    ensures
        split(join(parts, seq![c]), c) == parts,
    decreases parts.len(),
{
    let last = parts.last();
    assert(!parts[parts.len() - 1].contains(c));
    assert forall|k: int| 0 <= k < last.len() implies !is_char(c)(#[trigger] last[k]) by {
        if last[k] == c {
            assert(last.contains(c));
        }
    }
    lemma_split_single(last, is_char(c));
    if parts.len() == 1 {
        assert(parts =~= seq![last]);
    } else {
        let front = parts.drop_last();
        assert forall|i: int| 0 <= i < front.len() implies !(#[trigger] front[i]).contains(c) by {
            assert(front[i] == parts[i]);
        }
        lemma_split_join(front, c);
        assert(join(parts, seq![c]) =~= join(front, seq![c]).push(c) + last);
        lemma_split_concat(join(front, seq![c]), c, last, is_char(c));
        assert(front + seq![last] =~= parts);
    }
}

/// Joining undoes splitting.
pub proof fn lemma_join_split(s: Seq<char>, c: char)
    ensures
        join(split(s, c), seq![c]) == s,
    decreases s.len(),
{
    if s.len() == 0 {
        assert(split(s, c) =~= seq![Seq::<char>::empty()]);
        assert(join(split(s, c), seq![c]) =~= s);
    } else {
        let front = split(s.drop_last(), c);
        let all = split(s, c);
        lemma_join_split(s.drop_last(), c);
        lemma_split_nonempty(s.drop_last(), is_char(c));
        if s.last() == c {
            assert(all.drop_last() =~= front);
            assert(join(all, seq![c]) =~= s.drop_last() + seq![c] + Seq::<char>::empty());
            assert(join(all, seq![c]) =~= s);
        } else {
            assert(all.drop_last() =~= front.drop_last());
            if front.len() > 1 {
                assert(join(all, seq![c]) =~= (join(front.drop_last(), seq![c]) + seq![c]
                    + front.last()).push(s.last()));
            } else {
                assert(join(all, seq![c]) =~= front[0].push(s.last()));
            }
            assert(join(all, seq![c]) =~= s);
        }
    }
}

/// A copy of the texts.
pub fn copy_texts(v: &[String]) -> (out: Vec<String>)
    ensures
        texts(out@) == texts(v@),
{
    let mut out: Vec<String> = Vec::new();
    let mut i: usize = 0;
    while i < v.len()
        invariant
            i <= v@.len(),
            out@.len() == i,
            forall|j: int| 0 <= j < i ==> (#[trigger] out@[j])@ == v@[j]@,
        decreases v@.len() - i,
    {
        out.push(v[i].clone());
        i = i + 1;
    }
    assert(texts(out@) =~= texts(v@));
    out
}

/// A copy of the bytes.
pub fn copy_bytes(bytes: &[u8]) -> (out: Vec<u8>)
    ensures
        out@ == bytes@,
{
    let mut out: Vec<u8> = Vec::new();
    let mut i: usize = 0;
    while i < bytes.len()
        invariant
            i <= bytes@.len(),
            out@ == bytes@.take(i as int),
        decreases bytes@.len() - i,
    {
        out.push(bytes[i]);
        i = i + 1;
        assert(out@ =~= bytes@.take(i as int));
    }
    assert(out@ =~= bytes@);
    out
}

/// The text in lower case.
pub uninterp spec fn lowercase_of(s: Seq<char>) -> Seq<char>;

/// `str::to_lowercase`, named [`lowercase_of`]. On ASCII text it replaces each
/// upper-case letter by its lower-case one and keeps the rest.
#[verifier::external_body]
pub(crate) fn to_lowercase(s: &str) -> (out: String)
    ensures
        out@ == lowercase_of(s@),
        (forall|i: int| 0 <= i < s@.len() ==> (#[trigger] s@[i] as u32) < 128) ==> out@
            == crate::numeral::ascii_lowercase(s@),
{
    s.to_lowercase()
}

/// The bytes as text, with what is not UTF-8 replaced.
pub uninterp spec fn lossy_text(bytes: Seq<u8>) -> Seq<char>;

/// `String::from_utf8_lossy`, named [`lossy_text`]. Valid UTF-8 is decoded as it
/// stands.
#[verifier::external_body]
pub(crate) fn from_utf8_lossy(bytes: &[u8]) -> (out: String)
    ensures
        out@ == lossy_text(bytes@),
        vstd::utf8::valid_utf8(bytes@) ==> out@ == vstd::utf8::decode_utf8(bytes@),
{
    String::from_utf8_lossy(bytes).into_owned()
}

/// The parts before and after the first `c`.
pub open spec fn split_at_char(s: Seq<char>, c: char) -> Option<(Seq<char>, Seq<char>)> {
    match first_char(s, c, 0) {
        Some(i) => Some((s.take(i), s.skip(i + 1))),
        None => None,
    }
}

/// The parts before and after the first `c`.
pub fn split_once(s: &str, c: char) -> (out: Option<(String, String)>)
    ensures
        match out {
            Some((a, b)) => split_at_char(s@, c) == Some((a@, b@)),
            None => split_at_char(s@, c) is None,
        },
{
    let cs = to_chars(s);
    let n: usize = cs.len();
    match find_char(&cs, c, 0) {
        Some(i) => {
            let a = from_range(&cs, 0, i);
            let b = from_range(&cs, i + 1, n);
            assert(a@ =~= s@.take(i as int));
            assert(b@ =~= s@.skip(i + 1));
            Some((a, b))
        },
        None => None,
    }
}

/// What follows the last `c`, or all of `s`.
pub open spec fn last_piece(s: Seq<char>, c: char) -> Seq<char> {
    match last_char(s, c, s.len() as int) {
        Some(i) => s.skip(i + 1),
        None => s,
    }
}

/// What follows the last `c`, or all of `s`.
pub fn after_last(s: &str, c: char) -> (out: String)
    ensures
        out@ == last_piece(s@, c),
{
    let cs = to_chars(s);
    match rfind_char(&cs, c, cs.len()) {
        Some(i) => {
            let out = from_range(&cs, i + 1, cs.len());
            assert(out@ =~= s@.skip(i + 1));
            out
        },
        None => String::from_str(s),
    }
}

/// A copy of an optional string.
pub fn copy_opt(s: &Option<String>) -> (out: Option<String>)
    ensures
        opt_text(out) == opt_text(*s),
{
    match s {
        Some(s) => Some(s.clone()),
        None => None,
    }
}

/// The contents of an optional text.
pub open spec fn opt_str(o: Option<&str>) -> Option<Seq<char>> {
    match o {
        Some(s) => Some(s@),
        None => None,
    }
}

/// The contents of a list of pairs of texts.
pub open spec fn pair_views(v: Seq<(String, String)>) -> Seq<(Seq<char>, Seq<char>)> {
    v.map_values(|p: (String, String)| (p.0@, p.1@))
}

} // verus!
