//! Numbers as text: which texts are numbers, and triples of them.

use vstd::prelude::*;

use crate::text;

verus! {

/// Whether `c` is a decimal digit.
pub open spec fn is_digit(c: char) -> bool {
    '0' <= c <= '9'
}

/// Whether every character is a decimal digit.
pub open spec fn all_digits(s: Seq<char>) -> bool {
    forall|i: int| 0 <= i < s.len() ==> is_digit(#[trigger] s[i])
}

/// `s` without one leading sign.
pub open spec fn unsigned(s: Seq<char>) -> Seq<char> {
    if s.len() > 0 && (s[0] == '+' || s[0] == '-') {
        s.skip(1)
    } else {
        s
    }
}

/// The letter in lower case, if it is an ASCII letter.
pub open spec fn ascii_lower(c: char) -> char {
    if 'A' <= c <= 'Z' {
        ((c as u32) + 32) as char
    } else {
        c
    }
}

/// The text with its ASCII letters in lower case.
pub open spec fn ascii_lowercase(s: Seq<char>) -> Seq<char> {
    s.map_values(|c: char| ascii_lower(c))
}

/// Digits with at most one decimal point, and at least one digit.
pub open spec fn is_mantissa(s: Seq<char>) -> bool {
    match text::first_char(s, '.', 0) {
        Some(i) => all_digits(s.take(i)) && all_digits(s.skip(i + 1)) && s.len() > 1,
        None => all_digits(s) && s.len() > 0,
    }
}

/// An optional sign and at least one digit.
pub open spec fn is_exponent(s: Seq<char>) -> bool {
    all_digits(unsigned(s)) && unsigned(s).len() > 0
}

/// A mantissa, and after an `e` an exponent.
pub open spec fn is_decimal(s: Seq<char>) -> bool {
    let low = ascii_lowercase(s);
    match text::first_char(low, 'e', 0) {
        Some(i) => is_mantissa(s.take(i)) && is_exponent(s.skip(i + 1)),
        None => is_mantissa(s),
    }
}

/// Whether `s` reads as a floating-point number: an optional sign, then
/// `inf`, `infinity`, `nan` or a decimal number, in any case.
pub open spec fn is_number(s: Seq<char>) -> bool {
    let t = unsigned(s);
    let low = ascii_lowercase(t);
    low == "inf"@ || low == "infinity"@ || low == "nan"@ || is_decimal(t)
}

/// Whether `cs[from..to]` holds digits only.
pub fn digits_in(cs: &[char], from: usize, to: usize) -> (yes: bool)
    requires
        from <= to <= cs@.len(),
    ensures
        yes == all_digits(cs@.subrange(from as int, to as int)),
{
    let mut i: usize = from;
    while i < to
        invariant
            from <= i <= to <= cs@.len(),
            forall|j: int| from <= j < i ==> is_digit(#[trigger] cs@[j]),
        decreases to - i,
    {
        let c = cs[i];
        if !('0' <= c && c <= '9') {
            assert(cs@.subrange(from as int, to as int)[i - from] == c);
            return false;
        }
        i = i + 1;
    }
    assert forall|k: int| 0 <= k < to - from implies is_digit(
        #[trigger] cs@.subrange(from as int, to as int)[k],
    ) by {
        assert(is_digit(cs@[from + k]));
    }
    true
}

/// The characters with ASCII letters in lower case.
pub fn lowered(cs: &[char]) -> (out: Vec<char>)
    ensures
        out@ == ascii_lowercase(cs@),
{
    let mut out: Vec<char> = Vec::new();
    let mut i: usize = 0;
    while i < cs.len()
        invariant
            i <= cs@.len(),
            out@.len() == i,
            forall|j: int| 0 <= j < i ==> #[trigger] out@[j] == ascii_lower(cs@[j]),
        decreases cs@.len() - i,
    {
        let c = cs[i];
        if 'A' <= c && c <= 'Z' {
            let b: u8 = c as u8;
            out.push((b + 32) as char);
        } else {
            out.push(c);
        }
        i = i + 1;
    }
    assert(out@ =~= ascii_lowercase(cs@));
    out
}

/// [`is_mantissa`], decided.
fn mantissa(cs: &[char]) -> (yes: bool)
    ensures
        yes == is_mantissa(cs@),
{
    let n: usize = cs.len();
    match text::find_char(cs, '.', 0) {
        Some(i) => {
            assert(cs@.take(i as int) =~= cs@.subrange(0, i as int));
            assert(cs@.skip(i + 1) =~= cs@.subrange(i + 1, cs@.len() as int));
            digits_in(cs, 0, i) && digits_in(cs, i + 1, n) && n > 1
        },
        None => {
            assert(cs@ =~= cs@.subrange(0, cs@.len() as int));
            digits_in(cs, 0, cs.len()) && cs.len() > 0
        },
    }
}

/// The position after a leading sign.
fn sign_len(cs: &[char]) -> (n: usize)
    ensures
        n <= cs@.len(),
        unsigned(cs@) == cs@.skip(n as int),
{
    if cs.len() > 0 && (cs[0] == '+' || cs[0] == '-') {
        1
    } else {
        assert(cs@.skip(0) =~= cs@);
        0
    }
}

/// [`is_number`], decided.
pub fn number(s: &str) -> (yes: bool)
    ensures
        yes == is_number(s@),
{
    let all = text::to_chars(s);
    let n = sign_len(&all);
    let t = text::to_chars(text::from_range(&all, n, all.len()).as_str());
    assert(t@ =~= unsigned(s@));
    let low = lowered(&t);
    let word = text::from_chars(&low);
    if text::same(word.as_str(), "inf") || text::same(word.as_str(), "infinity") || text::same(
        word.as_str(),
        "nan",
    ) {
        return true;
    }
    match text::find_char(&low, 'e', 0) {
        Some(i) => {
            let m = text::to_chars(text::from_range(&t, 0, i).as_str());
            let e = text::to_chars(text::from_range(&t, i + 1, t.len()).as_str());
            assert(m@ =~= t@.take(i as int));
            assert(e@ =~= t@.skip(i + 1));
            let k = sign_len(&e);
            assert(unsigned(e@) =~= e@.subrange(k as int, e@.len() as int));
            mantissa(&m) && digits_in(&e, k, e.len()) && k < e.len()
        },
        None => mantissa(&t),
    }
}

/// Three numbers, as text.
#[derive(Debug)]
pub struct Triple {
    pub x: String,
    pub y: String,
    pub z: String,
}

/// The contents of a [`Triple`].
pub struct TripleView {
    pub x: Seq<char>,
    pub y: Seq<char>,
    pub z: Seq<char>,
}

impl View for Triple {
    type V = TripleView;

    open spec fn view(&self) -> TripleView {
        TripleView { x: self.x@, y: self.y@, z: self.z@ }
    }
}

impl Clone for Triple {
    fn clone(&self) -> (out: Self)
        ensures
            out@ == self@,
    {
        Triple { x: self.x.clone(), y: self.y.clone(), z: self.z.clone() }
    }
}

impl TripleView {
    /// The number `v` three times.
    pub open spec fn all(v: Seq<char>) -> TripleView {
        TripleView { x: v, y: v, z: v }
    }

    /// The three numbers with spaces between them.
    pub open spec fn spaced(self) -> Seq<char> {
        self.x + " "@ + self.y + " "@ + self.z
    }
}

impl Triple {
    /// The number `v` three times.
    pub fn all(v: &str) -> (out: Triple)
        ensures
            out@ == TripleView::all(v@),
    {
        Triple { x: String::from_str(v), y: String::from_str(v), z: String::from_str(v) }
    }

    /// The three numbers with spaces between them.
    pub fn spaced(&self) -> (out: String)
        ensures
            out@ == self@.spaced(),
    {
        let mut out = self.x.clone();
        out.append(" ");
        out.append(self.y.as_str());
        out.append(" ");
        out.append(self.z.as_str());
        out
    }
}

/// The three numbers of a text, when it holds exactly three words and each is
/// a number.
pub open spec fn three_numbers(s: Seq<char>) -> Option<TripleView> {
    let w = text::words(s);
    if w.len() == 3 && is_number(w[0]) && is_number(w[1]) && is_number(w[2]) {
        Some(TripleView { x: w[0], y: w[1], z: w[2] })
    } else {
        None
    }
}

/// The contents of an optional triple.
pub open spec fn opt_triple(t: Option<Triple>) -> Option<TripleView> {
    match t {
        Some(t) => Some(t@),
        None => None,
    }
}

/// The three numbers of `s`, when it holds exactly three words and each is a
/// number.
pub fn floats3(s: &str) -> (out: Option<Triple>)
    ensures
        opt_triple(out) == three_numbers(s@),
{
    let cs = text::to_chars(s);
    let w = text::split_words(&cs);
    proof {
        let t = text::texts(w@);
        if w@.len() == 3 {
            assert(t[0] == w@[0]@ && t[1] == w@[1]@ && t[2] == w@[2]@);
        }
    }
    if w.len() == 3 && number(w[0].as_str()) && number(w[1].as_str()) && number(w[2].as_str()) {
        Some(Triple { x: w[0].clone(), y: w[1].clone(), z: w[2].clone() })
    } else {
        None
    }
}

/// The value of a text of decimal digits.
pub open spec fn digits_value(s: Seq<char>) -> nat
    decreases s.len(),
{
    if s.len() == 0 {
        0
    } else {
        (10 * digits_value(s.drop_last()) + (s.last() as int - 48)) as nat
    }
}

/// The value of at least one decimal digit.
pub open spec fn digits_of(s: Seq<char>) -> Option<nat> {
    if s.len() > 0 && all_digits(s) {
        Some(digits_value(s))
    } else {
        None
    }
}

/// The integer that `s` writes with an optional sign, if it fits in 64 bits.
pub open spec fn integer(s: Seq<char>) -> Option<int> {
    match digits_of(unsigned(s)) {
        Some(n) => {
            let v = if s[0] == '-' {
                -(n as int)
            } else {
                n as int
            };
            if i64::MIN <= v <= i64::MAX {
                Some(v)
            } else {
                None
            }
        },
        None => None,
    }
}

/// The index that `s` writes with an optional plus sign, if it fits.
pub open spec fn index(s: Seq<char>) -> Option<int> {
    if s.len() > 0 && s[0] == '-' {
        None
    } else {
        match digits_of(unsigned(s)) {
            Some(n) => if n <= usize::MAX {
                Some(n as int)
            } else {
                None
            },
            None => None,
        }
    }
}

proof fn lemma_digits_grow(s: Seq<char>, n: int)
    requires
        all_digits(s),
        0 <= n <= s.len(),
    ensures
        digits_value(s.take(n)) <= digits_value(s),
    decreases s.len() - n,
{
    if n < s.len() {
        lemma_digits_grow(s, n + 1);
        assert(s.take(n + 1).drop_last() =~= s.take(n));
        assert(is_digit(s[n]));
    } else {
        assert(s.take(n) =~= s);
    }
}

/// The value of the digits `cs[from..]`, if there are any and it is at most
/// `max`.
fn digits_up_to(cs: &[char], from: usize, max: u64) -> (out: Option<u64>)
    requires
        from <= cs@.len(),
    ensures
        match out {
            Some(v) => v <= max && digits_of(cs@.skip(from as int)) == Some(v as nat),
            None => digits_of(cs@.skip(from as int)) is None || digits_of(
                cs@.skip(from as int),
            )->0 > max,
        },
{
    let ghost t = cs@.skip(from as int);
    if from == cs.len() {
        return None;
    }
    let mut acc: u64 = 0;
    let mut i: usize = from;
    while i < cs.len()
        invariant
            from <= i <= cs@.len(),
            t == cs@.skip(from as int),
            t.len() > 0,
            forall|j: int| 0 <= j < i - from ==> is_digit(#[trigger] t[j]),
            acc == digits_value(t.take(i - from)),
            acc <= max,
        decreases cs@.len() - i,
    {
        let c = cs[i];
        assert(c == t[i - from]);
        if !('0' <= c && c <= '9') {
            return None;
        }
        proof {
            assert(t.take(i - from + 1).drop_last() =~= t.take(i - from));
        }
        let next: u128 = 10 * (acc as u128) + ((c as u8) - 48) as u128;
        assert(next == digits_value(t.take(i - from + 1)));
        if next > max as u128 {
            proof {
                if all_digits(t) {
                    lemma_digits_grow(t, i - from + 1);
                }
            }
            return None;
        }
        acc = next as u64;
        i = i + 1;
    }
    assert(t.take(i - from) =~= t);
    Some(acc)
}

/// The value of a text of decimal digits, if it fits in 64 bits.
pub fn parse_count(s: &str) -> (out: Option<u64>)
    ensures
        match out {
            Some(v) => digits_of(s@) == Some(v as nat),
            None => digits_of(s@) is None || digits_of(s@)->0 > u64::MAX,
        },
{
    let cs = text::to_chars(s);
    assert(cs@.skip(0) =~= s@);
    digits_up_to(&cs, 0, u64::MAX)
}

/// The integer that `s` writes.
pub fn parse_integer(s: &str) -> (out: Option<i64>)
    ensures
        match out {
            Some(v) => integer(s@) == Some(v as int),
            None => integer(s@) is None,
        },
{
    let cs = text::to_chars(s);
    if cs.len() == 0 {
        assert(unsigned(s@) =~= s@);
        return None;
    }
    if cs[0] == '-' {
        match digits_up_to(&cs, 1, 0x8000_0000_0000_0000) {
            Some(n) => if n == 0x8000_0000_0000_0000 {
                Some(i64::MIN)
            } else {
                Some(-(n as i64))
            },
            None => None,
        }
    } else {
        let from: usize = if cs[0] == '+' {
            1
        } else {
            0
        };
        assert(unsigned(s@) =~= cs@.skip(from as int));
        match digits_up_to(&cs, from, 0x7fff_ffff_ffff_ffff) {
            Some(n) => Some(n as i64),
            None => None,
        }
    }
}

/// The index that `s` writes.
pub fn parse_index(s: &str) -> (out: Option<usize>)
    ensures
        match out {
            Some(v) => index(s@) == Some(v as int),
            None => index(s@) is None,
        },
{
    let cs = text::to_chars(s);
    if cs.len() == 0 {
        assert(unsigned(s@) =~= s@);
        return None;
    }
    if cs[0] == '-' {
        return None;
    }
    let from: usize = if cs[0] == '+' {
        1
    } else {
        0
    };
    assert(unsigned(s@) =~= cs@.skip(from as int));
    match digits_up_to(&cs, from, usize::MAX as u64) {
        Some(n) => Some(n as usize),
        None => None,
    }
}

/// Whether a number can hold `c`.
pub open spec fn is_number_char(c: char) -> bool {
    is_digit(c) || c == '.' || c == '+' || c == '-' || 'a' <= c <= 'z' || 'A' <= c <= 'Z'
}

/// Whether every character is one of a number, and there is one.
pub open spec fn is_word(t: Seq<char>) -> bool {
    t.len() > 0 && forall|i: int| 0 <= i < t.len() ==> is_number_char(#[trigger] t[i])
}

proof fn lemma_mantissa_is_word(t: Seq<char>)
    requires
        is_mantissa(t),
    ensures
        is_word(t),
{
    text::lemma_first_char(t, '.', 0);
    match text::first_char(t, '.', 0) {
        Some(k) => {
            assert forall|i: int| 0 <= i < t.len() implies is_number_char(#[trigger] t[i]) by {
                if i < k {
                    assert(is_digit(t.take(k)[i]));
                } else if i > k {
                    assert(is_digit(t.skip(k + 1)[i - k - 1]));
                }
            }
        },
        None => {
            assert forall|i: int| 0 <= i < t.len() implies is_number_char(#[trigger] t[i]) by {
                assert(is_digit(t[i]));
            }
        },
    }
}

proof fn lemma_exponent_is_word(t: Seq<char>)
    requires
        is_exponent(t),
    ensures
        is_word(t),
{
    let u = unsigned(t);
    assert forall|i: int| 0 <= i < t.len() implies is_number_char(#[trigger] t[i]) by {
        if u.len() == t.len() {
            assert(is_digit(u[i]));
        } else if i > 0 {
            assert(is_digit(u[i - 1]));
        }
    }
}

/// A character that is in lower case the letter `l` is a letter.
proof fn lemma_lower_is_letter(c: char, l: char)
    requires
        ascii_lower(c) == l,
        'a' <= l <= 'z',
    ensures
        is_number_char(c),
{
}

/// A text that is in lower case a word of letters is a word.
proof fn lemma_letters_are_word(t: Seq<char>, w: Seq<char>)
    requires
        ascii_lowercase(t) == w,
        w.len() > 0,
        forall|i: int| 0 <= i < w.len() ==> 'a' <= #[trigger] w[i] <= 'z',
    ensures
        is_word(t),
{
    assert forall|i: int| 0 <= i < t.len() implies is_number_char(#[trigger] t[i]) by {
        assert(w[i] == ascii_lower(t[i]));
        lemma_lower_is_letter(t[i], w[i]);
    }
}

proof fn lemma_decimal_is_word(t: Seq<char>)
    requires
        is_decimal(t),
    ensures
        is_word(t),
{
    let low = ascii_lowercase(t);
    text::lemma_first_char(low, 'e', 0);
    match text::first_char(low, 'e', 0) {
        Some(k) => {
            lemma_mantissa_is_word(t.take(k));
            lemma_exponent_is_word(t.skip(k + 1));
            assert forall|i: int| 0 <= i < t.len() implies is_number_char(#[trigger] t[i]) by {
                if i < k {
                    assert(is_number_char(t.take(k)[i]));
                } else if i > k {
                    assert(is_number_char(t.skip(k + 1)[i - k - 1]));
                } else {
                    assert(low[k] == ascii_lower(t[k]));
                    lemma_lower_is_letter(t[k], 'e');
                }
            }
        },
        None => {
            lemma_mantissa_is_word(t);
        },
    }
}

/// A number holds characters of numbers only.
pub proof fn lemma_number_is_word(t: Seq<char>)
    requires
        is_number(t),
    ensures
        is_word(t),
{
    let u = unsigned(t);
    let low = ascii_lowercase(u);
    reveal_strlit("inf");
    reveal_strlit("infinity");
    reveal_strlit("nan");
    if low == "inf"@ {
        lemma_letters_are_word(u, "inf"@);
    } else if low == "infinity"@ {
        lemma_letters_are_word(u, "infinity"@);
    } else if low == "nan"@ {
        lemma_letters_are_word(u, "nan"@);
    } else {
        lemma_decimal_is_word(u);
    }
    assert forall|i: int| 0 <= i < t.len() implies is_number_char(#[trigger] t[i]) by {
        if u.len() == t.len() {
            assert(is_number_char(u[i]));
        } else if i > 0 {
            assert(is_number_char(u[i - 1]));
        }
    }
}

/// Trimming keeps a word.
pub proof fn lemma_trim_word(t: Seq<char>)
    requires
        is_word(t),
    ensures
        text::trim(t) == t,
{
    assert(!text::is_white(t[0]));
    assert(text::after_white(t, 0) == 0);
    assert(text::trim_start(t) =~= t);
    assert(!text::is_white(t[t.len() - 1]));
    assert(text::before_white(t, t.len() as int) == t.len());
    assert(text::trim_end(t) =~= t);
}

/// Three numbers with spaces between them are read as those numbers.
pub proof fn lemma_three_numbers(c: TripleView)
    requires
        is_number(c.x),
        is_number(c.y),
        is_number(c.z),
    ensures
        three_numbers(c.spaced()) == Some(c),
{
    reveal_strlit(" ");
    let sep = |x: char| text::is_white(x);
    let keep = |w: Seq<char>| w.len() > 0;
    lemma_number_is_word(c.x);
    lemma_number_is_word(c.y);
    lemma_number_is_word(c.z);
    text::lemma_split_single(c.x, sep);
    text::lemma_split_single(c.y, sep);
    text::lemma_split_single(c.z, sep);
    text::lemma_split_concat(c.x, ' ', c.y, sep);
    text::lemma_split_concat(c.x.push(' ') + c.y, ' ', c.z, sep);
    assert(c.spaced() =~= (c.x.push(' ') + c.y).push(' ') + c.z);
    let pieces = seq![c.x, c.y, c.z];
    assert(text::split_on(c.spaced(), sep) =~= pieces);
    reveal_with_fuel(Seq::filter, 4);
    assert(pieces.drop_last() =~= seq![c.x, c.y]);
    assert(pieces.drop_last().drop_last() =~= seq![c.x]);
    assert(pieces.drop_last().drop_last().drop_last() =~= Seq::empty());
    assert(pieces.filter(keep) =~= pieces);
    assert(text::words(c.spaced()) == pieces);
}

/// A number holds digits, points, signs and letters only, and at least one of them: no
/// other text is a number.
pub proof fn numbers_hold_no_other_characters(t: Seq<char>)
    requires
        is_number(t),
    ensures
        t.len() > 0,
        forall|i: int|
            0 <= i < t.len() ==> '0' <= #[trigger] t[i] <= '9' || t[i] == '.' || t[i] == '+' || t[i]
                == '-' || 'a' <= t[i] <= 'z' || 'A' <= t[i] <= 'Z',
{
    lemma_number_is_word(t);
    assert forall|i: int| 0 <= i < t.len() implies '0' <= #[trigger] t[i] <= '9' || t[i] == '.'
        || t[i] == '+' || t[i] == '-' || 'a' <= t[i] <= 'z' || 'A' <= t[i] <= 'Z' by {
        assert(is_number_char(t[i]));
    }
}

/// Three numbers with white space around them are read as those numbers, each in its
/// place.
pub proof fn three_numbers_are_read_in_their_places(x: Seq<char>, y: Seq<char>, z: Seq<char>)
    requires
        is_number(x),
        is_number(y),
        is_number(z),
    ensures
        three_numbers(x + " "@ + y + " "@ + z) == Some(TripleView { x, y, z }),
        text::words(x + " "@ + y + " "@ + z) == seq![x, y, z],
        text::words(x) == seq![x],
{
    let c = TripleView { x, y, z };
    lemma_three_numbers(c);
    assert(c.spaced() =~= x + " "@ + y + " "@ + z);
    let w = text::words(c.spaced());
    assert(w =~= seq![x, y, z]);
    lemma_number_is_word(x);
    let sep = |a: char| text::is_white(a);
    let keep = |a: Seq<char>| a.len() > 0;
    text::lemma_split_single(x, sep);
    reveal_with_fuel(Seq::filter, 2);
    assert(seq![x].drop_last() =~= Seq::<Seq<char>>::empty());
    assert(seq![x].filter(keep) =~= seq![x]);
}

/// Whether a text is a sign or empty.
pub open spec fn is_sign(s: Seq<char>) -> bool {
    s.len() == 0 || (s.len() == 1 && (s[0] == '+' || s[0] == '-'))
}

proof fn lemma_lower_keeps(s: Seq<char>)
    requires
        forall|i: int|
            0 <= i < s.len() ==> is_digit(#[trigger] s[i]) || s[i] == '.' || s[i] == 'e' || s[i] == '+'
                || s[i] == '-',
    ensures
        ascii_lowercase(s) == s,
{
    assert(ascii_lowercase(s) =~= s);
}

proof fn lemma_no_char(s: Seq<char>, c: char)
    requires
        forall|i: int| 0 <= i < s.len() ==> #[trigger] s[i] != c,
    ensures
        text::first_char(s, c, 0) is None,
{
    text::lemma_first_char(s, c, 0);
}

proof fn lemma_char_at(s: Seq<char>, c: char, k: int)
    requires
        0 <= k < s.len(),
        s[k] == c,
        forall|i: int| 0 <= i < k ==> #[trigger] s[i] != c,
    ensures
        text::first_char(s, c, 0) == Some(k),
{
    text::lemma_first_char(s, c, 0);
}

proof fn lemma_mantissa(whole: Seq<char>, frac: Seq<char>)
    requires
        all_digits(whole),
        all_digits(frac),
        whole.len() + frac.len() > 0,
    ensures
        whole.len() > 0 ==> is_mantissa(whole),
        is_mantissa(whole + seq!['.'] + frac),
{
    if whole.len() > 0 {
        assert forall|i: int| 0 <= i < whole.len() implies #[trigger] whole[i] != '.' by {
            assert(is_digit(whole[i]));
        }
        lemma_no_char(whole, '.');
    }
    let s = whole + seq!['.'] + frac;
    let k = whole.len() as int;
    assert forall|i: int| 0 <= i < k implies #[trigger] s[i] != '.' by {
        assert(is_digit(whole[i]));
    }
    lemma_char_at(s, '.', k);
    assert(s.take(k) =~= whole);
    assert(s.skip(k + 1) =~= frac);
}

/// Decimal numbers are read as numbers: digits, with a point before, between or after
/// them, with a sign, and with an exponent.
pub proof fn decimals_are_numbers(
    sign: Seq<char>,
    whole: Seq<char>,
    frac: Seq<char>,
    exponent_sign: Seq<char>,
    exponent: Seq<char>,
)
    requires
        is_sign(sign),
        is_sign(exponent_sign),
        all_digits(whole),
        all_digits(frac),
        all_digits(exponent),
        whole.len() + frac.len() > 0,
        exponent.len() > 0,
    ensures
        whole.len() > 0 ==> is_number(sign + whole),
        is_number(sign + (whole + seq!['.'] + frac)),
        is_number(
            sign + (whole + seq!['.'] + frac + seq!['e'] + exponent_sign + exponent),
        ),
{
    lemma_mantissa(whole, frac);
    let m = whole + seq!['.'] + frac;
    let e = exponent_sign + exponent;
    let all = m + seq!['e'] + exponent_sign + exponent;
    assert(all =~= m + seq!['e'] + e);
    assert forall|i: int| 0 <= i < m.len() implies is_digit(#[trigger] m[i]) || m[i] == '.' by {
        if i < whole.len() {
            assert(is_digit(whole[i]));
        } else if i > whole.len() {
            assert(is_digit(frac[i - whole.len() - 1]));
        }
    }
    assert forall|i: int| 0 <= i < e.len() implies is_digit(#[trigger] e[i]) || e[i] == '+' || e[i]
        == '-' by {
        if i >= exponent_sign.len() {
            assert(is_digit(exponent[i - exponent_sign.len()]));
        }
    }
    if whole.len() > 0 {
        assert(is_digit(whole[0]));
        lemma_lower_keeps(whole);
        assert forall|i: int| 0 <= i < whole.len() implies #[trigger] whole[i] != 'e' by {
            assert(is_digit(whole[i]));
        }
        lemma_no_char(whole, 'e');
        lemma_signed(sign, whole);
    }
    lemma_lower_keeps(m);
    lemma_no_char(m, 'e');
    assert(m[0] != '+' && m[0] != '-');
    lemma_signed(sign, m);
    assert forall|i: int| 0 <= i < all.len() implies is_digit(#[trigger] all[i]) || all[i] == '.'
        || all[i] == 'e' || all[i] == '+' || all[i] == '-' by {
        if i < m.len() {
            assert(all[i] == m[i]);
        } else if i > m.len() {
            assert(all[i] == e[i - m.len() - 1]);
        }
    }
    lemma_lower_keeps(all);
    let k = m.len() as int;
    assert forall|i: int| 0 <= i < k implies #[trigger] all[i] != 'e' by {
        assert(all[i] == m[i]);
    }
    lemma_char_at(all, 'e', k);
    assert(all.take(k) =~= m);
    assert(all.skip(k + 1) =~= e);
    assert(unsigned(e) =~= exponent) by {
        if exponent_sign.len() == 0 {
            assert(is_digit(exponent[0]));
            assert(e =~= exponent);
        }
    }
    assert(all[0] == m[0]);
    lemma_signed(sign, all);
}

/// A sign does not change whether a text is a decimal number.
proof fn lemma_signed(sign: Seq<char>, t: Seq<char>)
    requires
        is_sign(sign),
        is_decimal(t),
        t.len() > 0,
        t[0] != '+' && t[0] != '-',
    ensures
        is_number(sign + t),
{
    if sign.len() == 0 {
        assert(sign + t =~= t);
        assert(unsigned(t) =~= t);
    } else {
        assert(unsigned(sign + t) =~= t);
    }
}

/// The digits that a number is written with give the number back, and nothing comes
/// before its first digit.
pub proof fn written_numbers_are_read_back(n: nat)
    ensures
        digits_of(text::decimal(n)) == Some(n),
        text::decimal(n).len() > 1 ==> text::decimal(n)[0] != '0',
    decreases n,
{
    let d = text::decimal(n);
    if n >= 10 {
        written_numbers_are_read_back(n / 10);
        let f = text::decimal(n / 10);
        assert(d.drop_last() =~= f);
        assert(d[0] == f[0]);
        if f.len() == 1 {
            assert(n / 10 < 10) by {
                if n / 10 >= 10 {
                    written_numbers_are_read_back(n / 10 / 10);
                    assert(text::decimal(n / 10 / 10).len() > 0);
                }
            }
        }
        assert forall|i: int| 0 <= i < d.len() implies is_digit(#[trigger] d[i]) by {
            if i < f.len() {
                assert(is_digit(f[i]));
            }
        }
    } else {
        assert(d.drop_last() =~= Seq::<char>::empty());
        assert(digits_value(d.drop_last()) == 0);
        assert forall|i: int| 0 <= i < d.len() implies is_digit(#[trigger] d[i]) by {}
    }
}

/// An integer that is written with its sign is read back, as far as it fits in 64 bits.
pub proof fn written_integers_are_read_back(n: int)
    ensures
        i64::MIN <= n <= i64::MAX ==> integer(text::signed(n)) == Some(n),
        n > i64::MAX || n < i64::MIN ==> integer(text::signed(n)) is None,
        0 <= n <= i64::MAX ==> integer(seq!['+'] + text::signed(n)) == Some(n),
{
    let m = if n < 0 {
        (-n) as nat
    } else {
        n as nat
    };
    let d = text::decimal(m);
    written_numbers_are_read_back(m);
    assert(is_digit(d[0]));
    reveal_strlit("-");
    assert(("-"@ + d).skip(1) =~= d);
    assert((seq!['+'] + d).skip(1) =~= d);
}

/// A number can be told from what surrounds it: white space around it is left out.
pub proof fn white_space_around_words_is_left_out(a: Seq<char>, t: Seq<char>, b: Seq<char>)
    requires
        t.len() > 0,
        !text::is_white(t[0]),
        !text::is_white(t.last()),
        forall|i: int| 0 <= i < a.len() ==> text::is_white(#[trigger] a[i]),
        forall|i: int| 0 <= i < b.len() ==> text::is_white(#[trigger] b[i]),
    ensures
        text::trim(a + t + b) == t,
{
    let s = a + t + b;
    text::lemma_after_white(s, 0);
    let x = text::after_white(s, 0);
    assert(x == a.len()) by {
        if x < a.len() {
            assert(text::is_white(a[x]));
            assert(s[x] == a[x]);
        }
        if x > a.len() {
            assert(s[a.len() as int] == t[0]);
        }
    }
    let u = text::trim_start(s);
    assert(u =~= t + b);
    text::lemma_before_white(u, u.len() as int);
    let y = text::before_white(u, u.len() as int);
    assert(y == t.len()) by {
        if y > t.len() {
            assert(text::is_white(b[y - 1 - t.len()]));
            assert(u[y - 1] == b[y - 1 - t.len()]);
        }
        if y < t.len() {
            assert(u[t.len() - 1] == t.last());
        }
    }
    assert(text::trim_end(u) =~= t);
}

} // verus!
