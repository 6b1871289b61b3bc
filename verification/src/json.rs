//! What the library reads from JSON texts. Numbers and other values come out
//! as JSON writes them.

use vstd::prelude::*;

use crate::text;

verus! {

/// The members of the JSON object `s`, each value as compact JSON; `None` for a
/// value that is no object, and the parser's message for a text that is not
/// JSON.
pub uninterp spec fn json_members(s: Seq<char>) -> Result<
    Option<Seq<(Seq<char>, Seq<char>)>>,
    Seq<char>,
>;

/// The names of the members.
pub open spec fn member_names(v: Seq<(Seq<char>, Seq<char>)>) -> Seq<Seq<char>> {
    v.map_values(|m: (Seq<char>, Seq<char>)| m.0)
}

/// `serde_json::from_str` into a `Value`, with the members of an object listed
/// and each value written out by `Value`'s `to_string`; named
/// [`json_members`]. The members come in ascending order of their names, each
/// name once.
#[verifier::external_body]
fn read_members(s: &str) -> (res: Result<Option<Vec<(String, String)>>, String>)
    ensures
        match res {
            Ok(Some(m)) => json_members(s@) == Ok::<
                Option<Seq<(Seq<char>, Seq<char>)>>,
                Seq<char>,
            >(Some(text::pair_views(m@))) && text::ascending(member_names(text::pair_views(m@))),
            Ok(None) => json_members(s@) == Ok::<Option<Seq<(Seq<char>, Seq<char>)>>, Seq<char>>(
                None,
            ),
            Err(e) => json_members(s@) == Err::<Option<Seq<(Seq<char>, Seq<char>)>>, Seq<char>>(e@),
        },
{
    let value: serde_json::Value = serde_json::from_str(s).map_err(|e| e.to_string())?;
    Ok(match value {
        serde_json::Value::Object(map) => Some(map.into_iter().map(|(k, v)| (k, v.to_string())).collect()),
        _ => None,
    })
}

/// The members of the JSON object `s`.
pub fn members(s: &str) -> (res: Result<Option<Vec<(String, String)>>, String>)
    ensures
        match res {
            Ok(Some(m)) => json_members(s@) == Ok::<
                Option<Seq<(Seq<char>, Seq<char>)>>,
                Seq<char>,
            >(Some(text::pair_views(m@))) && text::ascending(member_names(text::pair_views(m@))),
            Ok(None) => json_members(s@) == Ok::<Option<Seq<(Seq<char>, Seq<char>)>>, Seq<char>>(
                None,
            ),
            Err(e) => json_members(s@) == Err::<Option<Seq<(Seq<char>, Seq<char>)>>, Seq<char>>(e@),
        },
{
    read_members(s)
}

/// The boolean at the JSON pointer `pointer` of `s`; `None` when the text is not
/// JSON or holds no boolean there.
pub uninterp spec fn json_bool(s: Seq<char>, pointer: Seq<char>) -> Option<bool>;

/// `serde_json::Value::pointer` and `as_bool` on the value that
/// `serde_json::from_str` makes of `s` (null when it fails); named
/// [`json_bool`].
#[verifier::external_body]
pub(crate) fn bool_at(s: &str, pointer: &str) -> (out: Option<bool>)
    ensures
        out == json_bool(s@, pointer@),
{
    let value = serde_json::from_str::<serde_json::Value>(s).unwrap_or_default();
    value.pointer(pointer).and_then(|b| b.as_bool())
}

/// The member `key` of the JSON object `s` as rows of numbers, each number as
/// JSON writes it; `None` when there is no such member or it is not made of
/// rows of numbers, and the parser's message for a text that is not JSON.
pub uninterp spec fn json_rows(s: Seq<char>, key: Seq<char>) -> Result<
    Option<Seq<Seq<Seq<char>>>>,
    Seq<char>,
>;

/// The contents of rows of texts.
pub open spec fn row_views(v: Seq<Vec<String>>) -> Seq<Seq<Seq<char>>> {
    v.map_values(|r: Vec<String>| text::texts(r@))
}

/// `serde_json::from_value` into rows of `serde_json::Number` on the member
/// `key` of the value that `serde_json::from_str` makes of `s`; named
/// [`json_rows`].
#[verifier::external_body]
pub(crate) fn rows_at(s: &str, key: &str) -> (res: Result<Option<Vec<Vec<String>>>, String>)
    ensures
        match res {
            Ok(Some(rows)) => json_rows(s@, key@) == Ok::<
                Option<Seq<Seq<Seq<char>>>>,
                Seq<char>,
            >(Some(row_views(rows@))),
            Ok(None) => json_rows(s@, key@) == Ok::<Option<Seq<Seq<Seq<char>>>>, Seq<char>>(None),
            Err(e) => json_rows(s@, key@) == Err::<Option<Seq<Seq<Seq<char>>>>, Seq<char>>(e@),
        },
{
    let value: serde_json::Value = serde_json::from_str(s).map_err(|e| e.to_string())?;
    let member = value.get(key).cloned().unwrap_or_default();
    let rows = serde_json::from_value::<Vec<Vec<serde_json::Number>>>(member).ok();
    Ok(rows.map(|rows| rows.iter().map(|r| r.iter().map(|n| n.to_string()).collect()).collect()))
}

/// The member `key` of the JSON object `s` as a list of numbers, each number as
/// JSON writes it; `None` when there is no such member or it is not a list of
/// numbers, and the parser's message for a text that is not JSON.
pub uninterp spec fn json_list(s: Seq<char>, key: Seq<char>) -> Result<
    Option<Seq<Seq<char>>>,
    Seq<char>,
>;

/// `serde_json::from_value` into a list of `serde_json::Number` on the member
/// `key` of the value that `serde_json::from_str` makes of `s`; named
/// [`json_list`].
#[verifier::external_body]
pub(crate) fn list_at(s: &str, key: &str) -> (res: Result<Option<Vec<String>>, String>)
    ensures
        match res {
            Ok(Some(v)) => json_list(s@, key@) == Ok::<Option<Seq<Seq<char>>>, Seq<char>>(
                Some(text::texts(v@)),
            ),
            Ok(None) => json_list(s@, key@) == Ok::<Option<Seq<Seq<char>>>, Seq<char>>(None),
            Err(e) => json_list(s@, key@) == Err::<Option<Seq<Seq<char>>>, Seq<char>>(e@),
        },
{
    let value: serde_json::Value = serde_json::from_str(s).map_err(|e| e.to_string())?;
    let member = value.get(key).cloned().unwrap_or_default();
    let list = serde_json::from_value::<Vec<serde_json::Number>>(member).ok();
    Ok(list.map(|list| list.iter().map(|n| n.to_string()).collect()))
}

/// The lower-case hexadecimal digit with value `d`.
pub open spec fn hex_char(d: nat) -> char {
    if d < 10 {
        (48 + d) as char
    } else {
        (87 + d) as char
    }
}

/// How JSON writes the character `c` inside a string.
pub open spec fn json_char(c: char) -> Seq<char> {
    let n = c as nat;
    if c == '"' {
        seq!['\\', '"']
    } else if c == '\\' {
        seq!['\\', '\\']
    } else if n == 8 {
        seq!['\\', 'b']
    } else if n == 9 {
        seq!['\\', 't']
    } else if n == 10 {
        seq!['\\', 'n']
    } else if n == 12 {
        seq!['\\', 'f']
    } else if n == 13 {
        seq!['\\', 'r']
    } else if n < 32 {
        seq!['\\', 'u', '0', '0', hex_char(n / 16), hex_char(n % 16)]
    } else {
        seq![c]
    }
}

/// `s` as a JSON string, quotes and all.
pub open spec fn quoted(s: Seq<char>) -> Seq<char> {
    seq!['"'] + s.flat_map(|c: char| json_char(c)) + seq!['"']
}

/// `serde_json::to_string` of a string: the text between double quotes, with
/// the quote, the backslash and the control characters escaped, and everything
/// else as it is.
#[verifier::external_body]
pub(crate) fn quote(s: &str) -> (out: String)
    ensures
        out@ == quoted(s@),
{
    serde_json::to_string(s).expect("a string serializes")
}

/// The UTF-16 code units of `c`.
pub open spec fn utf16(c: char) -> Seq<nat> {
    let n = c as nat;
    if n < 0x10000 {
        seq![n]
    } else {
        seq![(0xD800 + (n - 0x10000) / 1024) as nat, (0xDC00 + (n - 0x10000) % 1024) as nat]
    }
}

/// `\uXXXX` for a UTF-16 code unit.
pub open spec fn unit_escape(u: nat) -> Seq<char> {
    seq![
        '\\',
        'u',
        hex_char(u / 4096),
        hex_char((u / 256) % 16),
        hex_char((u / 16) % 16),
        hex_char(u % 16),
    ]
}

/// How a header value writes the character `c`.
pub open spec fn ascii_char(c: char) -> Seq<char> {
    if (c as nat) < 128 {
        seq![c]
    } else {
        utf16(c).flat_map(|u: nat| unit_escape(u))
    }
}

/// JSON text with every non-ASCII character as `\uXXXX`.
pub open spec fn ascii_only(s: Seq<char>) -> Seq<char> {
    s.flat_map(|c: char| ascii_char(c))
}

/// The lower-case hexadecimal digit with value `d`.
pub(crate) fn hex_of(d: u32) -> (c: char)
    requires
        d < 16,
    ensures
        c == hex_char(d as nat),
{
    let b: u8 = d as u8;
    if b < 10 {
        (48 + b) as char
    } else {
        (87 + b) as char
    }
}

/// Append `\uXXXX`.
pub(crate) fn push_unit(out: &mut String, u: u32)
    requires
        u < 0x10000,
    ensures
        final(out)@ == old(out)@ + unit_escape(u as nat),
{
    let ghost before = out@;
    out.push('\\');
    out.push('u');
    out.push(hex_of(u / 4096));
    out.push(hex_of((u / 256) % 16));
    out.push(hex_of((u / 16) % 16));
    out.push(hex_of(u % 16));
    assert(out@ =~= before + unit_escape(u as nat));
}

/// Append `c` as a header value writes it.
fn push_ascii(out: &mut String, c: char)
    ensures
        final(out)@ == old(out)@ + ascii_char(c),
{
    let ghost before = out@;
    let n: u32 = c as u32;
    if n < 128 {
        out.push(c);
        assert(out@ =~= before + ascii_char(c));
    } else if n < 0x10000 {
        push_unit(out, n);
        proof {
            lemma_one_unit(n as nat);
        }
    } else {
        let hi: u32 = 0xD800 + (n - 0x10000) / 1024;
        let lo: u32 = 0xDC00 + (n - 0x10000) % 1024;
        push_unit(out, hi);
        push_unit(out, lo);
        proof {
            lemma_two_units(hi as nat, lo as nat);
            assert(out@ =~= before + ascii_char(c));
        }
    }
}

/// JSON for an HTTP header value: `json` with every non-ASCII character
/// escaped as `\uXXXX`.
pub fn ascii_json(json: &str) -> (out: String)
    ensures
        out@ == ascii_only(json@),
{
    let cs = text::to_chars(json);
    let mut out = String::new();
    let mut i: usize = 0;
    let ghost f = |c: char| ascii_char(c);
    proof {
        reveal(Seq::flat_map);
        assert(out@ =~= cs@.take(0).flat_map(f)) by {
            assert(cs@.take(0).map_values(f) =~= Seq::empty());
        }
    }
    while i < cs.len()
        invariant
            i <= cs@.len(),
            f == (|c: char| ascii_char(c)),
            out@ == cs@.take(i as int).flat_map(f),
        decreases cs@.len() - i,
    {
        let c = cs[i];
        push_ascii(&mut out, c);
        proof {
            cs@.lemma_flat_map_take_append(f, i as int);
        }
        i = i + 1;
    }
    assert(cs@.take(i as int) =~= cs@);
    out
}

proof fn lemma_one_unit(u: nat)
    ensures
        seq![u].flat_map(|u: nat| unit_escape(u)) == unit_escape(u),
{
    let f = |u: nat| unit_escape(u);
    let s = seq![u];
    s.lemma_flat_map_take_append(f, 0);
    reveal(Seq::flat_map);
    assert(s.take(0) =~= Seq::empty());
    assert(s.take(0).map_values(f) =~= Seq::empty());
    assert(s.take(1) =~= s);
    assert(s.take(0).flat_map(f) =~= Seq::empty());
}

proof fn lemma_two_units(u: nat, v: nat)
    ensures
        seq![u, v].flat_map(|u: nat| unit_escape(u)) == unit_escape(u) + unit_escape(v),
{
    let f = |u: nat| unit_escape(u);
    let s = seq![u, v];
    lemma_one_unit(u);
    s.lemma_flat_map_take_append(f, 1);
    assert(s.take(1) =~= seq![u]);
    assert(s.take(2) =~= s);
}

proof fn lemma_ascii_char(c: char)
    ensures
        forall|i: int| 0 <= i < ascii_char(c).len() ==> (#[trigger] ascii_char(c)[i] as nat) < 128,
{
    let m = c as nat;
    if m >= 128 {
        if m < 0x10000 {
            lemma_one_unit(m);
        } else {
            lemma_two_units(
                (0xD800 + (m - 0x10000) / 1024) as nat,
                (0xDC00 + (m - 0x10000) % 1024) as nat,
            );
        }
    }
}

/// A header value made by [`ascii_json`] holds ASCII characters only.
pub proof fn header_values_are_ascii(s: Seq<char>)
    ensures
        forall|i: int| 0 <= i < ascii_only(s).len() ==> (#[trigger] ascii_only(s)[i] as nat) < 128,
    decreases s.len(),
{
    let f = |c: char| ascii_char(c);
    reveal(Seq::flat_map);
    if s.len() == 0 {
        assert(s.map_values(f) =~= Seq::empty());
    } else {
        let n = s.len() - 1;
        s.lemma_flat_map_take_append(f, n);
        assert(s.take(n) =~= s.drop_last());
        assert(s.take(n + 1) =~= s);
        header_values_are_ascii(s.drop_last());
        lemma_ascii_char(s.last());
        let front = ascii_only(s.drop_last());
        assert(ascii_only(s) == front + ascii_char(s.last()));
        assert forall|i: int| 0 <= i < ascii_only(s).len() implies (#[trigger] ascii_only(
            s,
        )[i] as nat) < 128 by {
            if i < front.len() {
                assert(ascii_only(s)[i] == front[i]);
            } else {
                assert(ascii_only(s)[i] == ascii_char(s.last())[i - front.len()]);
            }
        }
    }
}

/// The value that the JSON text `s` writes, as compact JSON; `None` when it is
/// not JSON.
pub uninterp spec fn json_value(s: Seq<char>) -> Option<Seq<char>>;

/// `serde_json::from_str` into a `Value`, written out by its `to_string`; named
/// [`json_value`].
#[verifier::external_body]
pub(crate) fn value_text(s: &str) -> (out: Option<String>)
    ensures
        text::opt_text(out) == json_value(s@),
{
    serde_json::from_str::<serde_json::Value>(s).ok().map(|v| v.to_string())
}

/// Whether the JSON text `s` has a value at the JSON pointer `pointer`; not if
/// it is not JSON.
pub uninterp spec fn json_has(s: Seq<char>, pointer: Seq<char>) -> bool;

/// `serde_json::Value::pointer` on the value that `serde_json::from_str` makes
/// of `s` (null when it fails): whether it finds something; named
/// [`json_has`].
#[verifier::external_body]
pub(crate) fn has_value(s: &str, pointer: &str) -> (yes: bool)
    ensures
        yes == json_has(s@, pointer@),
{
    serde_json::from_str::<serde_json::Value>(s).unwrap_or_default().pointer(pointer).is_some()
}

/// The value of a hexadecimal digit in lower case.
pub open spec fn digit_value(c: char) -> int {
    if c <= '9' {
        c as int - 48
    } else {
        c as int - 87
    }
}

/// The value of the four digits of an escape that starts at `at`.
pub open spec fn escape_value(s: Seq<char>, at: int) -> int {
    4096 * digit_value(s[at + 2]) + 256 * digit_value(s[at + 3]) + 16 * digit_value(s[at + 4])
        + digit_value(s[at + 5])
}

proof fn lemma_escape_value(u: nat)
    requires
        u < 0x10000,
    ensures
        escape_value(unit_escape(u), 0) == u,
        unit_escape(u).len() == 6,
        unit_escape(u)[0] == '\\',
        unit_escape(u)[1] == 'u',
{
    assert(u / 4096 < 16);
    assert((u / 256) % 16 == u / 256 - 16 * (u / 4096));
    assert((u / 16) % 16 == u / 16 - 16 * (u / 256));
    assert(u % 16 == u - 16 * (u / 16));
}

/// A header value writes an ASCII character as it is, another one as the escape of its
/// number, and one beyond the first plane as the escapes of the two surrogates that stand
/// for it.
pub proof fn escapes_stand_for_their_characters(c: char)
    ensures
        ({
            let n = c as int;
            let e = ascii_only(seq![c]);
            &&& n < 128 ==> e == seq![c]
            &&& 128 <= n < 0x10000 ==> e.len() == 6 && e[0] == '\\' && e[1] == 'u' && escape_value(
                e,
                0,
            ) == n
            &&& n >= 0x10000 ==> e.len() == 12 && e[0] == '\\' && e[1] == 'u' && e[6] == '\\' && e[7]
                == 'u' && 0xD800 <= escape_value(e, 0) < 0xDC00 && 0xDC00 <= escape_value(e, 6)
                < 0xE000 && 0x10000 + 1024 * (escape_value(e, 0) - 0xD800) + (escape_value(e, 6)
                - 0xDC00) == n
        }),
{
    let n = c as nat;
    let one = seq![c];
    one.lemma_flat_map_singleton(|c: char| ascii_char(c));
    let e = ascii_only(one);
    assert(e == ascii_char(c));
    let f = |u: nat| unit_escape(u);
    if n >= 128 {
        if n < 0x10000 {
            seq![n].lemma_flat_map_singleton(f);
            lemma_escape_value(n);
        } else {
            let hi = (0xD800 + (n - 0x10000) / 1024) as nat;
            let lo = (0xDC00 + (n - 0x10000) % 1024) as nat;
            assert(n <= 0x10FFFF);
            assert((n - 0x10000) / 1024 < 1024);
            lemma_escape_value(hi);
            lemma_escape_value(lo);
            let pair = seq![hi, lo];
            seq![hi].lemma_flat_map_push(f, lo);
            seq![hi].lemma_flat_map_singleton(f);
            assert(seq![hi].push(lo) =~= pair);
            assert(e =~= unit_escape(hi) + unit_escape(lo));
            assert(escape_value(e, 0) == escape_value(unit_escape(hi), 0));
            assert(escape_value(e, 6) == escape_value(unit_escape(lo), 0));
        }
    }
}

/// Header values are written character by character.
pub proof fn escapes_follow_each_other(a: Seq<char>, c: char)
    ensures
        ascii_only(a.push(c)) == ascii_only(a) + ascii_only(seq![c]),
{
    let f = |c: char| ascii_char(c);
    a.lemma_flat_map_push(f, c);
    seq![c].lemma_flat_map_singleton(f);
    assert(ascii_only(a.push(c)) =~= ascii_only(a) + ascii_only(seq![c]));
}

} // verus!
