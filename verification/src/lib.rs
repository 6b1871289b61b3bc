//! Robot and object pipelines around a sphere-packing optimizer.

use vstd::prelude::*;

pub mod assemble;
pub mod capi;
pub mod cli;
pub mod color;
pub mod config;
pub mod examples;
pub mod history;
pub mod inspect;
pub mod js;
pub mod js_robot;
pub mod json;
pub mod kept_text;
pub mod kinematics;
pub mod markup;
pub mod mjcf_document;
pub mod numeral;
pub mod object_document;
pub mod object_links;
pub mod object_model;
pub mod pack;
pub mod paths;
pub mod report;
pub mod round_trip;
pub mod server;
pub mod sphere_links;
pub mod studio;
pub mod text;
pub mod vfs;
pub mod xml;

verus! {

/// Errors of this crate. [`Error::message`] is what the HTTP API reports.
#[derive(Debug)]
pub enum Error {
    /// Invalid input (maps to HTTP 400).
    Invalid(String),
    /// File system failure.
    Io(String),
    /// Failure inside the optimizer or mesh loading.
    Morphit(EngineError),
}

/// What kind of failure the optimizer reports.
#[derive(Clone, Copy, Debug, PartialEq, Eq, Structural)]
pub enum Fault {
    /// A file could not be read or written.
    Io,
    /// The mesh could not be parsed or is unusable.
    Mesh,
    /// Unknown preset or key, wrong value type, or invalid value.
    Config,
    /// Operation not valid in the session's current state.
    State,
    /// The run was cancelled.
    Cancelled,
}

/// A failure inside the optimizer or mesh loading.
#[derive(Debug)]
pub struct EngineError {
    pub fault: Fault,
    /// What went wrong, without the kind of failure.
    pub detail: String,
    /// The full message.
    pub message: String,
}

impl Clone for EngineError {
    fn clone(&self) -> (out: Self)
        ensures
            out@ == self@,
    {
        EngineError {
            fault: self.fault,
            detail: self.detail.clone(),
            message: self.message.clone(),
        }
    }
}

impl Clone for Error {
    fn clone(&self) -> (out: Self)
        ensures
            out@ == self@,
    {
        match self {
            Error::Invalid(m) => Error::Invalid(m.clone()),
            Error::Io(m) => Error::Io(m.clone()),
            Error::Morphit(e) => Error::Morphit(e.clone()),
        }
    }
}

/// The contents of an [`EngineError`].
pub struct EngineErrorView {
    pub fault: Fault,
    pub detail: Seq<char>,
    pub message: Seq<char>,
}

impl View for EngineError {
    type V = EngineErrorView;

    open spec fn view(&self) -> EngineErrorView {
        EngineErrorView { fault: self.fault, detail: self.detail@, message: self.message@ }
    }
}

/// The contents of an [`Error`].
pub enum ErrorView {
    Invalid(Seq<char>),
    Io(Seq<char>),
    Morphit(EngineErrorView),
}

impl View for Error {
    type V = ErrorView;

    open spec fn view(&self) -> ErrorView {
        match self {
            Error::Invalid(m) => ErrorView::Invalid(m@),
            Error::Io(m) => ErrorView::Io(m@),
            Error::Morphit(e) => ErrorView::Morphit(e@),
        }
    }
}

impl ErrorView {
    /// The message of the error.
    pub open spec fn message(self) -> Seq<char> {
        match self {
            ErrorView::Invalid(m) => m,
            ErrorView::Io(m) => m,
            ErrorView::Morphit(e) => e.message,
        }
    }
}

impl Error {
    /// The text of the error.
    pub fn message(&self) -> (out: String)
        ensures
            out@ == self@.message(),
    {
        match self {
            Error::Invalid(m) => m.clone(),
            Error::Io(m) => m.clone(),
            Error::Morphit(e) => e.message.clone(),
        }
    }
}

/// The quote character that Python's `repr` puts around `s`.
pub open spec fn repr_quote(s: Seq<char>) -> char {
    if s.contains('\'') && !s.contains('"') {
        '"'
    } else {
        '\''
    }
}

/// Whether Python never prints the character with code point `n`: controls,
/// format characters, separators other than the space, private use, and the code
/// points that are no characters.
///
/// Python does not print unassigned code points either. Which those are depends
/// on the version of its Unicode tables, so they are left out here and count as
/// printable.
pub open spec fn unprintable(n: nat) -> bool {
    ||| n < 0x20
    ||| 0x7f <= n <= 0xa0
    ||| n == 0xad
    ||| 0x600 <= n <= 0x605
    ||| n == 0x61c
    ||| n == 0x6dd
    ||| n == 0x70f
    ||| 0x890 <= n <= 0x891
    ||| n == 0x8e2
    ||| n == 0x1680
    ||| n == 0x180e
    ||| 0x2000 <= n <= 0x200f
    ||| 0x2028 <= n <= 0x202f
    ||| 0x205f <= n <= 0x2064
    ||| 0x2066 <= n <= 0x206f
    ||| n == 0x3000
    ||| 0xe000 <= n <= 0xf8ff
    ||| 0xfdd0 <= n <= 0xfdef
    ||| n == 0xfeff
    ||| 0xfff9 <= n <= 0xfffb
    ||| n == 0x110bd
    ||| n == 0x110cd
    ||| 0x13430 <= n <= 0x1343f
    ||| 0x1bca0 <= n <= 0x1bca3
    ||| 0x1d173 <= n <= 0x1d17a
    ||| n == 0xe0001
    ||| 0xe0020 <= n <= 0xe007f
    ||| n >= 0xf0000
    ||| n % 0x10000 >= 0xfffe
}

/// The shortest of `\xhh`, `\uhhhh` and `\Uhhhhhhhh` that holds the code point `n`.
pub open spec fn code_escape(n: nat) -> Seq<char> {
    if n < 0x100 {
        seq!['\\', 'x', json::hex_char(n / 16), json::hex_char(n % 16)]
    } else if n < 0x10000 {
        json::unit_escape(n)
    } else {
        seq![
            '\\',
            'U',
            '0',
            '0',
            json::hex_char(n / 0x100000),
            json::hex_char((n / 0x10000) % 16),
            json::hex_char((n / 4096) % 16),
            json::hex_char((n / 256) % 16),
            json::hex_char((n / 16) % 16),
            json::hex_char(n % 16),
        ]
    }
}

/// How `repr` writes the character `c` inside quotes `quote`.
pub open spec fn repr_char(c: char, quote: char) -> Seq<char> {
    if c == '\\' {
        seq!['\\', '\\']
    } else if c == '\n' {
        seq!['\\', 'n']
    } else if c == '\r' {
        seq!['\\', 'r']
    } else if c == '\t' {
        seq!['\\', 't']
    } else if c == quote {
        seq!['\\', c]
    } else if unprintable(c as nat) {
        code_escape(c as nat)
    } else {
        seq![c]
    }
}

/// Python's `repr` of the string `s`.
pub open spec fn repr(s: Seq<char>) -> Seq<char> {
    let quote = repr_quote(s);
    seq![quote] + s.flat_map(|c: char| repr_char(c, quote)) + seq![quote]
}

/// Whether Python never prints the character with code point `n`.
fn is_unprintable(n: u32) -> (yes: bool)
    ensures
        yes == unprintable(n as nat),
{
    n < 0x20 || (0x7f <= n && n <= 0xa0) || n == 0xad || (0x600 <= n && n <= 0x605) || n == 0x61c
        || n == 0x6dd || n == 0x70f || (0x890 <= n && n <= 0x891) || n == 0x8e2 || n == 0x1680 || n
        == 0x180e || (0x2000 <= n && n <= 0x200f) || (0x2028 <= n && n <= 0x202f) || (0x205f <= n
        && n <= 0x2064) || (0x2066 <= n && n <= 0x206f) || n == 0x3000 || (0xe000 <= n && n
        <= 0xf8ff) || (0xfdd0 <= n && n <= 0xfdef) || n == 0xfeff || (0xfff9 <= n && n <= 0xfffb)
        || n == 0x110bd || n == 0x110cd || (0x13430 <= n && n <= 0x1343f) || (0x1bca0 <= n && n
        <= 0x1bca3) || (0x1d173 <= n && n <= 0x1d17a) || n == 0xe0001 || (0xe0020 <= n && n
        <= 0xe007f) || n >= 0xf0000 || n % 0x10000 >= 0xfffe
}

/// Append the shortest escape that holds the code point `n`.
fn push_code(out: &mut String, n: u32)
    requires
        n <= 0x10ffff,
    ensures
        final(out)@ == old(out)@ + code_escape(n as nat),
{
    let ghost before = out@;
    if n < 0x100 {
        out.push('\\');
        out.push('x');
        out.push(json::hex_of(n / 16));
        out.push(json::hex_of(n % 16));
    } else if n < 0x10000 {
        json::push_unit(out, n);
    } else {
        out.push('\\');
        out.push('U');
        out.push('0');
        out.push('0');
        out.push(json::hex_of(n / 0x100000));
        out.push(json::hex_of((n / 0x10000) % 16));
        out.push(json::hex_of((n / 4096) % 16));
        out.push(json::hex_of((n / 256) % 16));
        out.push(json::hex_of((n / 16) % 16));
        out.push(json::hex_of(n % 16));
    }
    assert(out@ =~= before + code_escape(n as nat));
}

/// Append `c` as `repr` writes it inside quotes `quote`.
fn push_repr(out: &mut String, c: char, quote: char)
    ensures
        final(out)@ == old(out)@ + repr_char(c, quote),
{
    let ghost before = out@;
    if c == '\\' {
        out.push('\\');
        out.push('\\');
    } else if c == '\n' {
        out.push('\\');
        out.push('n');
    } else if c == '\r' {
        out.push('\\');
        out.push('r');
    } else if c == '\t' {
        out.push('\\');
        out.push('t');
    } else if c == quote {
        out.push('\\');
        out.push(c);
    } else if is_unprintable(c as u32) {
        push_code(out, c as u32);
    } else {
        out.push(c);
    }
    assert(out@ =~= before + repr_char(c, quote));
}

/// Python `repr` of a string: single quotes unless the text contains a
/// single quote and no double quote, and characters that are not printable as
/// escapes.
pub fn py_repr(s: &str) -> (out: String)
    ensures
        out@ == repr(s@),
{
    let cs = text::to_chars(s);
    let single = text::contains_char(&cs, '\'');
    let double = text::contains_char(&cs, '"');
    let quote: char = if single && !double { '"' } else { '\'' };
    let ghost f = |c: char| repr_char(c, quote);
    let mut out = String::new();
    out.push(quote);
    let mut i: usize = 0;
    while i < cs.len()
        invariant
            i <= cs.len(),
            cs@ == s@,
            quote == repr_quote(s@),
            f == (|c: char| repr_char(c, quote)),
            out@ == seq![quote] + s@.take(i as int).flat_map(f),
        decreases cs.len() - i,
    {
        broadcast use Seq::lemma_flat_map_take_append;

        push_repr(&mut out, cs[i], quote);
        i = i + 1;
        assert(out@ =~= seq![quote] + s@.take(i as int).flat_map(f));
    }
    assert(s@.take(i as int) =~= s@);
    out.push(quote);
    out
}

/// A hexadecimal digit tells its value, and is no quote.
proof fn lemma_hex_char(a: nat, b: nat)
    requires
        a < 16,
        b < 16,
    ensures
        json::hex_char(a) == json::hex_char(b) ==> a == b,
        json::hex_char(a) != '\'',
        json::hex_char(a) != '"',
{
}

/// Numbers with the same last hexadecimal digit and the same rest are the same.
proof fn lemma_last_digit(a: nat, b: nat)
    requires
        json::hex_char(a % 16) == json::hex_char(b % 16),
        a / 16 == b / 16,
    ensures
        a == b,
{
    lemma_hex_char(a % 16, b % 16);
}

/// The digits of an escape tell its code point, and its length is that of its kind.
proof fn lemma_same_escape(a: nat, b: nat)
    requires
        a <= 0x10ffff,
        b <= 0x10ffff,
        code_escape(a) == code_escape(b),
    ensures
        a == b,
{
    let s = code_escape(a);
    let t = code_escape(b);
    assert(s.len() == t.len());
    assert((a / 16) / 16 == a / 256 && (b / 16) / 16 == b / 256);
    assert((a / 256) / 16 == a / 4096 && (b / 256) / 16 == b / 4096);
    assert((a / 4096) / 16 == a / 0x10000 && (b / 4096) / 16 == b / 0x10000);
    assert((a / 0x10000) / 16 == a / 0x100000 && (b / 0x10000) / 16 == b / 0x100000);
    if a < 0x100 {
        assert(s[2] == t[2] && s[3] == t[3]);
        lemma_hex_char(a / 16, b / 16);
    } else if a < 0x10000 {
        assert(s[2] == t[2] && s[3] == t[3] && s[4] == t[4] && s[5] == t[5]);
        lemma_hex_char(a / 4096, b / 4096);
        lemma_last_digit(a / 256, b / 256);
        lemma_last_digit(a / 16, b / 16);
    } else {
        assert(s[4] == t[4] && s[5] == t[5] && s[6] == t[6]);
        assert(s[7] == t[7] && s[8] == t[8] && s[9] == t[9]);
        lemma_hex_char(a / 0x100000, b / 0x100000);
        lemma_last_digit(a / 0x10000, b / 0x10000);
        lemma_last_digit(a / 4096, b / 4096);
        lemma_last_digit(a / 256, b / 256);
        lemma_last_digit(a / 16, b / 16);
    }
    lemma_last_digit(a, b);
}

/// What follows the backslash of an escape tells its length, so no escape is the
/// beginning of another one.
proof fn lemma_code_injective(a: nat, b: nat, x: Seq<char>, y: Seq<char>)
    requires
        a <= 0x10ffff,
        b <= 0x10ffff,
        code_escape(a) + x == code_escape(b) + y,
    ensures
        a == b,
{
    let s = code_escape(a);
    let t = code_escape(b);
    assert((s + x)[1] == s[1]);
    assert((t + y)[1] == t[1]);
    assert(s.len() == t.len());
    assert(s =~= (s + x).take(s.len() as int));
    assert(t =~= (t + y).take(t.len() as int));
    lemma_same_escape(a, b);
}

/// No character is written as the beginning of another one.
proof fn lemma_repr_char_injective(c: char, d: char, quote: char, x: Seq<char>, y: Seq<char>)
    requires
        quote == '\'' || quote == '"',
        repr_char(c, quote) + x == repr_char(d, quote) + y,
    ensures
        c == d,
{
    let s = repr_char(c, quote) + x;
    let t = repr_char(d, quote) + y;
    assert(s[0] == repr_char(c, quote)[0]);
    assert(t[0] == repr_char(d, quote)[0]);
    if s[0] == '\\' {
        assert(s[1] == repr_char(c, quote)[1]);
        assert(t[1] == repr_char(d, quote)[1]);
        if s[1] == 'x' || s[1] == 'u' || s[1] == 'U' {
            lemma_code_injective(c as nat, d as nat, x, y);
        }
    }
}

/// The characters between the quotes tell the string.
proof fn lemma_body_injective(a: Seq<char>, b: Seq<char>, quote: char)
    requires
        quote == '\'' || quote == '"',
        a.flat_map(|c: char| repr_char(c, quote)) == b.flat_map(|c: char| repr_char(c, quote)),
    ensures
        a == b,
    decreases a.len(),
{
    let f = |c: char| repr_char(c, quote);
    if a.len() > 0 {
        lemma_body_step(a, quote);
    }
    if b.len() > 0 {
        lemma_body_step(b, quote);
    }
    if a.len() == 0 || b.len() == 0 {
        assert(Seq::<char>::empty().flat_map(f) =~= Seq::<char>::empty());
        assert(a.len() == 0 ==> a =~= Seq::<char>::empty());
        assert(b.len() == 0 ==> b =~= Seq::<char>::empty());
        assert(a =~= b);
    } else {
        let x = a.drop_first().flat_map(f);
        let y = b.drop_first().flat_map(f);
        lemma_repr_char_injective(a[0], b[0], quote, x, y);
        let n = repr_char(a[0], quote).len() as int;
        assert(x =~= (repr_char(a[0], quote) + x).skip(n));
        assert(y =~= (repr_char(b[0], quote) + y).skip(n));
        lemma_body_injective(a.drop_first(), b.drop_first(), quote);
        assert(a =~= seq![a[0]] + a.drop_first());
        assert(b =~= seq![b[0]] + b.drop_first());
    }
}

/// The first character is written first.
proof fn lemma_body_step(s: Seq<char>, quote: char)
    requires
        s.len() > 0,
    ensures
        s.flat_map(|c: char| repr_char(c, quote)) == repr_char(s[0], quote)
            + s.drop_first().flat_map(|c: char| repr_char(c, quote)),
{
    let f = |c: char| repr_char(c, quote);
    assert(s.map_values(f).drop_first() =~= s.drop_first().map_values(f));
    assert(s.map_values(f).first() == repr_char(s[0], quote));
}

/// Where a character is written, the quote follows a backslash.
proof fn lemma_char_quotes(c: char, quote: char, i: int)
    requires
        quote == '\'' || quote == '"',
        0 <= i < repr_char(c, quote).len(),
        repr_char(c, quote)[i] == quote,
    ensures
        i == 1,
        repr_char(c, quote)[0] == '\\',
{
    let n = c as nat;
    lemma_hex_char(n % 16, 0);
    lemma_hex_char((n / 16) % 16, 0);
    lemma_hex_char((n / 256) % 16, 0);
    lemma_hex_char((n / 4096) % 16, 0);
    lemma_hex_char((n / 0x10000) % 16, 0);
    if n < 0x100 {
        lemma_hex_char(n / 16, 0);
    } else if n < 0x10000 {
        lemma_hex_char(n / 4096, 0);
    } else {
        lemma_hex_char(n / 0x100000, 0);
    }
}

/// Between the quotes the quote follows a backslash.
proof fn lemma_body_quotes(s: Seq<char>, quote: char)
    requires
        quote == '\'' || quote == '"',
    ensures
        ({
            let body = s.flat_map(|c: char| repr_char(c, quote));
            forall|i: int|
                0 <= i < body.len() && #[trigger] body[i] == quote ==> i > 0 && body[i - 1]
                    == '\\'
        }),
    decreases s.len(),
{
    let f = |c: char| repr_char(c, quote);
    let body = s.flat_map(f);
    if s.len() == 0 {
        assert(s =~= Seq::<char>::empty());
        assert(Seq::<char>::empty().flat_map(f) =~= Seq::<char>::empty());
    } else {
        lemma_body_step(s, quote);
        lemma_body_quotes(s.drop_first(), quote);
        let head = repr_char(s[0], quote);
        let rest = s.drop_first().flat_map(f);
        assert forall|i: int| 0 <= i < body.len() && #[trigger] body[i] == quote implies i > 0
            && body[i - 1] == '\\' by {
            if i < head.len() {
                assert(body[i] == head[i]);
                lemma_char_quotes(s[0], quote, i);
                assert(body[0] == head[0]);
            } else {
                assert(body[i] == rest[i - head.len()]);
                assert(body[i - 1] == rest[i - head.len() - 1]);
            }
        }
    }
}

/// The quoted text determines the string: different strings are written differently.
pub proof fn reprs_tell_strings_apart(a: Seq<char>, b: Seq<char>)
    requires
        repr(a) == repr(b),
    ensures
        a == b,
{
    let q = repr_quote(a);
    assert(repr(a)[0] == q);
    assert(repr(b)[0] == repr_quote(b));
    let x = a.flat_map(|c: char| repr_char(c, q));
    let y = b.flat_map(|c: char| repr_char(c, q));
    assert(x =~= repr(a).subrange(1, repr(a).len() - 1));
    assert(y =~= repr(b).subrange(1, repr(b).len() - 1));
    lemma_body_injective(a, b, q);
}

/// The quoted text begins and ends with the same quote, a double one exactly where the
/// string has a single quote and no double one, and between the two every such quote
/// follows a backslash.
pub proof fn reprs_are_quoted(s: Seq<char>)
    ensures
        repr(s).len() >= 2,
        repr(s)[0] == repr_quote(s),
        repr(s).last() == repr_quote(s),
        repr_quote(s) == '\'' || repr_quote(s) == '"',
        repr_quote(s) == '"' <==> s.contains('\'') && !s.contains('"'),
        forall|i: int|
            0 < i < repr(s).len() - 1 && #[trigger] repr(s)[i] == repr_quote(s) ==> i > 1 && repr(
                s,
            )[i - 1] == '\\',
{
    let q = repr_quote(s);
    let body = s.flat_map(|c: char| repr_char(c, q));
    lemma_body_quotes(s, q);
    assert forall|i: int| 0 < i < repr(s).len() - 1 && #[trigger] repr(s)[i] == q implies i > 1
        && repr(s)[i - 1] == '\\' by {
        assert(repr(s)[i] == body[i - 1]);
        assert(repr(s)[i - 1] == body[i - 2]);
    }
}

/// Python's `repr` of each string.
pub open spec fn reprs(items: Seq<Seq<char>>) -> Seq<Seq<char>> {
    items.map_values(|s: Seq<char>| repr(s))
}

/// The strings as `repr` writes them.
pub fn py_reprs(items: &[String]) -> (out: Vec<String>)
    ensures
        text::texts(out@) == reprs(text::texts(items@)),
{
    let mut out: Vec<String> = Vec::new();
    let mut i: usize = 0;
    while i < items.len()
        invariant
            i <= items@.len(),
            out@.len() == i,
            forall|j: int| 0 <= j < i ==> (#[trigger] out@[j])@ == repr(items@[j]@),
        decreases items@.len() - i,
    {
        out.push(py_repr(items[i].as_str()));
        i = i + 1;
    }
    assert(text::texts(out@) =~= reprs(text::texts(items@)));
    out
}

/// Python's `repr` of a list of strings.
pub open spec fn list_repr(items: Seq<Seq<char>>) -> Seq<char> {
    "["@ + text::join(reprs(items), ", "@) + "]"@
}

/// Python `repr` of a list of strings, e.g. `['a.urdf', 'b.urdf']`.
pub fn py_list(items: &[String]) -> (out: String)
    ensures
        out@ == list_repr(text::texts(items@)),
{
    let parts = py_reprs(items);
    let mut out = String::from_str("[");
    out.append(text::join_with(&parts, ", ").as_str());
    out.append("]");
    out
}

} // verus!
