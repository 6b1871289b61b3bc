//! Form and query values: empty values count as absent, missing required
//! fields and unparsable values are 422s.

use vstd::prelude::*;

use crate::numeral;
use crate::server::error;
use crate::server::error::{ApiError, ApiErrorView};
use crate::text;

verus! {

/// An uploaded file part.
#[derive(Debug)]
pub struct Upload {
    pub filename: Option<String>,
    pub data: Vec<u8>,
}

/// The contents of an [`Upload`].
pub struct UploadView {
    pub filename: Option<Seq<char>>,
    pub data: Seq<u8>,
}

impl View for Upload {
    type V = UploadView;

    open spec fn view(&self) -> UploadView {
        UploadView { filename: text::opt_text(self.filename), data: self.data@ }
    }
}

/// The contents of a list of file parts.
pub open spec fn part_views(v: Seq<(String, Upload)>) -> Seq<(Seq<char>, UploadView)> {
    v.map_values(|p: (String, Upload)| (p.0@, p.1@))
}

/// All parts of a `multipart/form-data` body.
#[derive(Debug)]
pub struct Form {
    pub text: Vec<(String, String)>,
    pub files: Vec<(String, Upload)>,
}

/// The contents of a [`Form`].
pub struct FormView {
    pub text: Seq<(Seq<char>, Seq<char>)>,
    pub files: Seq<(Seq<char>, UploadView)>,
}

impl View for Form {
    type V = FormView;

    open spec fn view(&self) -> FormView {
        FormView { text: text::pair_views(self.text@), files: part_views(self.files@) }
    }
}

/// The value of the first non-empty part called `name` at or after `i`.
pub open spec fn text_from(parts: Seq<(Seq<char>, Seq<char>)>, name: Seq<char>, i: int) -> Option<
    Seq<char>,
>
    decreases parts.len() - i,
{
    if 0 <= i < parts.len() {
        if parts[i].0 == name && parts[i].1.len() > 0 {
            Some(parts[i].1)
        } else {
            text_from(parts, name, i + 1)
        }
    } else {
        None
    }
}

/// The first file part called `name` at or after `i`.
pub open spec fn file_from(
    parts: Seq<(Seq<char>, UploadView)>,
    name: Seq<char>,
    i: int,
) -> Option<UploadView>
    decreases parts.len() - i,
{
    if 0 <= i < parts.len() {
        if parts[i].0 == name {
            Some(parts[i].1)
        } else {
            file_from(parts, name, i + 1)
        }
    } else {
        None
    }
}

/// The file parts called `name`.
pub open spec fn files_named(parts: Seq<(Seq<char>, UploadView)>, name: Seq<char>) -> Seq<UploadView>
    decreases parts.len(),
{
    if parts.len() == 0 {
        Seq::empty()
    } else {
        let front = files_named(parts.drop_last(), name);
        if parts.last().0 == name {
            front.push(parts.last().1)
        } else {
            front
        }
    }
}

/// The 422 reply for a text that is no integer.
pub open spec fn int_reply(loc: Seq<char>, name: Seq<char>, v: Seq<char>) -> ApiErrorView {
    error::field_reply(
        loc,
        name,
        "int_parsing"@,
        "Input should be a valid integer, unable to parse string as an integer"@,
        crate::json::quoted(v),
    )
}

/// The boolean that `v` means, in any case and with any white space around it.
pub open spec fn truth(v: Seq<char>) -> Option<bool> {
    let t = numeral::ascii_lowercase(text::trim(v));
    if t == "1"@ || t == "true"@ || t == "t"@ || t == "yes"@ || t == "y"@ || t == "on"@ {
        Some(true)
    } else if t == "0"@ || t == "false"@ || t == "f"@ || t == "no"@ || t == "n"@ || t == "off"@ {
        Some(false)
    } else {
        None
    }
}

/// The boolean that `v` means, or the 422 reply.
pub open spec fn bool_value(loc: Seq<char>, name: Seq<char>, v: Seq<char>) -> Result<
    bool,
    ApiErrorView,
> {
    match truth(v) {
        Some(b) => Ok(b),
        None => Err(
            error::field_reply(
                loc,
                name,
                "bool_parsing"@,
                "Input should be a valid boolean, unable to interpret input"@,
                crate::json::quoted(v),
            ),
        ),
    }
}

impl FormView {
    /// The first non-empty text value of `name`.
    pub open spec fn value(self, name: Seq<char>) -> Option<Seq<char>> {
        text_from(self.text, name, 0)
    }

    /// The value of `name`, or `default`.
    pub open spec fn value_or(self, name: Seq<char>, default: Seq<char>) -> Seq<char> {
        match self.value(name) {
            Some(v) => v,
            None => default,
        }
    }

    /// The value of `name`; a 422 when it is missing.
    pub open spec fn required(self, name: Seq<char>) -> Result<Seq<char>, ApiErrorView> {
        match self.value(name) {
            Some(v) => Ok(v),
            None => Err(error::missing_reply("body"@, name)),
        }
    }

    /// The integer in `name`.
    pub open spec fn integer(self, name: Seq<char>) -> Result<Option<int>, ApiErrorView> {
        match self.value(name) {
            None => Ok(None),
            Some(v) => match numeral::integer(text::trim(v)) {
                Some(n) => Ok(Some(n)),
                None => Err(int_reply("body"@, name, v)),
            },
        }
    }

    /// The integer in `name`, or `default`.
    pub open spec fn integer_or(self, name: Seq<char>, default: int) -> Result<int, ApiErrorView> {
        match self.integer(name) {
            Ok(Some(n)) => Ok(n),
            Ok(None) => Ok(default),
            Err(e) => Err(e),
        }
    }

    /// The integer in `name`; a 422 when it is missing.
    pub open spec fn required_integer(self, name: Seq<char>) -> Result<int, ApiErrorView> {
        match self.integer(name) {
            Ok(Some(n)) => Ok(n),
            Ok(None) => Err(error::missing_reply("body"@, name)),
            Err(e) => Err(e),
        }
    }

    /// The text of the number in `name`, or `default`.
    pub open spec fn number_or(self, name: Seq<char>, default: Seq<char>) -> Result<
        Seq<char>,
        ApiErrorView,
    > {
        match self.value(name) {
            None => Ok(default),
            Some(v) => if numeral::is_number(text::trim(v)) {
                Ok(text::trim(v))
            } else {
                Err(
                    error::field_reply(
                        "body"@,
                        name,
                        "float_parsing"@,
                        "Input should be a valid number, unable to parse string as a number"@,
                        crate::json::quoted(v),
                    ),
                )
            },
        }
    }

    /// The boolean in `name`, or `default`.
    pub open spec fn flag(self, name: Seq<char>, default: bool) -> Result<bool, ApiErrorView> {
        match self.value(name) {
            None => Ok(default),
            Some(v) => bool_value("body"@, name, v),
        }
    }

    /// The first file part called `name`; a 422 when there is none.
    pub open spec fn upload(self, name: Seq<char>) -> Result<UploadView, ApiErrorView> {
        match file_from(self.files, name, 0) {
            Some(u) => Ok(u),
            None => Err(error::missing_reply("body"@, name)),
        }
    }
}

/// A boolean (`true/false`, `1/0`, `yes/no`, `on/off`, ...); anything else is
/// a 422 at `loc` (`body` or `query`).
pub fn parse_bool(loc: &str, name: &str, v: &str) -> (res: Result<bool, ApiError>)
    ensures
        match res {
            Ok(b) => bool_value(loc@, name@, v@) == Ok::<bool, ApiErrorView>(b),
            Err(e) => bool_value(loc@, name@, v@) == Err::<bool, ApiErrorView>(e@),
        },
{
    let trimmed = text::trimmed(v);
    let low = text::from_chars(&numeral::lowered(&text::to_chars(trimmed.as_str())));
    let t = low.as_str();
    if text::same(t, "1") || text::same(t, "true") || text::same(t, "t") || text::same(t, "yes")
        || text::same(t, "y") || text::same(t, "on") {
        Ok(true)
    } else if text::same(t, "0") || text::same(t, "false") || text::same(t, "f") || text::same(
        t,
        "no",
    ) || text::same(t, "n") || text::same(t, "off") {
        Ok(false)
    } else {
        Err(
            ApiError::validation(
                loc,
                name,
                "bool_parsing",
                "Input should be a valid boolean, unable to interpret input",
                Some(v),
            ),
        )
    }
}

/// The 422 for a text that is no integer.
pub fn int_error(loc: &str, name: &str, v: &str) -> (out: ApiError)
    ensures
        out@ == int_reply(loc@, name@, v@),
{
    ApiError::validation(
        loc,
        name,
        "int_parsing",
        "Input should be a valid integer, unable to parse string as an integer",
        Some(v),
    )
}

impl Form {
    /// A form without parts.
    pub fn new() -> (out: Form)
        ensures
            out@.text.len() == 0,
            out@.files.len() == 0,
    {
        Form { text: Vec::new(), files: Vec::new() }
    }

    /// Add a text part.
    pub fn add_text(&mut self, name: &str, value: &str)
        ensures
            final(self)@.text == old(self)@.text.push((name@, value@)),
            final(self)@.files == old(self)@.files,
    {
        self.text.push((String::from_str(name), String::from_str(value)));
        assert(self@.text =~= old(self)@.text.push((name@, value@)));
    }

    /// Add a file part.
    pub fn add_file(&mut self, name: &str, file: Upload)
        ensures
            final(self)@.text == old(self)@.text,
            final(self)@.files == old(self)@.files.push((name@, file@)),
    {
        let ghost f = file@;
        self.files.push((String::from_str(name), file));
        assert(self@.files =~= old(self)@.files.push((name@, f)));
    }

    /// First non-empty text value of `name`.
    pub fn text(&self, name: &str) -> (out: Option<&str>)
        ensures
            text::opt_str(out) == self@.value(name@),
    {
        let mut i: usize = 0;
        while i < self.text.len()
            invariant
                i <= self.text@.len(),
                self@.value(name@) == text_from(self@.text, name@, i as int),
            decreases self.text@.len() - i,
        {
            let value = self.text[i].1.as_str();
            if text::same(self.text[i].0.as_str(), name) && !value.is_empty() {
                return Some(value);
            }
            i = i + 1;
        }
        None
    }

    /// The value of `name`, or `default`.
    pub fn text_or<'a>(&'a self, name: &str, default: &'a str) -> (out: &'a str)
        ensures
            out@ == self@.value_or(name@, default@),
    {
        match self.text(name) {
            Some(v) => v,
            None => default,
        }
    }

    /// The value of `name`; a 422 when it is missing.
    pub fn required_text(&self, name: &str) -> (res: Result<&str, ApiError>)
        ensures
            match res {
                Ok(v) => self@.required(name@) == Ok::<Seq<char>, ApiErrorView>(v@),
                Err(e) => self@.required(name@) == Err::<Seq<char>, ApiErrorView>(e@),
            },
    {
        match self.text(name) {
            Some(v) => Ok(v),
            None => Err(ApiError::missing("body", name)),
        }
    }

    /// Optional integer field.
    pub fn opt_int(&self, name: &str) -> (res: Result<Option<i64>, ApiError>)
        ensures
            match res {
                Ok(Some(n)) => self@.integer(name@) == Ok::<Option<int>, ApiErrorView>(
                    Some(n as int),
                ),
                Ok(None) => self@.integer(name@) == Ok::<Option<int>, ApiErrorView>(None),
                Err(e) => self@.integer(name@) == Err::<Option<int>, ApiErrorView>(e@),
            },
    {
        match self.text(name) {
            None => Ok(None),
            Some(v) => match numeral::parse_integer(text::trimmed(v).as_str()) {
                Some(n) => Ok(Some(n)),
                None => Err(int_error("body", name, v)),
            },
        }
    }

    /// Integer field with a default.
    pub fn int_or(&self, name: &str, default: i64) -> (res: Result<i64, ApiError>)
        ensures
            match res {
                Ok(n) => self@.integer_or(name@, default as int) == Ok::<int, ApiErrorView>(
                    n as int,
                ),
                Err(e) => self@.integer_or(name@, default as int) == Err::<int, ApiErrorView>(e@),
            },
    {
        match self.opt_int(name) {
            Ok(Some(n)) => Ok(n),
            Ok(None) => Ok(default),
            Err(e) => Err(e),
        }
    }

    /// Required integer field.
    pub fn required_int(&self, name: &str) -> (res: Result<i64, ApiError>)
        ensures
            match res {
                Ok(n) => self@.required_integer(name@) == Ok::<int, ApiErrorView>(n as int),
                Err(e) => self@.required_integer(name@) == Err::<int, ApiErrorView>(e@),
            },
    {
        match self.opt_int(name) {
            Ok(Some(n)) => Ok(n),
            Ok(None) => Err(ApiError::missing("body", name)),
            Err(e) => Err(e),
        }
    }

    /// Number field with a default; the number's text.
    pub fn float_or(&self, name: &str, default: &str) -> (res: Result<String, ApiError>)
        ensures
            match res {
                Ok(n) => self@.number_or(name@, default@) == Ok::<Seq<char>, ApiErrorView>(n@),
                Err(e) => self@.number_or(name@, default@) == Err::<Seq<char>, ApiErrorView>(e@),
            },
    {
        match self.text(name) {
            None => Ok(String::from_str(default)),
            Some(v) => {
                let t = text::trimmed(v);
                if numeral::number(t.as_str()) {
                    Ok(t)
                } else {
                    Err(
                        ApiError::validation(
                            "body",
                            name,
                            "float_parsing",
                            "Input should be a valid number, unable to parse string as a number",
                            Some(v),
                        ),
                    )
                }
            },
        }
    }

    /// Optional boolean field (`true/false`, `1/0`, `yes/no`, `on/off`, ...;
    /// 422 otherwise).
    pub fn bool_or(&self, name: &str, default: bool) -> (res: Result<bool, ApiError>)
        ensures
            match res {
                Ok(b) => self@.flag(name@, default) == Ok::<bool, ApiErrorView>(b),
                Err(e) => self@.flag(name@, default) == Err::<bool, ApiErrorView>(e@),
            },
    {
        match self.text(name) {
            None => Ok(default),
            Some(v) => parse_bool("body", name, v),
        }
    }

    /// The first file part named `name` (422 when absent).
    pub fn file(&self, name: &str) -> (res: Result<&Upload, ApiError>)
        ensures
            match res {
                Ok(u) => self@.upload(name@) == Ok::<UploadView, ApiErrorView>(u@),
                Err(e) => self@.upload(name@) == Err::<UploadView, ApiErrorView>(e@),
            },
    {
        let mut i: usize = 0;
        while i < self.files.len()
            invariant
                i <= self.files@.len(),
                file_from(self@.files, name@, 0) == file_from(self@.files, name@, i as int),
            decreases self.files@.len() - i,
        {
            if text::same(self.files[i].0.as_str(), name) {
                return Ok(&self.files[i].1);
            }
            i = i + 1;
        }
        Err(ApiError::missing("body", name))
    }

    /// Every file part named `name` (422 when there is none).
    pub fn files(&self, name: &str) -> (res: Result<Vec<&Upload>, ApiError>)
        ensures
            match res {
                Ok(v) => v@.len() > 0 && v@.map_values(|u: &Upload| u@) == files_named(
                    self@.files,
                    name@,
                ),
                Err(e) => files_named(self@.files, name@).len() == 0 && e@ == error::missing_reply(
                    "body"@,
                    name@,
                ),
            },
    {
        let ghost all = self@.files;
        let ghost f = |u: &Upload| u@;
        let mut out: Vec<&Upload> = Vec::new();
        let mut i: usize = 0;
        assert(out@.map_values(f) =~= files_named(all.take(0), name@));
        while i < self.files.len()
            invariant
                i <= self.files@.len(),
                all == self@.files,
                f == (|u: &Upload| u@),
                out@.map_values(f) == files_named(all.take(i as int), name@),
            decreases self.files@.len() - i,
        {
            assert(all.take(i + 1).drop_last() =~= all.take(i as int));
            if text::same(self.files[i].0.as_str(), name) {
                let ghost seen = out@;
                out.push(&self.files[i].1);
                assert(out@.map_values(f) =~= seen.map_values(f).push(all[i as int].1));
            }
            i = i + 1;
        }
        assert(all.take(i as int) =~= all);
        if out.len() == 0 {
            Err(ApiError::missing("body", name))
        } else {
            Ok(out)
        }
    }
}

/// A count that fits, or zero.
pub open spec fn count_of(v: int) -> int {
    if 0 <= v <= usize::MAX {
        v
    } else {
        0
    }
}

/// Validate an integer that must be a non-negative count: zero when it is not
/// one, or too large.
pub fn count(v: i64) -> (out: usize)
    ensures
        out == count_of(v as int),
{
    if v >= 0 && v as u64 <= usize::MAX as u64 {
        v as usize
    } else {
        0
    }
}

/// The seed that a request asks for: negative values are refused.
pub open spec fn seed_value(v: Option<int>) -> Result<Option<int>, ApiErrorView> {
    match v {
        None => Ok(None),
        Some(s) => if s >= 0 {
            Ok(Some(s))
        } else {
            Err(
                error::reply(400, "seed must be a non-negative integer, got "@ + text::signed(s)),
            )
        },
    }
}

/// An optional 64-bit integer as a mathematical one.
pub open spec fn opt_i64(v: Option<i64>) -> Option<int> {
    match v {
        Some(n) => Some(n as int),
        None => None,
    }
}

/// An optional unsigned 64-bit integer as a mathematical one.
pub open spec fn opt_u64(v: Option<u64>) -> Option<int> {
    match v {
        Some(n) => Some(n as int),
        None => None,
    }
}

/// Optional seed: negative values have no `u64` equivalent.
pub fn seed(v: Option<i64>) -> (res: Result<Option<u64>, ApiError>)
    ensures
        match res {
            Ok(s) => seed_value(opt_i64(v)) == Ok::<Option<int>, ApiErrorView>(opt_u64(s)),
            Err(e) => seed_value(opt_i64(v)) == Err::<Option<int>, ApiErrorView>(e@),
        },
{
    match v {
        None => Ok(None),
        Some(s) => if s >= 0 {
            Ok(Some(s as u64))
        } else {
            let mut m = String::from_str("seed must be a non-negative integer, got ");
            text::push_signed(&mut m, s);
            Err(ApiError::bad_request(m.as_str()))
        },
    }
}

/// A field has the first value that is given for it and is not empty.
pub proof fn fields_have_their_first_value(
    f: FormView,
    name: Seq<char>,
    k: int,
    default: Seq<char>,
)
    requires
        0 <= k <= f.text.len(),
        forall|i: int|
            0 <= i < k ==> (#[trigger] f.text[i]).0 != name || f.text[i].1.len() == 0,
    ensures
        k < f.text.len() && f.text[k].0 == name && f.text[k].1.len() > 0 ==> {
            &&& f.value(name) == Some(f.text[k].1)
            &&& f.value_or(name, default) == f.text[k].1
            &&& f.required(name) == Ok::<Seq<char>, ApiErrorView>(f.text[k].1)
        },
        k == f.text.len() ==> {
            &&& f.value(name) is None
            &&& f.value_or(name, default) == default
            &&& f.required(name) matches Err(e) && e.status == 422
            &&& f.integer(name) == Ok::<Option<int>, ApiErrorView>(None)
        },
{
    lemma_text_from(f.text, name, 0, k);
}

proof fn lemma_text_from(parts: Seq<(Seq<char>, Seq<char>)>, name: Seq<char>, from: int, k: int)
    requires
        0 <= from <= k <= parts.len(),
        forall|i: int|
            from <= i < k ==> (#[trigger] parts[i]).0 != name || parts[i].1.len() == 0,
    ensures
        text_from(parts, name, from) == text_from(parts, name, k),
    decreases k - from,
{
    if from < k {
        assert(parts[from].0 != name || parts[from].1.len() == 0);
        lemma_text_from(parts, name, from + 1, k);
    }
}

/// A field with an integer has that integer, whatever white space stands around it, and a
/// default counts only where nothing is given.
pub proof fn integer_fields_are_read(
    f: FormView,
    name: Seq<char>,
    a: Seq<char>,
    n: int,
    b: Seq<char>,
    default: int,
)
    requires
        i64::MIN <= n <= i64::MAX,
        forall|i: int| 0 <= i < a.len() ==> text::is_white(#[trigger] a[i]),
        forall|i: int| 0 <= i < b.len() ==> text::is_white(#[trigger] b[i]),
    ensures
        f.value(name) == Some(a + text::signed(n) + b) ==> f.integer(name) == Ok::<
            Option<int>,
            ApiErrorView,
        >(Some(n)) && f.integer_or(name, default) == Ok::<int, ApiErrorView>(n)
            && f.required_integer(name) == Ok::<int, ApiErrorView>(n),
        f.value(name) is None ==> f.integer_or(name, default) == Ok::<int, ApiErrorView>(default)
            && (f.required_integer(name) matches Err(e) && e.status == 422),
{
    let t = text::signed(n);
    numeral::written_integers_are_read_back(n);
    let m = if n < 0 {
        (-n) as nat
    } else {
        n as nat
    };
    numeral::written_numbers_are_read_back(m);
    let d = text::decimal(m);
    reveal_strlit("-");
    assert(numeral::is_digit(d[d.len() - 1]));
    assert(numeral::is_digit(d[0]));
    assert(t.last() == d.last());
    numeral::white_space_around_words_is_left_out(a, t, b);
}

/// What is no integer, no number and no truth value is refused with a 422.
pub proof fn other_values_are_refused(f: FormView, name: Seq<char>, v: Seq<char>, d: Seq<char>)
    requires
        f.value(name) == Some(v),
    ensures
        numeral::integer(text::trim(v)) is None ==> (f.integer(name) matches Err(e) && e.status
            == 422),
        !numeral::is_number(text::trim(v)) ==> (f.number_or(name, d) matches Err(e) && e.status
            == 422),
        truth(v) is None ==> forall|b: bool|
            (#[trigger] f.flag(name, b)) matches Err(e) && e.status == 422,
{
}

/// A field with a number has that number as it is written.
pub proof fn number_fields_are_read(
    f: FormView,
    name: Seq<char>,
    a: Seq<char>,
    t: Seq<char>,
    b: Seq<char>,
    default: Seq<char>,
)
    requires
        numeral::is_number(t),
        forall|i: int| 0 <= i < a.len() ==> text::is_white(#[trigger] a[i]),
        forall|i: int| 0 <= i < b.len() ==> text::is_white(#[trigger] b[i]),
    ensures
        f.value(name) == Some(a + t + b) ==> f.number_or(name, default) == Ok::<
            Seq<char>,
            ApiErrorView,
        >(t),
        f.value(name) is None ==> f.number_or(name, default) == Ok::<Seq<char>, ApiErrorView>(
            default,
        ),
{
    numeral::lemma_number_is_word(t);
    assert(!text::is_white(t[0]));
    assert(!text::is_white(t[t.len() - 1]));
    numeral::white_space_around_words_is_left_out(a, t, b);
}

/// Whether a word in lower case says yes.
pub open spec fn says_yes(t: Seq<char>) -> bool {
    ||| t == seq!['1']
    ||| t == seq!['t']
    ||| t == seq!['t', 'r', 'u', 'e']
    ||| t == seq!['y']
    ||| t == seq!['y', 'e', 's']
    ||| t == seq!['o', 'n']
}

/// Whether a word in lower case says no.
pub open spec fn says_no(t: Seq<char>) -> bool {
    ||| t == seq!['0']
    ||| t == seq!['f']
    ||| t == seq!['f', 'a', 'l', 's', 'e']
    ||| t == seq!['n']
    ||| t == seq!['n', 'o']
    ||| t == seq!['o', 'f', 'f']
}

/// A flag is set by the words for yes and cleared by the words for no, in any case and with
/// white space around them; a default counts only where nothing is given.
pub proof fn flags_say_yes_or_no(f: FormView, name: Seq<char>, v: Seq<char>, default: bool)
    ensures
        ({
            let t = numeral::ascii_lowercase(text::trim(v));
            &&& f.value(name) == Some(v) && says_yes(t) ==> f.flag(name, default) == Ok::<
                bool,
                ApiErrorView,
            >(true)
            &&& f.value(name) == Some(v) && says_no(t) ==> f.flag(name, default) == Ok::<
                bool,
                ApiErrorView,
            >(false)
            &&& f.value(name) == Some(v) && !says_yes(t) && !says_no(t) ==> f.flag(
                name,
                default,
            ) is Err
            &&& f.value(name) is None ==> f.flag(name, default) == Ok::<bool, ApiErrorView>(default)
        }),
{
    let t = numeral::ascii_lowercase(text::trim(v));
    reveal_strlit("1");
    reveal_strlit("true");
    reveal_strlit("t");
    reveal_strlit("yes");
    reveal_strlit("y");
    reveal_strlit("on");
    reveal_strlit("0");
    reveal_strlit("false");
    reveal_strlit("f");
    reveal_strlit("no");
    reveal_strlit("n");
    reveal_strlit("off");
    assert("1"@ =~= seq!['1']);
    assert("true"@ =~= seq!['t', 'r', 'u', 'e']);
    assert("t"@ =~= seq!['t']);
    assert("yes"@ =~= seq!['y', 'e', 's']);
    assert("y"@ =~= seq!['y']);
    assert("on"@ =~= seq!['o', 'n']);
    assert("0"@ =~= seq!['0']);
    assert("false"@ =~= seq!['f', 'a', 'l', 's', 'e']);
    assert("f"@ =~= seq!['f']);
    assert("no"@ =~= seq!['n', 'o']);
    assert("n"@ =~= seq!['n']);
    assert("off"@ =~= seq!['o', 'f', 'f']);
    if says_no(t) {
        assert(t[0] == '0' || t[0] == 'f' || t[0] == 'n' || t[0] == 'o');
        assert("on"@.len() == 2 && "on"@[1] == 'n');
        assert(!says_yes(t)) by {
            assert(seq!['1'][0] == '1' && seq!['t'][0] == 't' && seq!['y'][0] == 'y');
            assert(seq!['t', 'r', 'u', 'e'][0] == 't' && seq!['y', 'e', 's'][0] == 'y');
            assert(seq!['o', 'n'].len() == 2 && seq!['o', 'f', 'f'].len() == 3);
            assert(seq!['o', 'n'][0] == 'o' && seq!['n', 'o'][0] == 'n');
        }
    }
}

/// The upload of a field is the first file that is given for it, and a field without a file
/// is refused.
pub proof fn uploads_are_the_first_given(f: FormView, name: Seq<char>, k: int)
    requires
        0 <= k <= f.files.len(),
        forall|i: int| 0 <= i < k ==> (#[trigger] f.files[i]).0 != name,
    ensures
        k < f.files.len() && f.files[k].0 == name ==> f.upload(name) == Ok::<
            UploadView,
            ApiErrorView,
        >(f.files[k].1),
        k == f.files.len() ==> (f.upload(name) matches Err(e) && e.status == 422),
{
    lemma_file_from(f.files, name, 0, k);
}

proof fn lemma_file_from(
    parts: Seq<(Seq<char>, UploadView)>,
    name: Seq<char>,
    from: int,
    k: int,
)
    requires
        0 <= from <= k <= parts.len(),
        forall|i: int| from <= i < k ==> (#[trigger] parts[i]).0 != name,
    ensures
        file_from(parts, name, from) == file_from(parts, name, k),
    decreases k - from,
{
    if from < k {
        assert(parts[from].0 != name);
        lemma_file_from(parts, name, from + 1, k);
    }
}

/// The files of a field are all files that are given for it, in their order.
pub proof fn all_files_of_a_field_are_taken(parts: Seq<(Seq<char>, UploadView)>, name: Seq<char>)
    ensures
        files_named(parts, name) == parts.filter(
            |p: (Seq<char>, UploadView)| p.0 == name,
        ).map_values(|p: (Seq<char>, UploadView)| p.1),
    decreases parts.len(),
{
    reveal(Seq::filter);
    let keep = |p: (Seq<char>, UploadView)| p.0 == name;
    let value = |p: (Seq<char>, UploadView)| p.1;
    if parts.len() == 0 {
        assert(files_named(parts, name) =~= parts.filter(keep).map_values(value));
    } else {
        all_files_of_a_field_are_taken(parts.drop_last(), name);
        let front = parts.drop_last().filter(keep);
        assert(front.push(parts.last()).map_values(value) =~= front.map_values(value).push(
            parts.last().1,
        ));
    }
}

/// A seed is taken as it is given; a negative one is refused.
pub proof fn seeds_are_not_negative(v: int)
    ensures
        v >= 0 ==> seed_value(Some(v)) == Ok::<Option<int>, ApiErrorView>(Some(v)),
        v < 0 ==> (seed_value(Some(v)) matches Err(e) && e.status == 400),
        seed_value(None) == Ok::<Option<int>, ApiErrorView>(None),
{
}

} // verus!
