//! File names, media types and sizes of uploads and downloads.

use vstd::prelude::*;

use crate::inspect;
use crate::kept_text;
use crate::paths;
use crate::server::error;
use crate::server::error::{ApiError, ApiErrorView, MB};
use crate::text;

verus! {

/// Largest single mesh accepted by object mode.
pub const MAX_OBJECT_MESH_BYTES: usize = 100 * MB;

/// Largest robot package (all files together).
pub const MAX_ROBOT_FOLDER_BYTES: usize = 200 * MB;

/// Largest single file in a robot package.
pub const MAX_ROBOT_PER_FILE_BYTES: usize = 50 * MB;

/// Server settings.
#[derive(Debug)]
pub struct ServerConfig {
    /// Directory holding `index.html` and `examples/`.
    pub web_dir: String,
    /// Optimizer device for every pack (`auto`, `cpu`, `gpu`, `gpu:N`).
    pub device: String,
    /// Where robot sessions keep their files.
    pub session_root: String,
    /// Idle seconds after which a robot session is deleted.
    pub session_ttl: u64,
}

impl ServerConfig {
    /// Defaults: device `auto`, sessions under the temp directory, 1 h TTL.
    pub fn new(web_dir: &str, temp_dir: &str) -> (out: ServerConfig)
        ensures
            out.web_dir@ == web_dir@,
            out.device@ == "auto"@,
            out.session_root@ == inspect::path_join(temp_dir@, "morphit-robot-sessions"@),
            out.session_ttl == 3600,
    {
        ServerConfig {
            web_dir: String::from_str(web_dir),
            device: String::from_str("auto"),
            session_root: inspect::join_path(temp_dir, "morphit-robot-sessions"),
            session_ttl: 3600,
        }
    }

    /// The directory of the example library.
    pub fn examples_dir(&self) -> (out: String)
        ensures
            out@ == inspect::path_join(self.web_dir@, "examples"@),
    {
        inspect::join_path(self.web_dir.as_str(), "examples")
    }
}

/// The stem of a file name, or `fallback` when there is none.
pub open spec fn stem_or(filename: Option<Seq<char>>, fallback: Seq<char>) -> Seq<char> {
    match filename {
        Some(f) => match paths::path_stem(f) {
            Some(s) => if s.len() > 0 {
                s
            } else {
                fallback
            },
            None => fallback,
        },
        None => fallback,
    }
}

/// The lower-case extension of a file name, with its dot; empty when there is
/// none.
pub open spec fn suffix_of(filename: Option<Seq<char>>) -> Seq<char> {
    match filename {
        Some(f) => match paths::path_extension(f) {
            Some(e) => "."@ + text::lowercase_of(e),
            None => Seq::empty(),
        },
        None => Seq::empty(),
    }
}

/// `Path(name).stem`, or `fallback` when empty.
pub fn file_stem(filename: Option<&str>, fallback: &str) -> (out: String)
    ensures
        out@ == stem_or(text::opt_str(filename), fallback@),
{
    match filename {
        Some(f) => match paths::file_stem_of(f) {
            Some(s) => if s.as_str().is_empty() {
                String::from_str(fallback)
            } else {
                s
            },
            None => String::from_str(fallback),
        },
        None => String::from_str(fallback),
    }
}

/// `Path(name).suffix.lower()` (with the dot), or empty.
pub fn file_suffix(filename: Option<&str>) -> (out: String)
    ensures
        out@ == suffix_of(text::opt_str(filename)),
{
    match filename {
        Some(f) => match paths::extension(f) {
            Some(e) => {
                let mut out = String::from_str(".");
                out.append(text::to_lowercase(e.as_str()).as_str());
                out
            },
            None => String::new(),
        },
        None => String::new(),
    }
}

/// Whether object mode accepts meshes with this suffix.
pub open spec fn is_mesh_suffix(s: Seq<char>) -> bool {
    s == ".obj"@ || s == ".stl"@ || s == ".ply"@
}

/// Whether object mode accepts meshes with this suffix.
pub fn mesh_suffix(s: &str) -> (yes: bool)
    ensures
        yes == is_mesh_suffix(s@),
{
    text::same(s, ".obj") || text::same(s, ".stl") || text::same(s, ".ply")
}

/// The reply for a mesh of another format.
pub open spec fn extension_reply() -> ApiErrorView {
    error::reply(400, "mesh extension must be one of ('.obj', '.stl', '.ply')"@)
}

/// The reply for a mesh of another format.
pub fn extension_error() -> (out: ApiError)
    ensures
        out@ == extension_reply(),
{
    ApiError::bad_request("mesh extension must be one of ('.obj', '.stl', '.ply')")
}

/// The media type that the extension of `path` suggests.
pub uninterp spec fn guessed_media(path: Seq<char>) -> Option<Seq<char>>;

/// `mime_guess::from_path` and `first_raw`: the media type that the extension
/// of `path` suggests, named [`guessed_media`].
#[verifier::external_body]
fn guess_media(path: &str) -> (out: Option<String>)
    ensures
        text::opt_text(out) == guessed_media(path@),
{
    mime_guess::from_path(path).first_raw().map(|m| m.to_string())
}

/// The media type of a file with this suffix, unless it is guessed.
pub open spec fn pinned_media(suffix: Seq<char>) -> Option<Seq<char>> {
    if suffix == ".stl"@ {
        Some("model/stl"@)
    } else if suffix == ".obj"@ {
        Some("model/obj"@)
    } else if suffix == ".dae"@ {
        Some("model/vnd.collada+xml"@)
    } else if suffix == ".ply"@ {
        Some("application/octet-stream"@)
    } else if suffix == ".urdf"@ || suffix == ".xacro"@ {
        Some("application/xml"@)
    } else {
        None
    }
}

/// The media type of the file `path`, where `guess` is what its extension
/// suggests.
pub open spec fn media_of(path: Seq<char>, guess: Option<Seq<char>>) -> Seq<char> {
    match pinned_media(suffix_of(Some(path))) {
        Some(m) => m,
        None => match guess {
            Some(g) => g,
            None => "text/plain"@,
        },
    }
}

/// A text type names its character set.
pub open spec fn with_charset(media: Seq<char>) -> Seq<char> {
    if text::begins(media, "text/"@) && text::first_at(media, "charset"@, 0) is None {
        media + "; charset=utf-8"@
    } else {
        media
    }
}

/// A text type names its character set.
pub fn add_charset(media: String) -> (out: String)
    ensures
        out@ == with_charset(media@),
{
    let cs = text::to_chars(media.as_str());
    if text::starts_with(&cs, "text/") && text::find(&cs, "charset", 0).is_none() {
        let mut out = media;
        out.append("; charset=utf-8");
        out
    } else {
        media
    }
}

/// The media type of the file `path`, where `guess` is what its extension
/// suggests.
pub fn choose_media(path: &str, guess: Option<String>) -> (out: String)
    ensures
        out@ == media_of(path@, text::opt_text(guess)),
{
    let s = file_suffix(Some(path));
    if text::same(s.as_str(), ".stl") {
        String::from_str("model/stl")
    } else if text::same(s.as_str(), ".obj") {
        String::from_str("model/obj")
    } else if text::same(s.as_str(), ".dae") {
        String::from_str("model/vnd.collada+xml")
    } else if text::same(s.as_str(), ".ply") {
        String::from_str("application/octet-stream")
    } else if text::same(s.as_str(), ".urdf") || text::same(s.as_str(), ".xacro") {
        String::from_str("application/xml")
    } else {
        match guess {
            Some(g) => g,
            None => String::from_str("text/plain"),
        }
    }
}

/// The content type to serve the file `path` with: the given media type, or
/// one guessed from the extension (`text/plain` when unknown); text types get
/// `charset=utf-8`.
pub fn content_type(path: &str, media_type: Option<&str>) -> (out: String)
    ensures
        out@ == with_charset(
            match media_type {
                Some(m) => m@,
                None => media_of(path@, guessed_media(path@)),
            },
        ),
{
    match media_type {
        Some(m) => add_charset(String::from_str(m)),
        None => add_charset(choose_media(path, guess_media(path))),
    }
}

/// The media type of the example mesh `filename`.
pub open spec fn example_media(filename: Seq<char>) -> Seq<char> {
    let s = suffix_of(Some(filename));
    if s == ".obj"@ {
        "model/obj"@
    } else if s == ".stl"@ {
        "model/stl"@
    } else {
        "application/octet-stream"@
    }
}

/// The media type of the example mesh `filename`.
pub fn example_media_type(filename: &str) -> (out: String)
    ensures
        out@ == example_media(filename@),
{
    let s = file_suffix(Some(filename));
    if text::same(s.as_str(), ".obj") {
        String::from_str("model/obj")
    } else if text::same(s.as_str(), ".stl") {
        String::from_str("model/stl")
    } else {
        String::from_str("application/octet-stream")
    }
}

/// How a download name writes the character `c`.
pub open spec fn name_char(c: char) -> Seq<char> {
    if c == '"' {
        "%22"@
    } else {
        seq![c]
    }
}

/// The `Content-Disposition` of a download called `name`.
pub open spec fn disposition_of(name: Seq<char>) -> Seq<char> {
    "attachment; filename=\""@ + name.flat_map(|c: char| name_char(c)) + "\""@
}

/// The `Content-Disposition` of a download called `name`.
pub fn disposition(name: &str) -> (out: String)
    ensures
        out@ == disposition_of(name@),
{
    let cs = text::to_chars(name);
    let ghost f = |c: char| name_char(c);
    let ghost head = "attachment; filename=\""@;
    let mut out = String::from_str("attachment; filename=\"");
    let mut i: usize = 0;
    proof {
        reveal(Seq::flat_map);
        assert(cs@.take(0).map_values(f) =~= Seq::empty());
        assert(out@ =~= head + cs@.take(0).flat_map(f));
    }
    while i < cs.len()
        invariant
            i <= cs@.len(),
            f == (|c: char| name_char(c)),
            out@ == head + cs@.take(i as int).flat_map(f),
        decreases cs@.len() - i,
    {
        proof {
            cs@.lemma_flat_map_take_append(f, i as int);
        }
        let c = cs[i];
        let ghost before = out@;
        if c == '"' {
            out.append("%22");
        } else {
            out.push(c);
        }
        assert(out@ =~= before + name_char(c));
        assert(out@ =~= head + cs@.take(i + 1).flat_map(f));
        i = i + 1;
    }
    assert(cs@.take(i as int) =~= cs@);
    out.append("\"");
    out
}

/// A character that a download name keeps.
pub open spec fn is_safe(c: char) -> bool {
    'a' <= c <= 'z' || 'A' <= c <= 'Z' || '0' <= c <= '9' || c == '-' || c == '_' || c == '.'
}

/// `stem` with every other character replaced by an underscore.
pub open spec fn safe_stem(stem: Seq<char>) -> Seq<char> {
    stem.map_values(
        |c: char|
            if is_safe(c) {
                c
            } else {
                '_'
            },
    )
}

/// The download name of a prepared mesh.
pub open spec fn prepared_name(stem: Seq<char>, ext: Seq<char>) -> Seq<char> {
    (if stem.len() == 0 {
        "mesh"@
    } else {
        safe_stem(stem)
    }) + "_prepared."@ + ext
}

/// A file name safe for `Content-Disposition`.
pub fn safe_filename(stem: &str, ext: &str) -> (out: String)
    ensures
        out@ == prepared_name(stem@, ext@),
{
    let cs = text::to_chars(stem);
    let mut safe: Vec<char> = Vec::new();
    let mut i: usize = 0;
    while i < cs.len()
        invariant
            i <= cs@.len(),
            safe@.len() == i,
            forall|j: int|
                0 <= j < i ==> #[trigger] safe@[j] == (if is_safe(cs@[j]) {
                    cs@[j]
                } else {
                    '_'
                }),
        decreases cs@.len() - i,
    {
        let c = cs[i];
        let keep = ('a' <= c && c <= 'z') || ('A' <= c && c <= 'Z') || ('0' <= c && c <= '9') || c
            == '-' || c == '_' || c == '.';
        safe.push(
            if keep {
                c
            } else {
                '_'
            },
        );
        i = i + 1;
    }
    assert(safe@ =~= safe_stem(stem@));
    let mut out = if safe.len() == 0 {
        String::from_str("mesh")
    } else {
        text::from_chars(&safe)
    };
    out.append("_prepared.");
    out.append(ext);
    out
}

/// How an attribute writes the character `c`.
pub open spec fn attribute_char(c: char) -> Seq<char> {
    if c == '&' {
        "&amp;"@
    } else if c == '<' {
        "&lt;"@
    } else if c == '"' {
        "&quot;"@
    } else {
        seq![c]
    }
}

/// `s` inside an XML attribute.
pub open spec fn attribute_text(s: Seq<char>) -> Seq<char> {
    s.flat_map(|c: char| attribute_char(c))
}

/// XML-escape a value placed inside an attribute.
pub fn attr_escape(s: &str) -> (out: String)
    ensures
        out@ == attribute_text(s@),
{
    let cs = text::to_chars(s);
    let ghost f = |c: char| attribute_char(c);
    let mut out = String::new();
    let mut i: usize = 0;
    proof {
        reveal(Seq::flat_map);
        assert(cs@.take(0).map_values(f) =~= Seq::empty());
        assert(out@ =~= cs@.take(0).flat_map(f));
    }
    while i < cs.len()
        invariant
            i <= cs@.len(),
            f == (|c: char| attribute_char(c)),
            out@ == cs@.take(i as int).flat_map(f),
        decreases cs@.len() - i,
    {
        proof {
            cs@.lemma_flat_map_take_append(f, i as int);
        }
        let c = cs[i];
        let ghost before = out@;
        if c == '&' {
            out.append("&amp;");
        } else if c == '<' {
            out.append("&lt;");
        } else if c == '"' {
            out.append("&quot;");
        } else {
            out.push(c);
        }
        assert(out@ =~= before + attribute_char(c));
        i = i + 1;
    }
    assert(cs@.take(i as int) =~= cs@);
    out
}

/// Whether a response that starts with `head` says 200.
pub open spec fn says_ok(head: Seq<char>) -> bool {
    text::begins(head, "HTTP/1."@) && text::words(head).len() > 1 && text::words(head)[1] == "200"@
}

/// Whether the first bytes of a response to `GET /healthz` say 200.
pub fn healthy(head: &[u8]) -> (yes: bool)
    ensures
        yes == says_ok(text::lossy_text(head@)),
{
    let t = text::from_utf8_lossy(head);
    says_200(t.as_str())
}

/// Whether a response that starts with `head` says 200.
pub fn says_200(head: &str) -> (yes: bool)
    ensures
        yes == says_ok(head@),
{
    let cs = text::to_chars(head);
    let words = text::split_words(&cs);
    assert(text::texts(words@).len() == words@.len());
    text::starts_with(&cs, "HTTP/1.") && words.len() > 1 && text::same(words[1].as_str(), "200")
}

/// A download name holds no quote, control character or path separator: only
/// letters, digits, `-`, `_` and `.`, when the extension holds only those.
pub proof fn prepared_names_are_safe(stem: Seq<char>, ext: Seq<char>)
    requires
        forall|i: int| 0 <= i < ext.len() ==> is_safe(#[trigger] ext[i]),
    ensures
        forall|i: int|
            0 <= i < prepared_name(stem, ext).len() ==> is_safe(#[trigger] prepared_name(stem, ext)[i]),
{
    reveal_strlit("mesh");
    reveal_strlit("_prepared.");
    let head = if stem.len() == 0 {
        "mesh"@
    } else {
        safe_stem(stem)
    };
    assert forall|i: int| 0 <= i < prepared_name(stem, ext).len() implies is_safe(
        #[trigger] prepared_name(stem, ext)[i],
    ) by {
        if i < head.len() {
            assert(prepared_name(stem, ext)[i] == head[i]);
        } else if i < head.len() + 10 {
            assert(prepared_name(stem, ext)[i] == "_prepared."@[i - head.len()]);
        } else {
            assert(prepared_name(stem, ext)[i] == ext[i - head.len() - 10]);
        }
    }
}

/// Meshes and robot descriptions have the media types that viewers expect; any other file
/// has the type that its extension suggests.
pub proof fn files_have_their_media_types(path: Seq<char>, guess: Option<Seq<char>>)
    ensures
        ({
            let s = suffix_of(Some(path));
            let m = media_of(path, guess);
            &&& s == ".stl"@ ==> m == "model/stl"@
            &&& s == ".obj"@ ==> m == "model/obj"@
            &&& s == ".dae"@ ==> m == "model/vnd.collada+xml"@
            &&& s == ".ply"@ ==> m == "application/octet-stream"@
            &&& s == ".urdf"@ ==> m == "application/xml"@
            &&& s == ".xacro"@ ==> m == "application/xml"@
            &&& s != ".stl"@ && s != ".obj"@ && s != ".dae"@ && s != ".ply"@ && s != ".urdf"@ && s
                != ".xacro"@ ==> (guess matches Some(g) ==> m == g) && (guess is None ==> m
                == "text/plain"@)
        }),
{
    reveal_strlit(".stl");
    reveal_strlit(".obj");
    reveal_strlit(".dae");
    reveal_strlit(".ply");
    reveal_strlit(".urdf");
    reveal_strlit(".xacro");
    assert(".stl"@[1] == 's' && ".obj"@[1] == 'o' && ".dae"@[1] == 'd' && ".ply"@[1] == 'p');
    assert(".urdf"@[1] == 'u' && ".xacro"@[1] == 'x');
}

/// An example mesh has the media type of its format.
pub proof fn example_meshes_have_their_media_types(filename: Seq<char>)
    ensures
        ({
            let s = suffix_of(Some(filename));
            &&& s == ".obj"@ ==> example_media(filename) == "model/obj"@
            &&& s == ".stl"@ ==> example_media(filename) == "model/stl"@
            &&& s != ".obj"@ && s != ".stl"@ ==> example_media(filename)
                == "application/octet-stream"@
        }),
{
    reveal_strlit(".obj");
    reveal_strlit(".stl");
    assert(".obj"@[1] == 'o' && ".stl"@[1] == 's');
}

/// The suffix of a file is what follows the last dot of its name, in lower case.
pub proof fn suffixes_are_taken_from_the_name(
    path: Seq<char>,
    stem: Seq<char>,
    ext: Seq<char>,
    fallback: Seq<char>,
)
    requires
        stem.len() > 0,
        !ext.contains('.'),
        paths::base_name(path) == Some(stem + seq!['.'] + ext),
    ensures
        suffix_of(Some(path)) == seq!['.'] + text::lowercase_of(ext),
        stem_or(Some(path), fallback) == stem,
        stem_or(None, fallback) == fallback,
        suffix_of(None) == Seq::<char>::empty(),
{
    paths::names_end_in_their_extension(path, stem, ext);
    reveal_strlit(".");
    assert("."@ =~= seq!['.']);
}

/// A name without quotes is offered for download as it is.
pub proof fn downloads_are_offered_under_their_name(name: Seq<char>)
    requires
        !name.contains('"'),
    ensures
        disposition_of(name) == "attachment; filename=\""@ + name + seq!['"'],
{
    lemma_plain_name(name);
    reveal_strlit("\"");
    assert("\""@ =~= seq!['"']);
}

proof fn lemma_plain_name(name: Seq<char>)
    requires
        !name.contains('"'),
    ensures
        name.flat_map(|c: char| name_char(c)) == name,
    decreases name.len(),
{
    let f = |c: char| name_char(c);
    if name.len() == 0 {
        assert(name.flat_map(f) =~= name);
    } else {
        let g = name.drop_last();
        assert(name[name.len() - 1] == name.last());
        assert(name.last() != '"');
        assert(!g.contains('"')) by {
            if g.contains('"') {
                let i = choose|i: int| 0 <= i < g.len() && g[i] == '"';
                assert(name[i] == '"');
            }
        }
        lemma_plain_name(g);
        g.lemma_flat_map_push(f, name.last());
        assert(g.push(name.last()) =~= name);
        assert(name.flat_map(f) =~= name);
    }
}

/// A download name keeps every safe character at its place.
pub proof fn safe_names_keep_their_characters(stem: Seq<char>, i: int)
    requires
        0 <= i < stem.len(),
    ensures
        safe_stem(stem).len() == stem.len(),
        is_safe(stem[i]) ==> safe_stem(stem)[i] == stem[i],
        !is_safe(stem[i]) ==> safe_stem(stem)[i] == '_',
{
}

proof fn lemma_attribute_concat(a: Seq<char>, b: Seq<char>)
    ensures
        attribute_text(a + b) == attribute_text(a) + attribute_text(b),
    decreases b.len(),
{
    let f = |c: char| attribute_char(c);
    if b.len() == 0 {
        assert(a + b =~= a);
        assert(b.flat_map(f) =~= Seq::<char>::empty());
        assert(attribute_text(a) + attribute_text(b) =~= attribute_text(a));
    } else {
        let g = b.drop_last();
        lemma_attribute_concat(a, g);
        assert(a + b =~= (a + g).push(b.last()));
        assert(b =~= g.push(b.last()));
        (a + g).lemma_flat_map_push(f, b.last());
        g.lemma_flat_map_push(f, b.last());
        assert(attribute_text(a + b) =~= attribute_text(a) + attribute_text(b));
    }
}

/// Reading an attribute gives back the text that was written into it.
pub proof fn attributes_are_read_back(s: Seq<char>)
    ensures
        kept_text::unescaped(attribute_text(s)) == s,
    decreases s.len(),
{
    let f = |c: char| attribute_char(c);
    if s.len() == 0 {
        assert(s.flat_map(f) =~= Seq::<char>::empty());
        assert(kept_text::unescaped(attribute_text(s)) =~= s);
    } else {
        let c = s[0];
        let rest = s.skip(1);
        attributes_are_read_back(rest);
        assert(seq![c] + rest =~= s);
        lemma_attribute_concat(seq![c], rest);
        seq![c].lemma_flat_map_singleton(f);
        let x = attribute_char(c);
        assert(attribute_text(seq![c]) =~= x);
        let t = x + attribute_text(rest);
        assert(t.skip(x.len() as int) =~= attribute_text(rest));
        reveal_strlit("&amp;");
        reveal_strlit("&lt;");
        reveal_strlit("&quot;");
        if c == '&' {
            assert(t.subrange(0, 5) =~= seq!['&', 'a', 'm', 'p', ';']);
        } else if c == '<' {
            assert(t.subrange(0, 4) =~= seq!['&', 'l', 't', ';']);
            if t.len() >= 5 {
                assert(t.subrange(0, 5)[1] == 'l');
            }
        } else if c == '"' {
            assert(t.subrange(0, 6) =~= seq!['&', 'q', 'u', 'o', 't', ';']);
            assert(t.subrange(0, 5)[1] == 'q');
            assert(t.subrange(0, 4)[1] == 'q');
        } else {
            assert(t[0] == c);
            if t.len() >= 5 {
                assert(t.subrange(0, 5)[0] == c);
            }
            if t.len() >= 4 {
                assert(t.subrange(0, 4)[0] == c);
            }
            if t.len() >= 6 {
                assert(t.subrange(0, 6)[0] == c);
            }
        }
        assert(kept_text::unescaped(t) =~= seq![c] + rest);
    }
}

} // verus!
