//! Robot packages held in memory. Keys are the files' relative paths with `/`
//! separators, normalized by [`crate::paths::normalize_rel`] (so an upload can
//! never name something outside the package).

use vstd::prelude::*;

use crate::paths;
use crate::text;
use crate::{Error, ErrorView};

verus! {

/// The archive as `zip` holds it.
#[verifier::external_type_specification]
#[verifier::external_body]
#[verifier::reject_recursive_types(R)]
pub struct ExZipArchive<R>(zip::ZipArchive<R>);

/// A reader over bytes.
#[verifier::external_type_specification]
#[verifier::external_body]
#[verifier::reject_recursive_types(T)]
pub struct ExCursor<T>(std::io::Cursor<T>);

/// One entry of an archive.
pub struct ZipEntry {
    pub name: String,
    pub is_dir: bool,
    /// The bytes, or why they cannot be read.
    pub data: Result<Vec<u8>, String>,
}

/// The contents of a [`ZipEntry`].
pub struct ZipEntryView {
    pub name: Seq<char>,
    pub is_dir: bool,
    pub data: Result<Seq<u8>, Seq<char>>,
}

impl View for ZipEntry {
    type V = ZipEntryView;

    open spec fn view(&self) -> ZipEntryView {
        ZipEntryView {
            name: self.name@,
            is_dir: self.is_dir,
            data: match self.data {
                Ok(bytes) => Ok(bytes@),
                Err(e) => Err(e@),
            },
        }
    }
}

/// An entry's contents, or the message of the error that stands in its place.
pub open spec fn entry_view(e: Result<ZipEntry, String>) -> Result<ZipEntryView, Seq<char>> {
    match e {
        Ok(entry) => Ok(entry@),
        Err(m) => Err(m@),
    }
}

/// The entries' contents.
pub open spec fn entry_views(v: Seq<Result<ZipEntry, String>>) -> Seq<
    Result<ZipEntryView, Seq<char>>,
> {
    v.map_values(|e: Result<ZipEntry, String>| entry_view(e))
}

/// The bytes that an archive was opened on.
pub uninterp spec fn archive_bytes(archive: zip::ZipArchive<std::io::Cursor<Vec<u8>>>) -> Seq<u8>;

/// How many entries `zip` finds in the archive `bytes`, or its error message.
pub uninterp spec fn zip_size(bytes: Seq<u8>) -> Result<nat, Seq<char>>;

/// Entry `i` of the archive `bytes` as `zip` reads it, or its error message.
pub uninterp spec fn zip_item(bytes: Seq<u8>, i: int) -> Result<ZipEntryView, Seq<char>>;

/// `zip::ZipArchive::new` over the bytes: it opens exactly the archives that
/// [`zip_size`] gives a number of entries for, and fails on the others with
/// that message.
#[verifier::external_body]
fn open_zip(bytes: Vec<u8>) -> (res: Result<zip::ZipArchive<std::io::Cursor<Vec<u8>>>, String>)
    ensures
        match res {
            Ok(archive) => archive_bytes(archive) == bytes@ && zip_size(bytes@) is Ok,
            Err(e) => zip_size(bytes@) == Err::<nat, Seq<char>>(e@),
        },
{
    zip::ZipArchive::new(std::io::Cursor::new(bytes)).map_err(|e| e.to_string())
}

/// `zip::ZipArchive::len`: the number of entries.
#[verifier::external_body]
fn zip_len(archive: &zip::ZipArchive<std::io::Cursor<Vec<u8>>>) -> (n: usize)
    ensures
        n as nat == zip_size(archive_bytes(*archive))->Ok_0,
{
    archive.len()
}

/// `zip::ZipArchive::by_index`, with the entry's name, kind and bytes read
/// from it. Reading an entry leaves the archive as it was.
#[verifier::external_body]
fn zip_entry(archive: &mut zip::ZipArchive<std::io::Cursor<Vec<u8>>>, i: usize) -> (res: Result<
    ZipEntry,
    String,
>)
    ensures
        entry_view(res) == zip_item(archive_bytes(*old(archive)), i as int),
        archive_bytes(*final(archive)) == archive_bytes(*old(archive)),
{
    let mut entry = archive.by_index(i).map_err(|e| e.to_string())?;
    let name = entry.name().to_string();
    let is_dir = entry.is_dir();
    let mut bytes = Vec::new();
    let read = std::io::Read::read_to_end(&mut entry, &mut bytes);
    Ok(ZipEntry { name, is_dir, data: read.map(|_| bytes).map_err(|e| e.to_string()) })
}

/// Whether `k` is a normalized path: its own normalization.
pub open spec fn is_key(k: Seq<char>) -> bool {
    paths::normalized(k) matches Ok(parts) && text::join(parts, seq!['/']) == k
}

/// The key of the file at `rel`, when the path is accepted.
pub open spec fn key_of(rel: Seq<char>) -> Option<Seq<char>> {
    match paths::normalized(rel) {
        Ok(parts) => Some(text::join(parts, seq!['/'])),
        Err(_) => None,
    }
}

/// The package with the file `rel` added or replaced, or why it is refused.
pub open spec fn with_file(
    files: Map<Seq<char>, Seq<u8>>,
    rel: Seq<char>,
    bytes: Seq<u8>,
) -> Result<Map<Seq<char>, Seq<u8>>, ErrorView> {
    match paths::normalized(rel) {
        Ok(parts) => Ok(files.insert(text::join(parts, seq!['/']), bytes)),
        Err(e) => Err(e),
    }
}

/// The package with the files added one after the other, or why the first one
/// that is refused is.
pub open spec fn with_files(files: Seq<(Seq<char>, Seq<u8>)>) -> Result<
    Map<Seq<char>, Seq<u8>>,
    ErrorView,
>
    decreases files.len(),
{
    if files.len() == 0 {
        Ok(Map::empty())
    } else {
        match with_files(files.drop_last()) {
            Ok(m) => with_file(m, files.last().0, files.last().1),
            Err(e) => Err(e),
        }
    }
}

/// The package with the entries of an archive added one after the other:
/// directories and macOS resource forks are skipped, and the first entry that
/// cannot be read or is refused ends it.
pub open spec fn unpacked(entries: Seq<Result<ZipEntryView, Seq<char>>>) -> Result<
    Map<Seq<char>, Seq<u8>>,
    ErrorView,
>
    decreases entries.len(),
{
    if entries.len() == 0 {
        Ok(Map::empty())
    } else {
        match unpacked(entries.drop_last()) {
            Err(e) => Err(e),
            Ok(m) => match entries.last() {
                Err(e) => Err(ErrorView::Invalid("not a valid zip archive: "@ + e)),
                Ok(entry) => if entry.is_dir || text::begins(entry.name, "__MACOSX/"@) {
                    Ok(m)
                } else {
                    match entry.data {
                        Err(e) => Err(ErrorView::Invalid(entry.name + ": "@ + e)),
                        Ok(bytes) => with_file(m, entry.name, bytes),
                    }
                },
            },
        }
    }
}

/// The entries of the archive `bytes`.
pub open spec fn zip_items(bytes: Seq<u8>, n: nat) -> Seq<Result<ZipEntryView, Seq<char>>> {
    Seq::new(n, |i: int| zip_item(bytes, i))
}

/// What [`MemPackage::from_zip`] makes of the archive `bytes`.
pub open spec fn unzipped(bytes: Seq<u8>) -> Result<Map<Seq<char>, Seq<u8>>, ErrorView> {
    match zip_size(bytes) {
        Ok(n) => unpacked(zip_items(bytes, n)),
        Err(e) => Err(ErrorView::Invalid("not a valid zip archive: "@ + e)),
    }
}

/// The bytes of the file at `rel`.
pub open spec fn file_at(files: Map<Seq<char>, Seq<u8>>, rel: Seq<char>) -> Option<Seq<u8>> {
    match key_of(rel) {
        Some(k) => if files.dom().contains(k) {
            Some(files[k])
        } else {
            None
        },
        None => None,
    }
}

/// The text of the file at `rel`; empty where there is none.
pub open spec fn text_at(files: Map<Seq<char>, Seq<u8>>, rel: Seq<char>) -> Seq<char> {
    match file_at(files, rel) {
        Some(bytes) => text::lossy_text(bytes),
        None => text::lossy_text(Seq::empty()),
    }
}

/// Whether `rel` is a file or a directory of the package.
pub open spec fn exists_at(files: Map<Seq<char>, Seq<u8>>, rel: Seq<char>) -> bool {
    file_at(files, rel) is Some || (key_of(rel) matches Some(k) && holds_dir(files, k))
}

/// Whether some file of the package lies below the directory `k`.
pub open spec fn holds_dir(files: Map<Seq<char>, Seq<u8>>, k: Seq<char>) -> bool {
    exists|f: Seq<char>| #[trigger] files.dom().contains(f) && text::begins(f, k.push('/'))
}

/// What lies before each slash among the first `n` characters of `k`.
pub open spec fn slash_prefixes(k: Seq<char>, n: nat) -> Seq<Seq<char>>
    decreases n,
{
    if n == 0 {
        Seq::empty()
    } else {
        let front = slash_prefixes(k, (n - 1) as nat);
        if k[n - 1] == '/' {
            front.push(k.take(n - 1))
        } else {
            front
        }
    }
}

/// The directories above each of the files.
pub open spec fn all_dirs(keys: Seq<Seq<char>>) -> Seq<Seq<char>>
    decreases keys.len(),
{
    if keys.len() == 0 {
        Seq::empty()
    } else {
        all_dirs(keys.drop_last()) + slash_prefixes(keys.last(), keys.last().len())
    }
}

/// The directories of a package with the files `keys`, sorted.
pub open spec fn dir_keys(keys: Seq<Seq<char>>) -> Seq<Seq<char>> {
    text::sorted_set(all_dirs(keys))
}

/// The URDF files among `keys`.
pub open spec fn urdf_keys(keys: Seq<Seq<char>>) -> Seq<Seq<char>> {
    keys.filter(|k: Seq<char>| text::ends(k, ".urdf"@))
}

/// The total length of the byte strings.
pub open spec fn total_len(data: Seq<Seq<u8>>) -> nat
    decreases data.len(),
{
    if data.len() == 0 {
        0
    } else {
        total_len(data.drop_last()) + data.last().len()
    }
}

/// The total size of the files in bytes.
pub open spec fn total_size(files: Map<Seq<char>, Seq<u8>>) -> nat
    decreases files.dom().len(),
    when files.dom().finite()
{
    if files.dom().len() == 0 {
        0
    } else {
        let k = files.dom().choose();
        files[k].len() + total_size(files.remove(k))
    }
}

/// Whether `keys` are the keys of `files` in ascending order and `contents` the
/// bytes of each.
pub open spec fn is_listing(
    keys: Seq<Seq<char>>,
    contents: Seq<Seq<u8>>,
    files: Map<Seq<char>, Seq<u8>>,
) -> bool {
    &&& text::ascending(keys)
    &&& files.dom() == keys.to_set()
    &&& contents.len() == keys.len()
    &&& forall|i: int| 0 <= i < keys.len() ==> files[#[trigger] keys[i]] == contents[i]
}

/// A robot description package as a map from relative path to file bytes.
pub struct MemPackage {
    keys: Vec<String>,
    data: Vec<Vec<u8>>,
}

impl View for MemPackage {
    type V = Map<Seq<char>, Seq<u8>>;

    closed spec fn view(&self) -> Map<Seq<char>, Seq<u8>> {
        file_map(self.file_keys(), self.contents())
    }
}

/// The map from each key to the bytes at its place.
pub open spec fn file_map(keys: Seq<Seq<char>>, data: Seq<Seq<u8>>) -> Map<Seq<char>, Seq<u8>> {
    Map::new(|k: Seq<char>| keys.contains(k), |k: Seq<char>| data[keys.index_of(k)])
}

/// Replacing the bytes of a key that is there replaces them in the map.
proof fn lemma_replace(keys: Seq<Seq<char>>, data: Seq<Seq<u8>>, i: int, bytes: Seq<u8>)
    requires
        text::ascending(keys),
        keys.len() == data.len(),
        0 <= i < keys.len(),
    ensures
        file_map(keys, data.update(i, bytes)) == file_map(keys, data).insert(keys[i], bytes),
{
    let a = file_map(keys, data.update(i, bytes));
    let b = file_map(keys, data).insert(keys[i], bytes);
    assert forall|k: Seq<char>| a.dom().contains(k) == b.dom().contains(k) by {}
    assert forall|k: Seq<char>| a.dom().contains(k) implies a[k] == b[k] by {
        lemma_index(keys, k);
        if k == keys[i] {
            lemma_unique(keys, keys.index_of(k), i);
        }
    }
    assert(a =~= b);
}

/// Inserting a key in its place inserts it in the map.
proof fn lemma_insert(keys: Seq<Seq<char>>, data: Seq<Seq<u8>>, i: int, key: Seq<char>, bytes: Seq<u8>)
    requires
        text::ascending(keys),
        keys.len() == data.len(),
        0 <= i <= keys.len(),
        !keys.contains(key),
        text::ascending(keys.insert(i, key)),
    ensures
        file_map(keys.insert(i, key), data.insert(i, bytes)) == file_map(keys, data).insert(
            key,
            bytes,
        ),
{
    let ks = keys.insert(i, key);
    let ds = data.insert(i, bytes);
    let a = file_map(ks, ds);
    let b = file_map(keys, data).insert(key, bytes);
    assert forall|k: Seq<char>| a.dom().contains(k) == b.dom().contains(k) by {
        if ks.contains(k) {
            let m = ks.index_of(k);
            if m < i {
                assert(keys[m] == k);
            } else if m > i {
                assert(keys[m - 1] == k);
            }
        }
        if keys.contains(k) {
            let m = keys.index_of(k);
            if m < i {
                assert(ks[m] == k);
            } else {
                assert(ks[m + 1] == k);
            }
        }
        assert(ks[i] == key);
    }
    assert forall|k: Seq<char>| a.dom().contains(k) implies a[k] == b[k] by {
        lemma_index(ks, k);
        if k == key {
            assert(ks[i] == key);
            lemma_unique(ks, ks.index_of(k), i);
        } else {
            assert(keys.contains(k));
            lemma_index(keys, k);
            let m = keys.index_of(k);
            if m < i {
                assert(ks[m] == k);
                lemma_unique(ks, ks.index_of(k), m);
            } else {
                assert(ks[m + 1] == k);
                lemma_unique(ks, ks.index_of(k), m + 1);
            }
        }
    }
    assert(a =~= b);
}

/// `index_of` finds a key that is there.
proof fn lemma_index(keys: Seq<Seq<char>>, k: Seq<char>)
    ensures
        keys.contains(k) ==> 0 <= keys.index_of(k) < keys.len() && keys[keys.index_of(k)] == k,
{
    if keys.contains(k) {
        let i = choose|i: int| 0 <= i < keys.len() && keys[i] == k;
        assert(keys[i] == k);
    }
}

/// In a sorted list equal keys stand at equal places.
proof fn lemma_unique(keys: Seq<Seq<char>>, a: int, b: int)
    requires
        text::ascending(keys),
        0 <= a < keys.len(),
        0 <= b < keys.len(),
        keys[a] == keys[b],
    ensures
        a == b,
{
    text::lemma_lex_irreflexive(keys[a]);
    if a < b {
        assert(text::lex_lt(keys[a], keys[b]));
    } else if b < a {
        assert(text::lex_lt(keys[b], keys[a]));
    }
}

/// What the invariant of a package makes of its keys and contents.
proof fn lemma_listed(pkg: &MemPackage)
    requires
        pkg.inv(),
    ensures
        pkg.listed(),
{
    let keys = pkg.file_keys();
    assert(pkg@.dom() =~= keys.to_set());
    assert forall|i: int| 0 <= i < keys.len() implies pkg@[#[trigger] keys[i]]
        == pkg.contents()[i] by {
        assert(keys.contains(keys[i]));
        lemma_index(keys, keys[i]);
        lemma_unique(keys, keys.index_of(keys[i]), i);
    }
}

/// The total size is the size of any one file and that of the others.
proof fn lemma_size_of_one(files: Map<Seq<char>, Seq<u8>>, k: Seq<char>)
    requires
        files.dom().finite(),
        files.dom().contains(k),
    ensures
        total_size(files) == files[k].len() + total_size(files.remove(k)),
    decreases files.dom().len(),
{
    let c = files.dom().choose();
    assert(files.dom().contains(c));
    if k != c {
        lemma_size_of_one(files.remove(c), k);
        lemma_size_of_one(files.remove(k), c);
        assert(files.remove(c).remove(k) =~= files.remove(k).remove(c));
    }
}

/// The sizes of the listed contents add up to the total size.
proof fn lemma_listed_size(
    keys: Seq<Seq<char>>,
    contents: Seq<Seq<u8>>,
    files: Map<Seq<char>, Seq<u8>>,
)
    requires
        is_listing(keys, contents, files),
    ensures
        files.dom().finite(),
        total_size(files) == total_len(contents),
    decreases keys.len(),
{
    vstd::seq_lib::seq_to_set_is_finite(keys);
    if keys.len() == 0 {
        assert(keys.to_set() =~= Set::<Seq<char>>::empty());
    } else {
        let k = keys.last();
        let front = keys.drop_last();
        assert(keys[keys.len() - 1] == k);
        assert(keys.to_set().contains(k));
        assert forall|j: int| 0 <= j < front.len() implies #[trigger] front[j] != k by {
            if front[j] == k {
                lemma_unique(keys, j, keys.len() - 1);
            }
        }
        assert(files.remove(k).dom() =~= front.to_set()) by {
            assert forall|x: Seq<char>| files.remove(k).dom().contains(x) == front.to_set().contains(
                x,
            ) by {
                if keys.to_set().contains(x) && x != k {
                    let j = choose|j: int| 0 <= j < keys.len() && keys[j] == x;
                    assert(front[j] == x);
                }
                if front.contains(x) {
                    let j = choose|j: int| 0 <= j < front.len() && front[j] == x;
                    assert(keys[j] == x);
                }
            }
        }
        assert(is_listing(front, contents.drop_last(), files.remove(k)));
        lemma_listed_size(front, contents.drop_last(), files.remove(k));
        lemma_size_of_one(files, k);
    }
}

impl MemPackage {
    /// The keys of the files, in ascending order.
    pub closed spec fn file_keys(&self) -> Seq<Seq<char>> {
        text::texts(self.keys@)
    }

    /// The contents of the files, in the order of their keys.
    pub closed spec fn contents(&self) -> Seq<Seq<u8>> {
        self.data@.map_values(|b: Vec<u8>| b@)
    }

    /// Whether the keys and the contents list the files of the package.
    pub open spec fn listed(&self) -> bool {
        is_listing(self.file_keys(), self.contents(), self@)
    }

    #[verifier::type_invariant]
    spec fn inv(&self) -> bool {
        &&& self.keys@.len() == self.data@.len()
        &&& text::ascending(text::texts(self.keys@))
        &&& forall|i: int| 0 <= i < self.keys@.len() ==> is_key(#[trigger] text::texts(self.keys@)[i])
    }

    /// A package without files.
    pub fn new() -> (pkg: Self)
        ensures
            pkg@ == Map::<Seq<char>, Seq<u8>>::empty(),
            pkg.file_keys() == Seq::<Seq<char>>::empty(),
            pkg.contents() == Seq::<Seq<u8>>::empty(),
            pkg.listed(),
    {
        let pkg = MemPackage { keys: Vec::new(), data: Vec::new() };
        assert(pkg.contents() =~= Seq::<Seq<u8>>::empty());
        assert(pkg.file_keys() =~= Seq::<Seq<char>>::empty());
        assert(pkg@ =~= Map::<Seq<char>, Seq<u8>>::empty());
        proof {
            lemma_listed(&pkg);
        }
        pkg
    }

    /// Add (or replace) a file; returns its normalized key. A path that could
    /// leave the package is refused, and the package stays as it was.
    pub fn insert(&mut self, rel: &str, bytes: Vec<u8>) -> (res: Result<String, Error>)
        ensures
            match res {
                Ok(key) => key_of(rel@) == Some(key@) && with_file(old(self)@, rel@, bytes@) == Ok::<
                    Map<Seq<char>, Seq<u8>>,
                    ErrorView,
                >(final(self)@),
                Err(e) => with_file(old(self)@, rel@, bytes@) == Err::<
                    Map<Seq<char>, Seq<u8>>,
                    ErrorView,
                >(e@) && *final(self) == *old(self),
            },
            final(self).listed(),
    {
        proof {
            use_type_invariant(&*self);
            lemma_listed(&*self);
        }
        let parts = match paths::normalize_rel(rel) {
            Ok(parts) => parts,
            Err(e) => {
                return Err(e);
            },
        };
        let key = text::join_with(&parts, "/");
        proof {
            reveal_strlit("/");
            assert("/"@ =~= seq!['/']);
            paths::normalizing_twice_changes_nothing(rel@);
            assert(is_key(key@));
        }
        let mut taken = MemPackage::new();
        std::mem::swap(&mut taken, self);
        let mut keys = taken.keys;
        let mut data = taken.data;
        let ghost ks = text::texts(keys@);
        let ghost ds = data@.map_values(|b: Vec<u8>| b@);
        let ghost b = bytes@;
        let mut k: usize = keys.len();
        while k > 0 && text::less(key.as_str(), keys[k - 1].as_str())
            invariant
                k <= keys@.len(),
                ks == text::texts(keys@),
                forall|j: int| k <= j < ks.len() ==> text::lex_lt(key@, #[trigger] ks[j]),
            decreases k,
        {
            k = k - 1;
        }
        if k > 0 && text::same(key.as_str(), keys[k - 1].as_str()) {
            data.set(k - 1, bytes);
            proof {
                assert(ks[k - 1] == key@);
                lemma_replace(ks, ds, k - 1, b);
                assert(data@.map_values(|b: Vec<u8>| b@) =~= ds.update(k - 1, b));
            }
        } else {
            keys.insert(k, key.clone());
            data.insert(k, bytes);
            proof {
                assert forall|j: int| 0 <= j < k implies text::lex_lt(#[trigger] ks[j], key@) by {
                    text::lemma_lex_total(key@, ks[k - 1]);
                    if j < k - 1 {
                        text::lemma_lex_transitive(ks[j], ks[k - 1], key@);
                    }
                }
                assert forall|j: int| 0 <= j < ks.len() implies ks[j] != key@ by {
                    text::lemma_lex_irreflexive(key@);
                }
                let all = ks.insert(k as int, key@);
                assert forall|i: int, j: int| 0 <= i < j < all.len() implies text::lex_lt(
                    #[trigger] all[i],
                    #[trigger] all[j],
                ) by {
                    if i == k {
                        assert(all[j] == ks[j - 1]);
                    } else if j == k {
                        assert(all[i] == ks[i]);
                    } else {
                        let a = if i < k { i } else { i - 1 };
                        let c = if j < k { j } else { j - 1 };
                        assert(all[i] == ks[a]);
                        assert(all[j] == ks[c]);
                    }
                }
                assert(text::texts(keys@) =~= all);
                assert(data@.map_values(|b: Vec<u8>| b@) =~= ds.insert(k as int, b));
                lemma_insert(ks, ds, k as int, key@, b);
                assert forall|i: int| 0 <= i < all.len() implies is_key(#[trigger] all[i]) by {
                    if i < k {
                        assert(all[i] == ks[i]);
                    } else if i > k {
                        assert(all[i] == ks[i - 1]);
                    }
                }
            }
        }
        *self = MemPackage { keys, data };
        proof {
            lemma_listed(&*self);
        }
        Ok(key)
    }

    /// A package from `(relative path, bytes)` pairs.
    pub fn from_files(files: Vec<(String, Vec<u8>)>) -> (res: Result<Self, Error>)
        ensures
            ({
                let given = files@.map_values(|f: (String, Vec<u8>)| (f.0@, f.1@));
                match res {
                    Ok(pkg) => with_files(given) == Ok::<Map<Seq<char>, Seq<u8>>, ErrorView>(pkg@)
                        && pkg.listed(),
                    Err(e) => with_files(given) == Err::<Map<Seq<char>, Seq<u8>>, ErrorView>(e@),
                }
            }),
    {
        let ghost given = files@.map_values(|f: (String, Vec<u8>)| (f.0@, f.1@));
        let mut pkg = MemPackage::new();
        let mut i: usize = 0;
        let n = files.len();
        while i < n
            invariant
                i <= n == files@.len(),
                given == files@.map_values(|f: (String, Vec<u8>)| (f.0@, f.1@)),
                with_files(given.take(i as int)) == Ok::<Map<Seq<char>, Seq<u8>>, ErrorView>(pkg@),
                pkg.listed(),
            decreases n - i,
        {
            proof {
                assert(given.take(i + 1).drop_last() =~= given.take(i as int));
                assert(given.take(i + 1).last() == given[i as int]);
            }
            let bytes = text::copy_bytes(&files[i].1);
            match pkg.insert(files[i].0.as_str(), bytes) {
                Ok(_) => {},
                Err(e) => {
                    proof {
                        lemma_refused(given, i + 1);
                    }
                    return Err(e);
                },
            }
            i = i + 1;
        }
        assert(given.take(i as int) =~= given);
        Ok(pkg)
    }

    /// Unpack a `.zip` archive. Directory entries and macOS resource forks
    /// (`__MACOSX/`) are skipped; entries that would escape the package are
    /// refused.
    pub fn from_zip(bytes: &[u8]) -> (res: Result<Self, Error>)
        ensures
            match res {
                Ok(pkg) => unzipped(bytes@) == Ok::<Map<Seq<char>, Seq<u8>>, ErrorView>(pkg@)
                    && pkg.listed(),
                Err(e) => unzipped(bytes@) == Err::<Map<Seq<char>, Seq<u8>>, ErrorView>(e@),
            },
    {
        let mut archive = match open_zip(text::copy_bytes(bytes)) {
            Ok(archive) => archive,
            Err(e) => {
                let mut m = String::from_str("not a valid zip archive: ");
                m.append(e.as_str());
                return Err(Error::Invalid(m));
            },
        };
        let n = zip_len(&archive);
        let mut entries: Vec<Result<ZipEntry, String>> = Vec::new();
        let mut i: usize = 0;
        while i < n
            invariant
                i <= n,
                archive_bytes(archive) == bytes@,
                entries@.len() == i,
                forall|j: int| 0 <= j < i ==> entry_view(#[trigger] entries@[j]) == zip_item(bytes@, j),
            decreases n - i,
        {
            entries.push(zip_entry(&mut archive, i));
            i = i + 1;
        }
        assert(entry_views(entries@) =~= zip_items(bytes@, n as nat));
        MemPackage::from_entries(entries)
    }

    /// The package that the entries of an archive unpack to.
    pub fn from_entries(entries: Vec<Result<ZipEntry, String>>) -> (res: Result<Self, Error>)
        ensures
            match res {
                Ok(pkg) => unpacked(entry_views(entries@)) == Ok::<
                    Map<Seq<char>, Seq<u8>>,
                    ErrorView,
                >(pkg@) && pkg.listed(),
                Err(e) => unpacked(entry_views(entries@)) == Err::<
                    Map<Seq<char>, Seq<u8>>,
                    ErrorView,
                >(e@),
            },
    {
        let ghost given = entry_views(entries@);
        let mut pkg = MemPackage::new();
        let mut i: usize = 0;
        let n = entries.len();
        while i < n
            invariant
                i <= n == entries@.len(),
                given == entry_views(entries@),
                unpacked(given.take(i as int)) == Ok::<Map<Seq<char>, Seq<u8>>, ErrorView>(pkg@),
                pkg.listed(),
            decreases n - i,
        {
            proof {
                assert(given.take(i + 1).drop_last() =~= given.take(i as int));
                assert(given.take(i + 1).last() == entry_view(entries@[i as int]));
            }
            match &entries[i] {
                Err(e) => {
                    let mut m = String::from_str("not a valid zip archive: ");
                    m.append(e.as_str());
                    proof {
                        lemma_unpack_refused(given, i + 1);
                    }
                    return Err(Error::Invalid(m));
                },
                Ok(entry) => {
                    let name = text::to_chars(entry.name.as_str());
                    if !entry.is_dir && !text::starts_with(&name, "__MACOSX/") {
                        match &entry.data {
                            Err(e) => {
                                let mut m = entry.name.clone();
                                m.append(": ");
                                m.append(e.as_str());
                                proof {
                                    lemma_unpack_refused(given, i + 1);
                                }
                                return Err(Error::Invalid(m));
                            },
                            Ok(bytes) => {
                                match pkg.insert(entry.name.as_str(), text::copy_bytes(bytes)) {
                                    Ok(_) => {},
                                    Err(e) => {
                                        proof {
                                            lemma_unpack_refused(given, i + 1);
                                        }
                                        return Err(e);
                                    },
                                }
                            },
                        }
                    }
                },
            }
            i = i + 1;
        }
        assert(given.take(i as int) =~= given);
        Ok(pkg)
    }

    /// How many files the package holds.
    pub fn len(&self) -> (n: usize)
        ensures
            n == self@.dom().len(),
            self@.dom().finite(),
            n == self.file_keys().len(),
            self.listed(),
    {
        proof {
            use_type_invariant(self);
            lemma_listed(self);
            let ks = self.file_keys();
            assert(ks.no_duplicates()) by {
                assert forall|i: int, j: int| 0 <= i < ks.len() && 0 <= j < ks.len() && i != j implies ks[i]
                    != ks[j] by {
                    if ks[i] == ks[j] {
                        lemma_unique(ks, i, j);
                    }
                }
            }
            ks.unique_seq_to_set();
            vstd::seq_lib::seq_to_set_is_finite(ks);
            assert(self@.dom() =~= ks.to_set());
        }
        self.keys.len()
    }

    /// Whether the package holds no file.
    pub fn is_empty(&self) -> (empty: bool)
        ensures
            empty == (self@ == Map::<Seq<char>, Seq<u8>>::empty()),
    {
        proof {
            if self.keys@.len() == 0 {
                assert(self@ =~= Map::<Seq<char>, Seq<u8>>::empty());
            } else {
                assert(self.file_keys().contains(self.file_keys()[0]));
                assert(self@.dom().contains(self.file_keys()[0]));
            }
        }
        self.keys.len() == 0
    }

    /// Total size of all files in bytes.
    pub fn total_bytes(&self) -> (n: u128)
        ensures
            n == total_size(self@),
            n == total_len(self.contents()),
            self.listed(),
    {
        proof {
            use_type_invariant(self);
            lemma_listed(self);
            lemma_listed_size(self.file_keys(), self.contents(), self@);
        }
        let ghost ds = self.contents();
        let mut n: u128 = 0;
        let mut i: usize = 0;
        while i < self.data.len()
            invariant
                i <= self.data@.len(),
                ds == self.contents(),
                n == total_len(ds.take(i as int)),
                n <= i * u64::MAX,
            decreases self.data@.len() - i,
        {
            let size: usize = self.data[i].len();
            proof {
                assert(ds.take(i + 1).drop_last() =~= ds.take(i as int));
                assert(ds.take(i + 1).last() == self.data@[i as int]@);
                assert(i * u64::MAX + u64::MAX <= u128::MAX) by (nonlinear_arith)
                    requires
                        0 <= i <= u64::MAX,
                ;
                assert(i * u64::MAX + u64::MAX == (i + 1) * u64::MAX) by (nonlinear_arith);
            }
            n = n + size as u128;
            i = i + 1;
        }
        assert(ds.take(i as int) =~= ds);
        n
    }

    /// Every key, sorted. Each one is its own normalization.
    pub fn files(&self) -> (out: Vec<String>)
        ensures
            text::texts(out@) == self.file_keys(),
            text::ascending(self.file_keys()),
            forall|i: int| 0 <= i < out@.len() ==> is_key(#[trigger] self.file_keys()[i]),
            forall|k: Seq<char>| #[trigger]
                self@.dom().contains(k) <==> self.file_keys().contains(k),
            self.listed(),
    {
        proof {
            use_type_invariant(self);
            lemma_listed(self);
        }
        let mut out: Vec<String> = Vec::new();
        let mut i: usize = 0;
        while i < self.keys.len()
            invariant
                i <= self.keys@.len(),
                out@.len() == i,
                forall|j: int| 0 <= j < i ==> (#[trigger] out@[j])@ == self.keys@[j]@,
            decreases self.keys@.len() - i,
        {
            out.push(self.keys[i].clone());
            i = i + 1;
        }
        assert(text::texts(out@) =~= self.file_keys());
        out
    }

    /// The key of the file at `rel`.
    fn key(rel: &str) -> (key: Option<String>)
        ensures
            text::opt_text(key) == key_of(rel@),
    {
        match paths::normalize_rel(rel) {
            Ok(parts) => {
                proof {
                    reveal_strlit("/");
                    assert("/"@ =~= seq!['/']);
                }
                Some(text::join_with(&parts, "/"))
            },
            Err(_) => None,
        }
    }

    /// The bytes of `rel`, if it is a file of the package.
    pub fn read(&self, rel: &str) -> (bytes: Option<&[u8]>)
        ensures
            match bytes {
                Some(b) => file_at(self@, rel@) == Some(b@),
                None => file_at(self@, rel@) is None,
            },
    {
        proof {
            use_type_invariant(self);
        }
        match MemPackage::key(rel) {
            None => None,
            Some(k) => match paths::position(&self.keys, k.as_str()) {
                Some(i) => {
                    proof {
                        let ks = self.file_keys();
                        assert(ks[i as int] == k@);
                        lemma_index(ks, k@);
                        lemma_unique(ks, ks.index_of(k@), i as int);
                        assert(self.contents()[i as int] == self.data@[i as int]@);
                    }
                    Some(self.data[i].as_slice())
                },
                None => None,
            },
        }
    }

    /// The text of the file at `rel`; empty where there is none.
    pub fn read_text(&self, rel: &str) -> (out: String)
        ensures
            out@ == text_at(self@, rel@),
    {
        match self.read(rel) {
            Some(bytes) => text::from_utf8_lossy(bytes),
            None => {
                let none: Vec<u8> = Vec::new();
                assert(none@ =~= Seq::<u8>::empty());
                text::from_utf8_lossy(&none)
            },
        }
    }

    /// Whether `rel` is a file of the package.
    pub fn is_file(&self, rel: &str) -> (yes: bool)
        ensures
            yes == file_at(self@, rel@) is Some,
    {
        self.read(rel).is_some()
    }

    /// Whether some file lies below `rel`.
    pub fn is_dir(&self, rel: &str) -> (yes: bool)
        ensures
            yes == (key_of(rel@) matches Some(k) && holds_dir(self@, k)),
    {
        let mut prefix = match MemPackage::key(rel) {
            None => {
                return false;
            },
            Some(k) => k,
        };
        let ghost k = prefix@;
        prefix.push('/');
        let p = text::to_chars(prefix.as_str());
        let mut i: usize = 0;
        while i < self.keys.len()
            invariant
                i <= self.keys@.len(),
                p@ == k.push('/'),
                key_of(rel@) == Some(k),
                forall|j: int|
                    0 <= j < i ==> !text::begins(#[trigger] self.file_keys()[j], k.push('/')),
            decreases self.keys@.len() - i,
        {
            let f = text::to_chars(self.keys[i].as_str());
            assert(self.file_keys()[i as int] == f@);
            if text::matches_at(&f, &p, 0) {
                assert(self.file_keys().contains(f@));
                assert(self@.dom().contains(f@));
                return true;
            }
            i = i + 1;
        }
        assert(!holds_dir(self@, k)) by {
            assert forall|f: Seq<char>| #[trigger] self@.dom().contains(f) implies !text::begins(
                f,
                k.push('/'),
            ) by {
                let j = choose|j: int|
                    0 <= j < self.file_keys().len() && self.file_keys()[j] == f;
            }
        }
        false
    }

    /// Whether `rel` is a file or a directory of the package.
    pub fn contains_path(&self, rel: &str) -> (yes: bool)
        ensures
            yes == exists_at(self@, rel@),
    {
        self.is_file(rel) || self.is_dir(rel)
    }

    /// Directory keys (every proper prefix of a file key), sorted.
    pub fn dirs(&self) -> (out: Vec<String>)
        ensures
            text::texts(out@) == dir_keys(self.file_keys()),
            self.listed(),
    {
        proof {
            use_type_invariant(self);
            lemma_listed(self);
        }
        let ghost ks = self.file_keys();
        let mut out: Vec<String> = Vec::new();
        let mut i: usize = 0;
        assert(text::texts(out@) =~= Seq::<Seq<char>>::empty());
        while i < self.keys.len()
            invariant
                i <= self.keys@.len(),
                ks == self.file_keys(),
                text::texts(out@) == text::sorted_set(all_dirs(ks.take(i as int))),
            decreases self.keys@.len() - i,
        {
            let f = text::to_chars(self.keys[i].as_str());
            let ghost done = all_dirs(ks.take(i as int));
            proof {
                assert(ks.take(i + 1).drop_last() =~= ks.take(i as int));
                assert(ks.take(i + 1).last() == f@);
                assert(done + Seq::<Seq<char>>::empty() =~= done);
            }
            let mut j: usize = 0;
            while j < f.len()
                invariant
                    j <= f@.len(),
                    text::texts(out@) == text::sorted_set(done + slash_prefixes(f@, j as nat)),
                decreases f@.len() - j,
            {
                let ghost so_far = done + slash_prefixes(f@, j as nat);
                if f[j] == '/' {
                    text::add_sorted(&mut out, text::from_range(&f, 0, j));
                    proof {
                        let next = done + slash_prefixes(f@, (j + 1) as nat);
                        assert(next =~= so_far.push(f@.take(j as int)));
                        assert(next.drop_last() =~= so_far);
                    }
                }
                j = j + 1;
            }
            i = i + 1;
        }
        assert(ks.take(i as int) =~= ks);
        out
    }

    /// Every `.urdf` file, sorted.
    pub fn urdfs(&self) -> (out: Vec<String>)
        ensures
            text::texts(out@) == urdf_keys(self.file_keys()),
            self.listed(),
    {
        proof {
            use_type_invariant(self);
            lemma_listed(self);
        }
        let ghost ks = self.file_keys();
        let ghost keep = |k: Seq<char>| text::ends(k, ".urdf"@);
        let mut out: Vec<String> = Vec::new();
        let mut i: usize = 0;
        proof {
            reveal(Seq::filter);
            assert(text::texts(out@) =~= ks.take(0).filter(keep));
        }
        while i < self.keys.len()
            invariant
                i <= self.keys@.len(),
                ks == self.file_keys(),
                keep == (|k: Seq<char>| text::ends(k, ".urdf"@)),
                text::texts(out@) == ks.take(i as int).filter(keep),
            decreases self.keys@.len() - i,
        {
            let f = text::to_chars(self.keys[i].as_str());
            proof {
                assert(ks.take(i + 1) =~= ks.take(i as int).push(ks[i as int]));
                ks.take(i as int).lemma_filter_push(ks[i as int], keep);
            }
            if text::ends_with(&f, ".urdf") {
                let ghost seen = text::texts(out@);
                out.push(self.keys[i].clone());
                assert(text::texts(out@) =~= seen.push(ks[i as int]));
            }
            i = i + 1;
        }
        assert(ks.take(i as int) =~= ks);
        out
    }

    /// The bytes and the extension of the mesh at `rel`.
    pub fn mesh_source(&self, rel: &str) -> (res: Result<(Vec<u8>, String), Error>)
        ensures
            match res {
                Ok((bytes, ext)) => file_at(self@, rel@) == Some(bytes@) && ext@ == (
                match paths::path_extension(rel@) {
                    Some(e) => e,
                    None => Seq::empty(),
                }),
                Err(e) => file_at(self@, rel@) is None && e@ == ErrorView::Invalid(
                    rel@ + ": no such file in the package"@,
                ),
            },
    {
        match self.read(rel) {
            Some(bytes) => {
                let ext = match paths::extension(rel) {
                    Some(e) => e,
                    None => String::new(),
                };
                Ok((text::copy_bytes(bytes), ext))
            },
            None => {
                let mut m = String::from_str(rel);
                m.append(": no such file in the package");
                Err(Error::Invalid(m))
            },
        }
    }
}

/// A file that is refused ends it, whatever follows.
proof fn lemma_refused(files: Seq<(Seq<char>, Seq<u8>)>, k: int)
    requires
        0 <= k <= files.len(),
        with_files(files.take(k)) is Err,
    ensures
        with_files(files) == with_files(files.take(k)),
    decreases files.len(),
{
    if k == files.len() {
        assert(files.take(k) =~= files);
    } else {
        assert(files.drop_last().take(k) =~= files.take(k));
        lemma_refused(files.drop_last(), k);
    }
}

/// An entry that is refused ends it, whatever follows.
proof fn lemma_unpack_refused(entries: Seq<Result<ZipEntryView, Seq<char>>>, k: int)
    requires
        0 <= k <= entries.len(),
        unpacked(entries.take(k)) is Err,
    ensures
        unpacked(entries) == unpacked(entries.take(k)),
    decreases entries.len(),
{
    if k == entries.len() {
        assert(entries.take(k) =~= entries);
    } else {
        assert(entries.drop_last().take(k) =~= entries.take(k));
        lemma_unpack_refused(entries.drop_last(), k);
    }
}

/// A file that was added reads back as the bytes it was added with, under every
/// spelling of its path, and every other file reads as before.
pub proof fn reads_give_back_what_was_inserted(
    files: Map<Seq<char>, Seq<u8>>,
    rel: Seq<char>,
    bytes: Seq<u8>,
    other: Seq<char>,
)
    ensures
        with_file(files, rel, bytes) matches Ok(after) ==> (if key_of(other) == key_of(rel) {
            file_at(after, other) == Some(bytes)
        } else {
            file_at(after, other) == file_at(files, other)
        }),
{
}

/// A path has a key exactly when it is accepted, and the key is its own key.
pub proof fn keys_name_themselves(rel: Seq<char>)
    ensures
        key_of(rel) is Some == paths::normalized(rel) is Ok,
        key_of(rel) matches Some(k) ==> is_key(k) && key_of(k) == Some(k),
{
    paths::normalizing_twice_changes_nothing(rel);
}

/// Adding a file adds its size and takes away that of the file it replaces.
pub proof fn adding_a_file_adds_its_size(
    files: Map<Seq<char>, Seq<u8>>,
    key: Seq<char>,
    bytes: Seq<u8>,
)
    requires
        files.dom().finite(),
    ensures
        total_size(Map::<Seq<char>, Seq<u8>>::empty()) == 0,
        total_size(files.insert(key, bytes)) + (if files.dom().contains(key) {
            files[key].len()
        } else {
            0
        }) == total_size(files) + bytes.len(),
{
    let after = files.insert(key, bytes);
    lemma_size_of_one(after, key);
    if files.dom().contains(key) {
        lemma_size_of_one(files, key);
        assert(after.remove(key) =~= files.remove(key));
    } else {
        assert(after.remove(key) =~= files);
    }
}

/// The listed keys are in ascending order, each once, and are exactly the keys of
/// the files; the listed contents add up to the total size.
pub proof fn listings_hold_every_file_once(
    keys: Seq<Seq<char>>,
    contents: Seq<Seq<u8>>,
    files: Map<Seq<char>, Seq<u8>>,
)
    requires
        is_listing(keys, contents, files),
    ensures
        text::ascending(keys),
        keys.no_duplicates(),
        files.dom().finite(),
        files.dom().len() == keys.len() == contents.len(),
        forall|k: Seq<char>| #[trigger] files.dom().contains(k) <==> keys.contains(k),
        total_len(contents) == total_size(files),
{
    assert forall|i: int, j: int| 0 <= i < keys.len() && 0 <= j < keys.len() && i
        != j implies keys[i] != keys[j] by {
        if keys[i] == keys[j] {
            lemma_unique(keys, i, j);
        }
    }
    keys.unique_seq_to_set();
    lemma_listed_size(keys, contents, files);
}

/// A package has one listing: its files alone decide keys and contents.
pub proof fn files_decide_their_listing(
    files: Map<Seq<char>, Seq<u8>>,
    keys: Seq<Seq<char>>,
    contents: Seq<Seq<u8>>,
    other_keys: Seq<Seq<char>>,
    other_contents: Seq<Seq<u8>>,
)
    requires
        is_listing(keys, contents, files),
        is_listing(other_keys, other_contents, files),
    ensures
        keys == other_keys,
        contents == other_contents,
{
    listings_hold_every_file_once(keys, contents, files);
    listings_hold_every_file_once(other_keys, other_contents, files);
    assert forall|i: int| 0 <= i < keys.len() implies keys[i] == other_keys[i] by {
        lemma_same_place(keys, other_keys, i);
    }
    assert(keys =~= other_keys);
    assert forall|i: int| 0 <= i < contents.len() implies contents[i] == other_contents[i] by {
        assert(files[keys[i]] == contents[i]);
        assert(files[other_keys[i]] == other_contents[i]);
    }
    assert(contents =~= other_contents);
}

/// Two ascending lists of the same keys agree at every place.
proof fn lemma_same_place(a: Seq<Seq<char>>, b: Seq<Seq<char>>, i: int)
    requires
        text::ascending(a),
        text::ascending(b),
        a.to_set() == b.to_set(),
        a.len() == b.len(),
        0 <= i < a.len(),
    ensures
        a[i] == b[i],
    decreases i,
{
    assert forall|j: int| 0 <= j < i implies a[j] == b[j] by {
        lemma_same_place(a, b, j);
    }
    assert(a.to_set().contains(a[i]));
    assert(b.to_set().contains(b[i]));
    assert(b.contains(a[i]) && a.contains(b[i]));
    let j = choose|j: int| 0 <= j < b.len() && b[j] == a[i];
    let k = choose|k: int| 0 <= k < a.len() && a[k] == b[i];
    if j < i {
        lemma_unique(a, j, i);
    }
    if k < i {
        lemma_unique(b, k, i);
    }
    if j > i && k > i {
        assert(text::lex_lt(b[i], b[j]));
        assert(text::lex_lt(a[i], a[k]));
        text::lemma_lex_transitive(a[i], b[i], a[i]);
        text::lemma_lex_irreflexive(a[i]);
    }
}

/// The slash prefixes of `k` are what lies before its slashes.
proof fn lemma_slash_prefixes(k: Seq<char>, n: nat, d: Seq<char>)
    requires
        n <= k.len(),
    ensures
        slash_prefixes(k, n).contains(d) <==> d.len() < n && text::begins(k, d.push('/')),
    decreases n,
{
    if n > 0 {
        let m = (n - 1) as nat;
        let front = slash_prefixes(k, m);
        let all = slash_prefixes(k, n);
        lemma_slash_prefixes(k, m, d);
        if all.contains(d) {
            let i = choose|i: int| 0 <= i < all.len() && all[i] == d;
            if i < front.len() {
                assert(front[i] == d);
                assert(front.contains(d));
            } else {
                assert(d == k.take(m as int));
                assert(k.subrange(0, d.push('/').len() as int) =~= d.push('/'));
            }
        }
        if d.len() < n && text::begins(k, d.push('/')) {
            let w = k.subrange(0, d.push('/').len() as int);
            assert(w[d.len() as int] == '/');
            if d.len() < m {
                let i = choose|i: int| 0 <= i < front.len() && front[i] == d;
                assert(all[i] == d);
            } else {
                assert(k[m as int] == '/');
                assert(k.take(m as int) =~= d) by {
                    assert forall|j: int| 0 <= j < m implies k[j] == d[j] by {
                        assert(w[j] == d.push('/')[j]);
                    }
                }
                assert(all[all.len() - 1] == d);
            }
        }
    }
}

proof fn lemma_all_dirs(keys: Seq<Seq<char>>, d: Seq<char>)
    ensures
        all_dirs(keys).contains(d) <==> exists|i: int|
            0 <= i < keys.len() && text::begins(#[trigger] keys[i], d.push('/')),
    decreases keys.len(),
{
    if keys.len() > 0 {
        let front = keys.drop_last();
        let last = keys.last();
        let a = all_dirs(front);
        let b = slash_prefixes(last, last.len());
        let all = all_dirs(keys);
        lemma_all_dirs(front, d);
        lemma_slash_prefixes(last, last.len(), d);
        if all.contains(d) {
            let i = choose|i: int| 0 <= i < all.len() && all[i] == d;
            if i < a.len() {
                assert(a[i] == d);
                assert(a.contains(d));
                let j = choose|j: int|
                    0 <= j < front.len() && text::begins(#[trigger] front[j], d.push('/'));
                assert(keys[j] == front[j]);
            } else {
                assert(b[i - a.len()] == d);
                assert(b.contains(d));
                assert(text::begins(keys[keys.len() - 1], d.push('/')));
            }
        }
        if exists|i: int| 0 <= i < keys.len() && text::begins(#[trigger] keys[i], d.push('/')) {
            let j = choose|j: int|
                0 <= j < keys.len() && text::begins(#[trigger] keys[j], d.push('/'));
            if j < front.len() {
                assert(front[j] == keys[j]);
                assert(a.contains(d));
                let i = choose|i: int| 0 <= i < a.len() && a[i] == d;
                assert(all[i] == d);
            } else {
                assert(b.contains(d));
                let i = choose|i: int| 0 <= i < b.len() && b[i] == d;
                assert(all[a.len() + i] == d);
            }
        }
    }
}

/// The directories listed are in ascending order, each once, and are exactly
/// those that some file lies below.
pub proof fn listed_directories_hold_files(keys: Seq<Seq<char>>, d: Seq<char>)
    ensures
        text::ascending(dir_keys(keys)),
        dir_keys(keys).contains(d) <==> exists|i: int|
            0 <= i < keys.len() && text::begins(#[trigger] keys[i], d.push('/')),
{
    text::lemma_sorted_set(all_dirs(keys));
    lemma_all_dirs(keys, d);
    assert(dir_keys(keys).contains(d) <==> all_dirs(keys).contains(d));
}

} // verus!
