use std::io::{Cursor, Write};

use morphit_robot::paths::{
    extension, file_name, file_stem_of, is_within, join_lexical, normalize_rel, parent_rel,
    safe_join, strip_verbatim,
};
use morphit_robot::vfs::MemPackage;
use morphit_robot::{py_list, py_repr};

#[test]
fn python_reprs() {
    assert_eq!(py_repr("abc"), "'abc'");
    assert_eq!(py_repr("it's"), "\"it's\"");
    assert_eq!(py_repr("a'b\"c"), "'a\\'b\"c'");
    assert_eq!(py_repr("a\\b"), "'a\\\\b'");
    assert_eq!(py_list(&["a.urdf".into(), "b.urdf".into()]), "['a.urdf', 'b.urdf']");
    assert_eq!(py_list(&[]), "[]");
}

#[test]
fn reprs_escape_control_characters() {
    assert_eq!(py_repr("a\nb\tc\rd"), "'a\\nb\\tc\\rd'");
    assert_eq!(py_repr(""), "''");
    assert_eq!(py_repr("\u{7}"), "'\\x07'");
    assert_eq!(py_repr("\0\u{1f} \u{7f}\u{a0}\u{ad}\u{ff}"), "'\\x00\\x1f \\x7f\\xa0\\xad\u{ff}'");
}

#[test]
fn reprs_escape_what_python_never_prints() {
    assert_eq!(py_repr("\u{2028}\u{200b}\u{3000}\u{feff}"), "'\\u2028\\u200b\\u3000\\ufeff'");
    assert_eq!(py_repr("\u{e000}\u{fffe}"), "'\\ue000\\ufffe'");
    assert_eq!(py_repr("\u{1d173}\u{10ffff}"), "'\\U0001d173\\U0010ffff'");
    assert_eq!(py_repr("\u{e9}\u{4e2d}\u{1f916}"), "'\u{e9}\u{4e2d}\u{1f916}'");
}

#[test]
fn safe_join_accepts_relative_paths() {
    let base = "work";
    assert_eq!(safe_join(base, "meshes/a.stl").unwrap(), "work/meshes/a.stl");
    assert_eq!(safe_join(base, "pkg\\urdf\\r.urdf").unwrap(), "work/pkg/urdf/r.urdf");
    assert_eq!(safe_join(base, "/lead/slash.obj").unwrap(), "work/lead/slash.obj");
    assert_eq!(safe_join(base, "./x.obj").unwrap(), "work/x.obj");
    assert_eq!(safe_join(base, "a//b").unwrap(), "work/a/b");
}

#[test]
fn safe_join_rejects_escapes() {
    let base = "work";
    let msg = |r: &str| safe_join(base, r).unwrap_err().message();
    assert_eq!(msg(""), "Empty upload filename.");
    assert_eq!(msg("/"), "Empty upload filename.");
    assert_eq!(msg("../x"), "Bad upload path: '../x'");
    assert_eq!(msg("a/../../b"), "Bad upload path: 'a/../../b'");
    assert_eq!(msg("C:\\x"), "Bad upload path: 'C:/x'");
    assert_eq!(msg("..\\x"), "Bad upload path: '../x'");
    assert_eq!(msg("c:/x"), "Bad upload path: 'c:/x'");
    assert!(safe_join(base, "\\\\srv\\share\\x").is_ok_and(|p| p.starts_with("work/")));
    assert!(safe_join(base, "/etc/passwd").is_ok_and(|p| p == "work/etc/passwd"));
}

#[test]
fn lexical_joins() {
    assert_eq!(join_lexical("pkg/urdf", "../meshes/a.stl").as_deref(), Some("pkg/meshes/a.stl"));
    assert_eq!(join_lexical("", "./a//b.stl").as_deref(), Some("a/b.stl"));
    assert_eq!(join_lexical("pkg", "../../x"), None);
    assert_eq!(parent_rel("pkg/urdf/r.urdf"), "pkg/urdf");
    assert_eq!(parent_rel("r.urdf"), "");
    assert_eq!(normalize_rel("\\a\\.\\b").unwrap(), ["a", "b"]);
}

#[test]
fn path_pieces() {
    assert_eq!(file_name("a/b.tar.gz").as_deref(), Some("b.tar.gz"));
    assert_eq!(file_name("a/.."), None);
    assert_eq!(extension("a/b.tar.gz").as_deref(), Some("gz"));
    assert_eq!(extension(".hidden"), None);
    assert_eq!(file_stem_of("a/b.tar.gz").as_deref(), Some("b.tar"));
    assert_eq!(file_stem_of(".hidden").as_deref(), Some(".hidden"));
    assert_eq!(strip_verbatim(r"\\?\C:\x"), r"C:\x");
    assert_eq!(strip_verbatim("/plain/x"), "/plain/x");
    assert!(is_within(Some("/a/b/c"), Some("/a/b")));
    assert!(!is_within(Some("/a/bc"), Some("/a/b")));
    assert!(!is_within(None, Some("/a/b")));
}

#[test]
fn keys_are_normalized_and_confined() {
    let mut p = MemPackage::new();
    assert_eq!(p.insert("\\pkg\\urdf\\.\\r.urdf", b"x".to_vec()).unwrap(), "pkg/urdf/r.urdf");
    p.insert("pkg/meshes/a.stl", b"y".to_vec()).unwrap();
    assert!(p.insert("../evil", b"z".to_vec()).is_err());
    assert!(p.insert("C:/evil", b"z".to_vec()).is_err());
    assert_eq!(p.read("/pkg/urdf/r.urdf"), Some(&b"x"[..]));
    assert!(p.is_dir("pkg") && p.is_dir("pkg/meshes") && !p.is_dir("pkg/meshes/a.stl"));
    assert!(!p.is_dir("pk"));
    assert!(p.contains_path("pkg/urdf") && p.is_file("pkg/meshes/a.stl"));
    assert_eq!(p.dirs(), ["pkg", "pkg/meshes", "pkg/urdf"]);
    assert_eq!(p.urdfs(), ["pkg/urdf/r.urdf"]);
    assert_eq!(p.len(), 2);
    assert_eq!(p.total_bytes(), 2);
}

#[test]
fn packages_from_file_lists() {
    let p = MemPackage::from_files(vec![
        ("g.stl".to_string(), b"s".to_vec()),
        ("a/b/f.urdf".to_string(), b"u".to_vec()),
    ])
    .unwrap();
    assert_eq!(p.files(), ["a/b/f.urdf", "g.stl"]);
    assert!(!p.is_empty());
    assert!(MemPackage::new().is_empty());
    assert!(MemPackage::from_files(vec![("../x".to_string(), Vec::new())]).is_err());
    let (bytes, ext) = p.mesh_source("g.stl").unwrap();
    assert_eq!((bytes, ext.as_str()), (b"s".to_vec(), "stl"));
    assert!(p.mesh_source("nope.stl").is_err());
}

#[test]
fn later_inserts_replace_earlier_ones() {
    let mut p = MemPackage::new();
    p.insert("a.txt", b"1".to_vec()).unwrap();
    p.insert("./a.txt", b"22".to_vec()).unwrap();
    assert_eq!(p.len(), 1);
    assert_eq!(p.read("a.txt"), Some(&b"22"[..]));
    assert_eq!(p.total_bytes(), 2);
}

#[test]
fn zip_round_trip() {
    let mut buf = Cursor::new(Vec::new());
    {
        let mut w = zip::ZipWriter::new(&mut buf);
        let o = zip::write::SimpleFileOptions::default();
        w.add_directory("pkg/", o).unwrap();
        w.start_file("pkg/r.urdf", o).unwrap();
        w.write_all(b"<robot/>").unwrap();
        w.start_file("__MACOSX/pkg/._r.urdf", o).unwrap();
        w.write_all(b"junk").unwrap();
        w.finish().unwrap();
    }
    let p = MemPackage::from_zip(buf.get_ref()).unwrap();
    assert_eq!(p.files(), ["pkg/r.urdf"]);
    assert_eq!(p.read("pkg/r.urdf"), Some(&b"<robot/>"[..]));
    assert!(MemPackage::from_zip(b"not a zip").is_err());
}

#[test]
fn sizes_follow_the_files() {
    assert_eq!(MemPackage::new().total_bytes(), 0);
    let files = vec![("a/b".into(), b"x".to_vec()), ("\\a\\.\\b".into(), b"yy".to_vec())];
    let mut p = MemPackage::from_files(files).unwrap();
    assert_eq!((p.len(), p.read("a/b"), p.total_bytes()), (1, Some(&b"yy"[..]), 2));
    p.insert("c", b"zzz".to_vec()).unwrap();
    assert_eq!((p.len(), p.total_bytes()), (2, 5));
}

#[test]
fn reprs_differ_where_strings_do() {
    let strings = ["", "'", "\"", "'\"", "a", "\\x61", "\u{7}", "\\x07", "\n", "\\n", "\u{2028}", "\\u2028", "\u{1d173}"];
    for a in strings {
        let text = py_repr(a);
        let quote = if a.contains('\'') && !a.contains('"') { '"' } else { '\'' };
        assert!(text.starts_with(quote) && text.ends_with(quote));
        let inner: Vec<char> = text[1..text.len() - 1].chars().collect();
        for (i, c) in inner.iter().enumerate() {
            assert!(*c != quote || inner[i - 1] == '\\', "{text}");
        }
        assert_eq!(strings.iter().filter(|b| py_repr(b) == text).count(), 1, "{text}");
    }
}
