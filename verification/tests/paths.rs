use std::path::{Path, PathBuf};

use kairo_hub::listing::{find_existing, sort_paths};
use kairo_hub::path::{
    absolute, check_separator, directory_path, extension, file_name, inside, join_path,
    parent_path, path_less, same_path, temporary_path, validate_relative_path,
};
use kairo_hub::text::{
    blank, contains, decimal_text, encoded_length, find, join, lines_of, parse_unsigned, split_on,
    to_ascii_lowercase, trim,
};

const PATHS: [&str; 28] = [
    "", ".", "..", "/", "//", "/.", "/..", "a", "a/", "a/.", "a/..", "./a", "./", "a//b", "a/./b",
    "a/b/", "/a", "/a/b", "/a/b.txt", "a.b.c", ".hidden", "a/.hidden", "b.", "..a", "a/b/../c",
    "x/y.tar.gz/", "A", "\u{e9}/\u{1f3ae}.glb",
];

#[test]
fn parts_of_a_path_are_those_of_the_standard_library() {
    for p in PATHS {
        let path = Path::new(p);
        assert_eq!(absolute(p), path.is_absolute(), "{p}");
        assert_eq!(
            file_name(p),
            path.file_name().map(|n| n.to_str().unwrap().to_string()),
            "{p}"
        );
        assert_eq!(
            extension(p),
            path.extension().map(|n| n.to_str().unwrap().to_string()),
            "{p}"
        );
        assert_eq!(
            parent_path(p),
            path.parent().map(|n| n.to_str().unwrap().to_string()),
            "{p}"
        );
        assert_eq!(
            directory_path(p),
            path.parent().unwrap_or(Path::new(".")).to_str().unwrap(),
            "{p}"
        );
    }
}

#[test]
fn pairs_of_paths_relate_as_in_the_standard_library() {
    for a in PATHS {
        for b in PATHS {
            let (x, y) = (Path::new(a), Path::new(b));
            assert_eq!(same_path(a, b), x == y, "{a} {b}");
            assert_eq!(inside(a, b), x.starts_with(y), "{a} {b}");
            assert_eq!(path_less(a, b), x < y, "{a} {b}");
            assert_eq!(join_path(a, b), x.join(y).to_str().unwrap(), "{a} {b}");
        }
    }
}

#[test]
fn a_file_is_first_written_beside_itself() {
    assert_eq!(temporary_path("a/b.kscene"), "a/b.kscene.tmp");
    assert_eq!(temporary_path("a/b"), "a/b.file.tmp");
    assert_eq!(temporary_path("/x/y.tar.gz"), "/x/y.tar.gz.tmp");
    assert_eq!(temporary_path(".git"), ".git.file.tmp");
    for p in ["a/b.kscene", "/x/y.tar.gz", "b", "/b.c"] {
        let path = Path::new(p);
        let end = format!("{}.tmp", extension(p).unwrap_or("file".to_string()));
        assert_eq!(temporary_path(p), path.with_extension(end).to_str().unwrap());
        assert_eq!(parent_path(&temporary_path(p)), parent_path(p));
        assert!(!same_path(&temporary_path(p), p));
    }
}

#[test]
fn relative_paths_are_checked() {
    for good in ["a", "a/b", "./a", "a/./b", "...", "a..b"] {
        assert!(validate_relative_path(good, "field").is_ok(), "{good}");
        assert!(inside(&join_path("/base", good), "/base"), "{good}");
    }
    assert_eq!(
        validate_relative_path("", "field").unwrap_err(),
        "field must be a non-empty project-relative path"
    );
    assert_eq!(
        validate_relative_path("/a", "field").unwrap_err(),
        "field must be a non-empty project-relative path"
    );
    assert_eq!(
        validate_relative_path("a/../b", "field").unwrap_err(),
        "field cannot escape the project root"
    );
}

#[test]
fn paths_are_sorted_as_in_the_standard_library() {
    let list: Vec<String> = PATHS.iter().map(|p| p.to_string()).collect();
    let mut expected: Vec<PathBuf> = PATHS.iter().map(PathBuf::from).collect();
    expected.sort();
    let sorted = sort_paths(&list);
    assert_eq!(sorted.len(), expected.len());
    for i in 0..sorted.len() {
        assert_eq!(sorted[i], expected[i].to_str().unwrap());
    }
}

#[test]
fn the_first_existing_path_is_found() {
    let paths = vec!["a".to_string(), "b".to_string(), "c".to_string()];
    let existing = vec!["c".to_string(), "b".to_string()];
    assert_eq!(find_existing(&paths, &existing), Some("b".to_string()));
    assert_eq!(find_existing(&paths, &vec![]), None);
}

#[test]
fn texts_are_taken_apart_as_in_the_standard_library() {
    for s in ["", "a", " a b ", "\t\u{a0}x\u{3000}", "\n", "  ", "a\r\nb\n\nc", "a\r", "\r\n", "x\ny"] {
        assert_eq!(trim(s), s.trim(), "{s:?}");
        assert_eq!(blank(s), s.trim().is_empty());
        assert_eq!(lines_of(s), s.lines().collect::<Vec<_>>(), "{s:?}");
        assert_eq!(split_on(s, ' '), s.split(' ').collect::<Vec<_>>(), "{s:?}");
        assert_eq!(encoded_length(s), s.len());
        assert_eq!(to_ascii_lowercase(s), s.to_ascii_lowercase());
    }
    assert_eq!(to_ascii_lowercase("A\u{c9}zGLTF"), "a\u{c9}zgltf");
    assert_eq!(find("ab\u{e9}bc", "bc"), Some(3));
    assert_eq!(find("abc", ""), Some(0));
    assert!(contains("abc", "bc") && !contains("abc", "cb"));
    assert_eq!(
        join(&vec!["a".to_string(), "b".to_string()], "; "),
        "a; b"
    );
    assert_eq!(join(&vec![], "; "), "");
}

#[test]
fn numbers_are_read_and_written_as_in_the_standard_library() {
    for n in [0, 9, 10, 101, 536870912, u64::MAX] {
        assert_eq!(decimal_text(n), n.to_string());
    }
    for s in [
        "", "+", "-", "0", "+7", "-0", "007", "18446744073709551615", "18446744073709551616", "1a",
        " 1", "\u{661}", "++1",
    ] {
        assert_eq!(parse_unsigned(s, u64::MAX), s.parse::<u64>().ok(), "{s}");
    }
    assert_eq!(parse_unsigned("256", 255), None);
    assert_eq!(parse_unsigned("255", 255), Some(255));
}

#[test]
fn paths_are_read_only_where_a_slash_separates_names() {
    assert!(check_separator('/').is_ok());
    assert_eq!(
        check_separator('\\').unwrap_err(),
        "KairoHub reads paths whose names are separated by '/', not by '\\'"
    );
}
