use rdkit_ffi_build::headers::{is_header_path, relative_path, select_headers, HeaderManifest, TreeEntry};
use rdkit_ffi_build::order::{chars_less, sort_strings, text_less};
use rdkit_ffi_build::text::{chars_of, window_has_prefix, window_has_suffix};

fn strings(items: &[&str]) -> Vec<String> {
    items.iter().map(|s| s.to_string()).collect()
}

fn entry(path: &str, is_file: bool) -> TreeEntry {
    TreeEntry { path: path.to_string(), is_file }
}

fn tree() -> Vec<TreeEntry> {
    vec![
        entry("inc", false),
        entry("inc/z.h", true),
        entry("inc/sub", false),
        entry("inc/sub/b.h", true),
        entry("inc/sub/a.hpp", true),
        entry("inc/dir.h", false),
        entry("inc/a.h", true),
        entry("inc/sub/a.h", true),
        entry("inc/README", true),
        entry("inc/a-b.h", true),
    ]
}

#[test]
fn headers_are_regular_files_that_end_in_dot_h() {
    assert_eq!(
        select_headers(&tree()),
        strings(&["inc/z.h", "inc/sub/b.h", "inc/a.h", "inc/sub/a.h", "inc/a-b.h"])
    );
    assert!(is_header_path("a.h"));
    assert!(is_header_path(".h"));
    assert!(is_header_path("x/y.h.h"));
    assert!(!is_header_path("a.hpp"));
    assert!(!is_header_path("a.H"));
    assert!(!is_header_path("h"));
    assert!(!is_header_path(""));
}

#[test]
fn manifest_is_sorted_and_relative() {
    let m = HeaderManifest::collect("inc", &tree()).unwrap();
    assert_eq!(m.root, "inc");
    assert_eq!(
        m.paths,
        strings(&["inc/a-b.h", "inc/a.h", "inc/sub/a.h", "inc/sub/b.h", "inc/z.h"])
    );
    assert_eq!(m.relative_paths, strings(&["a-b.h", "a.h", "sub/a.h", "sub/b.h", "z.h"]));
}

#[test]
fn umbrella_header_has_one_line_for_each_header() {
    let m = HeaderManifest::collect("inc", &tree()).unwrap();
    assert_eq!(
        m.umbrella_header(),
        "#include <a-b.h>\n#include <a.h>\n#include <sub/a.h>\n#include <sub/b.h>\n#include <z.h>\n"
    );
    let none = HeaderManifest::collect("inc", &Vec::new()).unwrap();
    assert_eq!(none.umbrella_header(), "");
    assert!(none.paths.is_empty());
}

#[test]
fn include_lines_ascend_strictly() {
    let m = HeaderManifest::collect("inc", &tree()).unwrap();
    for pair in m.relative_paths.windows(2) {
        assert!(pair[0] < pair[1]);
    }
}

#[test]
fn order_of_the_walk_does_not_matter() {
    let mut reversed = tree();
    reversed.reverse();
    let a = HeaderManifest::collect("inc", &tree()).unwrap();
    let b = HeaderManifest::collect("inc", &reversed).unwrap();
    assert_eq!(a.paths, b.paths);
    assert_eq!(a.relative_paths, b.relative_paths);
    assert_eq!(a.umbrella_header(), b.umbrella_header());
    assert_eq!(a.rerun_lines("lib"), b.rerun_lines("lib"));
}

#[test]
fn rerun_lines_name_each_header_and_the_library_directory() {
    let m = HeaderManifest::collect("inc", &tree()).unwrap();
    assert_eq!(
        m.rerun_lines("../prefix/lib"),
        strings(&[
            "cargo:rerun-if-changed=inc/a-b.h",
            "cargo:rerun-if-changed=inc/a.h",
            "cargo:rerun-if-changed=inc/sub/a.h",
            "cargo:rerun-if-changed=inc/sub/b.h",
            "cargo:rerun-if-changed=inc/z.h",
            "cargo:rerun-if-changed=../prefix/lib",
        ])
    );
}

#[test]
fn header_outside_the_root_gives_no_manifest() {
    let entries = vec![entry("inc/a.h", true), entry("other/b.h", true)];
    assert!(HeaderManifest::collect("inc", &entries).is_none());
    let entries = vec![entry("inc/a.h", true), entry("include/b.h", true)];
    assert!(HeaderManifest::collect("inc", &entries).is_none());
    let entries = vec![entry("inc/a.h", true), entry("other/b.h", false), entry("other/c", true)];
    assert!(HeaderManifest::collect("inc", &entries).is_some());
}

#[test]
fn relative_path_below_a_root() {
    assert_eq!(relative_path("inc/a.h", "inc"), Some("a.h"));
    assert_eq!(relative_path("inc/a.h", "inc/"), Some("a.h"));
    assert_eq!(relative_path("inc/sub/a.h", "inc"), Some("sub/a.h"));
    assert_eq!(relative_path("../p/include/x/y.h", "../p/include"), Some("x/y.h"));
    assert_eq!(relative_path("a.h", ""), Some("a.h"));
    assert_eq!(relative_path("/a.h", "/"), Some("a.h"));
    assert_eq!(relative_path("inc/", "inc"), Some(""));
    assert_eq!(relative_path("inc", "inc"), None);
    assert_eq!(relative_path("include/a.h", "inc"), None);
    assert_eq!(relative_path("a.h", "inc"), None);
    assert_eq!(relative_path("é/ü.h", "é"), Some("ü.h"));
}

#[test]
fn repeated_path_is_kept_as_often() {
    let entries = vec![entry("r/b.h", true), entry("r/a.h", true), entry("r/b.h", true)];
    let m = HeaderManifest::collect("r", &entries).unwrap();
    assert_eq!(m.relative_paths, strings(&["a.h", "b.h", "b.h"]));
}

#[test]
fn sorting_agrees_with_the_order_of_strings() {
    let items = strings(&[
        "b", "a", "", "ab", "a/b", "a-b", "B", "a.h", "a.h.h", "é", "z", "a", "日本", "aa", "~",
    ]);
    let mut expected = items.clone();
    expected.sort();
    assert_eq!(sort_strings(&items), expected);
    assert_eq!(sort_strings(&Vec::new()), Vec::<String>::new());
    for a in &items {
        for b in &items {
            assert_eq!(text_less(a, b), a < b);
            assert_eq!(chars_less(&chars_of(a), &chars_of(b)), a < b);
        }
    }
}

#[test]
fn lexicographic_order_on_chosen_pairs() {
    assert!(text_less("", "a"));
    assert!(!text_less("a", ""));
    assert!(!text_less("", ""));
    assert!(text_less("a", "ab"));
    assert!(text_less("a-b", "a/b"));
    assert!(text_less("ab", "b"));
    assert!(!text_less("b", "ab"));
    assert!(!text_less("same", "same"));
}

#[test]
fn characters_and_windows() {
    let v = chars_of("libfoo.a");
    assert_eq!(v, vec!['l', 'i', 'b', 'f', 'o', 'o', '.', 'a']);
    assert_eq!(chars_of("é日"), vec!['é', '日']);
    assert_eq!(chars_of(""), Vec::<char>::new());
    assert!(window_has_prefix(&v, 0, 8, &chars_of("lib")));
    assert!(!window_has_prefix(&v, 1, 8, &chars_of("lib")));
    assert!(window_has_prefix(&v, 3, 8, &chars_of("foo")));
    assert!(window_has_prefix(&v, 3, 3, &chars_of("")));
    assert!(!window_has_prefix(&v, 0, 2, &chars_of("lib")));
    assert!(window_has_suffix(&v, 0, 8, &chars_of(".a")));
    assert!(!window_has_suffix(&v, 0, 7, &chars_of(".a")));
    assert!(window_has_suffix(&v, 0, 6, &chars_of("foo")));
    assert!(!window_has_suffix(&v, 4, 6, &chars_of("foo")));
    assert!(window_has_suffix(&v, 2, 2, &chars_of("")));
}
