use rdkit_ffi_build::classify::ClassifiedLibrary;
use rdkit_ffi_build::emit::{
    classify_link_files, classify_named_libraries, drop_problem_libraries, emit_link_directives,
    known_problem_libraries, link_libraries, link_search_dirs, raw_link_args, stage_libraries,
    unique_by_name, LinkDirective,
};
use rdkit_ffi_build::dedup::{contains_string, unique_strings};
use rdkit_ffi_build::metadata::{LibraryMetadata, LinkFile};
use rdkit_ffi_build::render::{directive_lines, pkgconfig_lib_inc_args, rerun_if_changed_line};

fn strings(items: &[&str]) -> Vec<String> {
    items.iter().map(|s| s.to_string()).collect()
}

fn file(parent: Option<&str>, name: Option<&str>) -> LinkFile {
    LinkFile { parent: parent.map(|s| s.to_string()), file_name: name.map(|s| s.to_string()) }
}

fn metadata(link_paths: &[&str], link_files: Vec<LinkFile>, libs: &[&str]) -> LibraryMetadata {
    LibraryMetadata {
        defines: Vec::new(),
        include_paths: Vec::new(),
        link_paths: strings(link_paths),
        link_files,
        libs: strings(libs),
        ld_args: Vec::new(),
    }
}

fn pairs(libraries: &[ClassifiedLibrary]) -> Vec<(String, bool)> {
    libraries.iter().map(|l| (l.name.clone(), l.dynamic)).collect()
}

fn shown(directives: &[LinkDirective]) -> Vec<String> {
    directives.iter().map(|d| d.to_line()).collect()
}

#[test]
fn probe_of_the_library_under_build() {
    let meta = metadata(
        &[],
        vec![file(Some("/usr/lib"), Some("librdkit-cffi-ll.a"))],
        &["rdkit-cffi-ll", "boost_iostreams"],
    );
    let out = emit_link_directives(&meta, "rdkit-cffi-ll");
    assert_eq!(
        shown(&out),
        strings(&[
            "cargo:rustc-link-search=native=/usr/lib",
            "cargo:rustc-link-lib=static=rdkit-cffi-ll",
            "cargo:rustc-link-lib=static=boost_iostreams",
            "cargo:rustc-link-lib=static=boost_serialization",
            "cargo:rustc-link-lib=static=boost_system",
        ])
    );
    assert!(!shown(&out).contains(&"cargo:rustc-link-lib=boost_iostreams".to_string()));
    assert!(!shown(&out).contains(&"cargo:rustc-link-lib=rdkit-cffi-ll".to_string()));
    assert_eq!(
        pairs(&link_libraries(&meta, "rdkit-cffi-ll")),
        vec![
            ("rdkit-cffi-ll".to_string(), false),
            ("boost_iostreams".to_string(), false),
            ("boost_serialization".to_string(), false),
            ("boost_system".to_string(), false),
        ]
    );
}

#[test]
fn staged_libraries_before_repeats_are_removed() {
    let meta = metadata(
        &[],
        vec![file(Some("/usr/lib"), Some("librdkit-cffi-ll.a"))],
        &["rdkit-cffi-ll", "boost_iostreams"],
    );
    assert_eq!(
        pairs(&stage_libraries(&meta, "rdkit-cffi-ll")),
        vec![
            ("rdkit-cffi-ll".to_string(), false),
            ("rdkit-cffi-ll".to_string(), false),
            ("boost_iostreams".to_string(), false),
            ("boost_serialization".to_string(), false),
            ("boost_system".to_string(), false),
        ]
    );
}

#[test]
fn empty_probe_still_links_the_problem_libraries() {
    let meta = metadata(&[], Vec::new(), &[]);
    let out = emit_link_directives(&meta, "rdkit-cffi-ll");
    assert_eq!(
        shown(&out),
        strings(&[
            "cargo:rustc-link-lib=static=boost_iostreams",
            "cargo:rustc-link-lib=static=boost_serialization",
            "cargo:rustc-link-lib=static=boost_system",
        ])
    );
}

#[test]
fn raw_arguments_come_first_in_probe_order() {
    let mut meta = metadata(&["/opt/lib"], Vec::new(), &["m"]);
    meta.ld_args = vec![strings(&["-Wl,--as-needed", "-pthread"]), Vec::new(), strings(&["-s"])];
    assert_eq!(raw_link_args(&meta), strings(&["-Wl,--as-needed", "-pthread", "-s"]));
    let out = emit_link_directives(&meta, "self");
    assert_eq!(
        shown(&out),
        strings(&[
            "cargo:rustc-link-arg=-Wl,--as-needed",
            "cargo:rustc-link-arg=-pthread",
            "cargo:rustc-link-arg=-s",
            "cargo:rustc-link-search=native=/opt/lib",
            "cargo:rustc-link-lib=m",
            "cargo:rustc-link-lib=static=boost_iostreams",
            "cargo:rustc-link-lib=static=boost_serialization",
            "cargo:rustc-link-lib=static=boost_system",
        ])
    );
}

#[test]
fn search_directories_are_listed_once() {
    let meta = metadata(
        &["/a", "/b", "/a"],
        vec![
            file(Some("/b"), Some("libx.a")),
            file(None, Some("liby.so")),
            file(Some("/c"), None),
            file(Some("/a"), Some("libz.so")),
            file(Some("/c"), Some("libw.so")),
        ],
        &[],
    );
    assert_eq!(link_search_dirs(&meta), strings(&["/a", "/b", "/c"]));
}

#[test]
fn link_files_are_classified_by_file_name() {
    let meta = metadata(
        &[],
        vec![
            file(Some("/b"), Some("libx.a")),
            file(None, Some("liby.so")),
            file(Some("/c"), None),
            file(Some("/a"), Some("libz.so.1")),
            file(Some("/a"), Some("w.dll.a")),
        ],
        &[],
    );
    assert_eq!(
        pairs(&classify_link_files(&meta)),
        vec![
            ("x".to_string(), false),
            ("y".to_string(), true),
            ("z.so.".to_string(), true),
            ("w".to_string(), false),
        ]
    );
}

#[test]
fn named_libraries_are_dynamic_but_the_one_under_build() {
    let meta = metadata(&[], Vec::new(), &["a", "me", "b", "me"]);
    assert_eq!(
        pairs(&classify_named_libraries(&meta, "me")),
        vec![
            ("a".to_string(), true),
            ("me".to_string(), false),
            ("b".to_string(), true),
            ("me".to_string(), false),
        ]
    );
    assert_eq!(
        pairs(&classify_named_libraries(&meta, "other")),
        vec![
            ("a".to_string(), true),
            ("me".to_string(), true),
            ("b".to_string(), true),
            ("me".to_string(), true),
        ]
    );
}

#[test]
fn first_entry_of_a_name_decides_the_kind() {
    let meta = metadata(&[], vec![file(Some("/l"), Some("libfoo.a"))], &["foo", "bar", "bar"]);
    assert_eq!(
        pairs(&link_libraries(&meta, "me")),
        vec![
            ("foo".to_string(), false),
            ("bar".to_string(), true),
            ("boost_iostreams".to_string(), false),
            ("boost_serialization".to_string(), false),
            ("boost_system".to_string(), false),
        ]
    );
    let meta = metadata(&[], vec![file(Some("/l"), Some("libme.so"))], &["me"]);
    assert_eq!(
        pairs(&link_libraries(&meta, "me"))[0],
        ("me".to_string(), true)
    );
}

#[test]
fn problem_libraries_are_static_whatever_the_probe_says() {
    let meta = metadata(
        &[],
        vec![
            file(Some("/l"), Some("libboost_system.so")),
            file(Some("/l"), Some("libboost_serialization.dylib")),
        ],
        &["boost_iostreams", "boost_system"],
    );
    let libraries = pairs(&link_libraries(&meta, "me"));
    assert_eq!(
        libraries,
        vec![
            ("boost_iostreams".to_string(), false),
            ("boost_serialization".to_string(), false),
            ("boost_system".to_string(), false),
        ]
    );
    let out = shown(&emit_link_directives(&meta, "me"));
    for name in ["boost_iostreams", "boost_serialization", "boost_system"] {
        let line = format!("cargo:rustc-link-lib=static={}", name);
        assert_eq!(out.iter().filter(|l| **l == line).count(), 1);
        let dynamic = format!("cargo:rustc-link-lib={}", name);
        assert!(!out.contains(&dynamic));
    }
}

#[test]
fn no_name_is_linked_twice() {
    let meta = metadata(
        &[],
        vec![
            file(Some("/l"), Some("libfoo.a")),
            file(Some("/l"), Some("libfoo.so")),
            file(Some("/l"), Some("libbar.so")),
        ],
        &["foo", "bar", "baz", "baz", "boost_system"],
    );
    let libraries = pairs(&link_libraries(&meta, "baz"));
    let mut names: Vec<String> = libraries.iter().map(|l| l.0.clone()).collect();
    let count = names.len();
    names.sort();
    names.dedup();
    assert_eq!(names.len(), count);
    assert_eq!(
        libraries,
        vec![
            ("foo".to_string(), false),
            ("bar".to_string(), true),
            ("baz".to_string(), false),
            ("boost_iostreams".to_string(), false),
            ("boost_serialization".to_string(), false),
            ("boost_system".to_string(), false),
        ]
    );
}

fn linked_names(directives: &[LinkDirective]) -> Vec<String> {
    let mut names: Vec<String> = Vec::new();
    for d in directives {
        if let LinkDirective::LinkLibrary { name, .. } = d {
            names.push(name.clone());
        }
    }
    names
}

#[test]
fn library_under_build_named_twice_is_linked_once() {
    let meta = metadata(&[], vec![file(Some("/l"), Some("libme.a"))], &["me", "me"]);
    let out = emit_link_directives(&meta, "me");
    assert_eq!(
        linked_names(&out),
        strings(&["me", "boost_iostreams", "boost_serialization", "boost_system"])
    );
}

#[test]
fn another_named_library_is_linked_once_and_dynamically() {
    let meta = metadata(&[], Vec::new(), &["z"]);
    let out = emit_link_directives(&meta, "x");
    assert_eq!(
        shown(&out),
        strings(&[
            "cargo:rustc-link-lib=z",
            "cargo:rustc-link-lib=static=boost_iostreams",
            "cargo:rustc-link-lib=static=boost_serialization",
            "cargo:rustc-link-lib=static=boost_system",
        ])
    );
}

#[test]
fn no_directive_names_a_library_twice() {
    let meta = metadata(
        &["/l"],
        vec![
            file(Some("/l"), Some("libfoo.a")),
            file(Some("/l"), Some("libfoo.so")),
            file(Some("/l"), Some("libboost_system.so.1.83.0")),
            file(Some("/l"), Some("libboost_system.so")),
        ],
        &["foo", "bar", "bar", "me", "boost_iostreams", "boost_system"],
    );
    let out = emit_link_directives(&meta, "me");
    let names = linked_names(&out);
    let mut sorted = names.clone();
    sorted.sort();
    sorted.dedup();
    assert_eq!(sorted.len(), names.len());
    assert_eq!(
        shown(&out),
        strings(&[
            "cargo:rustc-link-search=native=/l",
            "cargo:rustc-link-lib=static=foo",
            "cargo:rustc-link-lib=boost_system.so.1.83.",
            "cargo:rustc-link-lib=bar",
            "cargo:rustc-link-lib=static=me",
            "cargo:rustc-link-lib=static=boost_iostreams",
            "cargo:rustc-link-lib=static=boost_serialization",
            "cargo:rustc-link-lib=static=boost_system",
        ])
    );
}

#[test]
fn problem_library_table() {
    assert_eq!(
        known_problem_libraries(),
        strings(&["boost_iostreams", "boost_serialization", "boost_system"])
    );
}

#[test]
fn problem_libraries_are_dropped_from_what_was_found() {
    let staged = vec![
        ClassifiedLibrary { name: "a".to_string(), dynamic: true },
        ClassifiedLibrary { name: "boost_system".to_string(), dynamic: true },
        ClassifiedLibrary { name: "boost_systems".to_string(), dynamic: false },
        ClassifiedLibrary { name: "boost_iostreams".to_string(), dynamic: false },
        ClassifiedLibrary { name: "a".to_string(), dynamic: false },
    ];
    assert_eq!(
        pairs(&drop_problem_libraries(&staged)),
        vec![
            ("a".to_string(), true),
            ("boost_systems".to_string(), false),
            ("a".to_string(), false),
        ]
    );
    assert_eq!(pairs(&unique_by_name(&staged)).len(), 4);
    assert_eq!(pairs(&unique_by_name(&staged))[0], ("a".to_string(), true));
}

#[test]
fn unique_strings_keeps_first_occurrences() {
    assert_eq!(unique_strings(&strings(&["b", "a", "b", "c", "a", "b"])), strings(&["b", "a", "c"]));
    assert_eq!(unique_strings(&strings(&[])), strings(&[]));
    assert_eq!(unique_strings(&strings(&["x", "x", "x"])), strings(&["x"]));
    assert_eq!(unique_strings(&strings(&["x", "X", "x "])), strings(&["x", "X", "x "]));
    assert!(contains_string(&strings(&["a", "b"]), &"b".to_string()));
    assert!(!contains_string(&strings(&["a", "b"]), &"c".to_string()));
}

#[test]
fn line_of_each_directive() {
    let ds = vec![
        LinkDirective::RawArg("-pthread".to_string()),
        LinkDirective::SearchPath("/usr/lib".to_string()),
        LinkDirective::LinkLibrary { name: "z".to_string(), dynamic: true },
        LinkDirective::LinkLibrary { name: "z".to_string(), dynamic: false },
    ];
    assert_eq!(
        directive_lines(&ds),
        strings(&[
            "cargo:rustc-link-arg=-pthread",
            "cargo:rustc-link-search=native=/usr/lib",
            "cargo:rustc-link-lib=z",
            "cargo:rustc-link-lib=static=z",
        ])
    );
    assert_eq!(rerun_if_changed_line("a/b.h"), "cargo:rerun-if-changed=a/b.h");
}

#[test]
fn compiler_arguments_from_definitions_and_include_paths() {
    let mut meta = metadata(&[], Vec::new(), &[]);
    meta.defines = vec![
        ("NDEBUG".to_string(), None),
        ("VERSION".to_string(), Some("3".to_string())),
        ("EMPTY".to_string(), Some(String::new())),
    ];
    meta.include_paths = strings(&["/usr/include", "../prefix/include"]);
    assert_eq!(
        pkgconfig_lib_inc_args(&meta),
        strings(&["-DNDEBUG", "-DVERSION=3", "-DEMPTY=", "-I/usr/include", "-I../prefix/include"])
    );
    let meta = metadata(&[], Vec::new(), &[]);
    assert_eq!(pkgconfig_lib_inc_args(&meta), strings(&[]));
}
