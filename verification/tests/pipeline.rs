use rdkit_ffi_build::headers::TreeEntry;
use rdkit_ffi_build::metadata::{LibraryMetadata, LinkFile};
use rdkit_ffi_build::pipeline::{plan_build, BuildConfig};

fn strings(items: &[&str]) -> Vec<String> {
    items.iter().map(|s| s.to_string()).collect()
}

fn config() -> BuildConfig {
    BuildConfig {
        self_name: "rdkit-cffi-ll".to_string(),
        include_root: "../rdkit-cffi-ll/prefix/include".to_string(),
        lib_dir: "../rdkit-cffi-ll/prefix/lib".to_string(),
    }
}

fn probed() -> LibraryMetadata {
    LibraryMetadata {
        defines: vec![("RDK_BUILD".to_string(), None)],
        include_paths: strings(&["../rdkit-cffi-ll/prefix/include"]),
        link_paths: strings(&["/usr/lib"]),
        link_files: vec![LinkFile {
            parent: Some("/usr/lib".to_string()),
            file_name: Some("librdkit-cffi-ll.a".to_string()),
        }],
        libs: strings(&["rdkit-cffi-ll", "boost_iostreams", "stdc++"]),
        ld_args: vec![strings(&["-pthread"])],
    }
}

fn walked() -> Vec<TreeEntry> {
    vec![
        TreeEntry { path: "../rdkit-cffi-ll/prefix/include".to_string(), is_file: false },
        TreeEntry { path: "../rdkit-cffi-ll/prefix/include/mol.h".to_string(), is_file: true },
        TreeEntry { path: "../rdkit-cffi-ll/prefix/include/ops".to_string(), is_file: false },
        TreeEntry { path: "../rdkit-cffi-ll/prefix/include/ops/remove_hs.h".to_string(), is_file: true },
        TreeEntry { path: "../rdkit-cffi-ll/prefix/include/atom.h".to_string(), is_file: true },
        TreeEntry { path: "../rdkit-cffi-ll/prefix/include/notes.txt".to_string(), is_file: true },
    ]
}

#[test]
fn whole_build_from_probe_and_tree() {
    let plan = plan_build(&config(), &probed(), &walked()).unwrap();
    assert_eq!(
        plan.output_lines(&config()),
        strings(&[
            "cargo:rustc-link-arg=-pthread",
            "cargo:rustc-link-search=native=/usr/lib",
            "cargo:rustc-link-lib=static=rdkit-cffi-ll",
            "cargo:rustc-link-lib=stdc++",
            "cargo:rustc-link-lib=static=boost_iostreams",
            "cargo:rustc-link-lib=static=boost_serialization",
            "cargo:rustc-link-lib=static=boost_system",
            "cargo:rerun-if-changed=../rdkit-cffi-ll/prefix/include/atom.h",
            "cargo:rerun-if-changed=../rdkit-cffi-ll/prefix/include/mol.h",
            "cargo:rerun-if-changed=../rdkit-cffi-ll/prefix/include/ops/remove_hs.h",
            "cargo:rerun-if-changed=../rdkit-cffi-ll/prefix/lib",
        ])
    );
    assert_eq!(
        plan.manifest.umbrella_header(),
        "#include <atom.h>\n#include <mol.h>\n#include <ops/remove_hs.h>\n"
    );
    assert_eq!(
        plan.compiler_args,
        strings(&["-DRDK_BUILD", "-I../rdkit-cffi-ll/prefix/include"])
    );
}

#[test]
fn build_run_again_gives_the_same_output() {
    let first = plan_build(&config(), &probed(), &walked()).unwrap();
    let mut other_order = walked();
    other_order.reverse();
    let second = plan_build(&config(), &probed(), &other_order).unwrap();
    assert_eq!(first.output_lines(&config()), second.output_lines(&config()));
    assert_eq!(first.manifest.umbrella_header(), second.manifest.umbrella_header());
    assert_eq!(first.compiler_args, second.compiler_args);
}

#[test]
fn header_outside_the_tree_stops_the_plan() {
    let mut entries = walked();
    entries.push(TreeEntry { path: "/usr/include/stdio.h".to_string(), is_file: true });
    assert!(plan_build(&config(), &probed(), &entries).is_none());
}
