//! The text of each directive, as the build system reads it from the build
//! script's output, and the arguments handed to the C compiler.

use vstd::prelude::*;
use crate::emit::{directive_views, DirectiveView, LinkDirective};
use crate::metadata::{define_view, LibraryMetadata, MetadataView};
use crate::text::texts;

verus! {

/// The line that tells the build system of the directive `d`.
pub open spec fn directive_text(d: DirectiveView) -> Seq<char> {
    match d {
        DirectiveView::RawArg(arg) => "cargo:rustc-link-arg="@ + arg,
        DirectiveView::SearchPath(dir) => "cargo:rustc-link-search=native="@ + dir,
        DirectiveView::LinkLibrary { name, dynamic } => if dynamic {
            "cargo:rustc-link-lib="@ + name
        } else {
            "cargo:rustc-link-lib=static="@ + name
        },
    }
}

/// The lines of the directives `ds`, in their order.
pub open spec fn directive_texts(ds: Seq<DirectiveView>) -> Seq<Seq<char>> {
    Seq::new(ds.len(), |i: int| directive_text(ds[i]))
}

/// The line that asks the build system to run the build again when the file
/// or directory at `path` changes.
pub open spec fn rerun_text(path: Seq<char>) -> Seq<char> {
    "cargo:rerun-if-changed="@ + path
}

/// The compiler argument that makes one preprocessor definition.
pub open spec fn define_arg(d: (Seq<char>, Option<Seq<char>>)) -> Seq<char> {
    match d.1 {
        None => "-D"@ + d.0,
        Some(value) => "-D"@ + d.0 + "="@ + value,
    }
}

/// The compiler argument that adds one directory to the header search.
pub open spec fn include_arg(dir: Seq<char>) -> Seq<char> {
    "-I"@ + dir
}

/// The arguments that the C compiler needs to read the library's headers:
/// the definitions of the probe, then its include directories.
pub open spec fn compiler_args(m: MetadataView) -> Seq<Seq<char>> {
    Seq::new(m.defines.len(), |i: int| define_arg(m.defines[i])) + Seq::new(
        m.include_paths.len(),
        |i: int| include_arg(m.include_paths[i]),
    )
}

impl LinkDirective {
    /// The line that tells the build system of this directive.
    pub fn to_line(&self) -> (line: String)
        ensures
            line@ == directive_text(self@),
    {
        match self {
            LinkDirective::RawArg(arg) => {
                let mut line = String::from_str("cargo:rustc-link-arg=");
                line.append(arg.as_str());
                line
            },
            LinkDirective::SearchPath(dir) => {
                let mut line = String::from_str("cargo:rustc-link-search=native=");
                line.append(dir.as_str());
                line
            },
            LinkDirective::LinkLibrary { name, dynamic } => {
                let mut line = if *dynamic {
                    String::from_str("cargo:rustc-link-lib=")
                } else {
                    String::from_str("cargo:rustc-link-lib=static=")
                };
                line.append(name.as_str());
                line
            },
        }
    }
}

/// The lines of the directives `ds`, in their order.
pub fn directive_lines(ds: &Vec<LinkDirective>) -> (lines: Vec<String>)
    ensures
        texts(lines@) == directive_texts(directive_views(ds@)),
{
    let mut lines: Vec<String> = Vec::new();
    let mut i: usize = 0;
    while i < ds.len()
        invariant
            i <= ds@.len(),
            lines@.len() == i,
            forall|j: int| 0 <= j < i ==> (#[trigger] lines@[j])@ == directive_text(ds@[j]@),
        decreases ds@.len() - i,
    {
        lines.push(ds[i].to_line());
        i = i + 1;
    }
    proof {
        assert(texts(lines@) =~= directive_texts(directive_views(ds@)));
    }
    lines
}

/// The line that asks the build system to run the build again when the file
/// or directory at `path` changes.
pub fn rerun_if_changed_line(path: &str) -> (line: String)
    ensures
        line@ == rerun_text(path@),
{
    let mut line = String::from_str("cargo:rerun-if-changed=");
    line.append(path);
    line
}

/// The arguments that the C compiler needs to read the library's headers:
/// `-D` with each definition of the probe, then `-I` with each of its include
/// directories.
pub fn pkgconfig_lib_inc_args(lib: &LibraryMetadata) -> (args: Vec<String>)
    ensures
        texts(args@) == compiler_args(lib@),
{
    let ghost m = lib@;
    let ghost defs = Seq::new(m.defines.len(), |i: int| define_arg(m.defines[i]));
    let ghost incs = Seq::new(m.include_paths.len(), |i: int| include_arg(m.include_paths[i]));
    let mut args: Vec<String> = Vec::new();
    let mut i: usize = 0;
    while i < lib.defines.len()
        invariant
            i <= lib.defines@.len(),
            m == lib@,
            args@.len() == i,
            forall|j: int| 0 <= j < i ==> (#[trigger] args@[j])@ == define_arg(m.defines[j]),
        decreases lib.defines@.len() - i,
    {
        proof {
            assert(m.defines[i as int] == define_view(lib.defines@[i as int]));
        }
        let mut arg = String::from_str("-D");
        arg.append(lib.defines[i].0.as_str());
        match &lib.defines[i].1 {
            Some(value) => {
                arg.append("=");
                arg.append(value.as_str());
            },
            None => {},
        }
        args.push(arg);
        i = i + 1;
    }
    proof {
        assert(texts(args@) =~= defs);
    }
    i = 0;
    while i < lib.include_paths.len()
        invariant
            i <= lib.include_paths@.len(),
            m == lib@,
            defs.len() == lib.defines@.len(),
            args@.len() == defs.len() + i,
            texts(args@).subrange(0, defs.len() as int) == defs,
            forall|j: int|
                0 <= j < i ==> (#[trigger] args@[defs.len() + j])@ == include_arg(
                    m.include_paths[j],
                ),
        decreases lib.include_paths@.len() - i,
    {
        let ghost prev = texts(args@);
        let mut arg = String::from_str("-I");
        arg.append(lib.include_paths[i].as_str());
        args.push(arg);
        proof {
            assert(texts(args@).subrange(0, defs.len() as int) =~= prev.subrange(
                0,
                defs.len() as int,
            ));
        }
        i = i + 1;
    }
    proof {
        let head = texts(args@).subrange(0, defs.len() as int);
        assert(incs.len() == lib.include_paths@.len());
        assert forall|k: int| 0 <= k < texts(args@).len() implies texts(args@)[k] == (head
            + incs)[k] by {
            if k >= defs.len() {
                assert(args@[defs.len() + (k - defs.len())]@ == include_arg(
                    m.include_paths[k - defs.len()],
                ));
            }
        }
        assert(texts(args@) =~= head + incs);
    }
    args
}

} // verus!
