//! What a package-metadata probe reports of one native library, as plain
//! values.

use vstd::prelude::*;
use crate::text::texts;

verus! {

/// A link artifact that the probe reported by its path: the directory that
/// holds the file and the file's name, each where the path has one.
#[derive(Debug)]
pub struct LinkFile {
    pub parent: Option<String>,
    pub file_name: Option<String>,
}

/// The model of a [`LinkFile`].
pub struct LinkFileView {
    pub parent: Option<Seq<char>>,
    pub file_name: Option<Seq<char>>,
}

/// The text of a string that may be missing.
pub open spec fn optional_text(s: Option<String>) -> Option<Seq<char>> {
    match s {
        Some(s) => Some(s@),
        None => None,
    }
}

impl View for LinkFile {
    type V = LinkFileView;

    open spec fn view(&self) -> LinkFileView {
        LinkFileView {
            parent: optional_text(self.parent),
            file_name: optional_text(self.file_name),
        }
    }
}

/// The compile and link requirements of one probed package.
#[derive(Debug)]
pub struct LibraryMetadata {
    /// Preprocessor definitions, each a name with or without a value, in
    /// the order in which they are to be handed to the compiler. A name may
    /// stand more than once: each entry gives one argument.
    pub defines: Vec<(String, Option<String>)>,
    /// Directories to search for headers.
    pub include_paths: Vec<String>,
    /// Directories to search for libraries.
    pub link_paths: Vec<String>,
    /// Link artifacts given by path.
    pub link_files: Vec<LinkFile>,
    /// Libraries given by bare name.
    pub libs: Vec<String>,
    /// Groups of arguments to hand to the linker as they are.
    pub ld_args: Vec<Vec<String>>,
}

/// The model of a [`LibraryMetadata`].
pub struct MetadataView {
    pub defines: Seq<(Seq<char>, Option<Seq<char>>)>,
    pub include_paths: Seq<Seq<char>>,
    pub link_paths: Seq<Seq<char>>,
    pub link_files: Seq<LinkFileView>,
    pub libs: Seq<Seq<char>>,
    pub ld_args: Seq<Seq<Seq<char>>>,
}

/// The model of one preprocessor definition.
pub open spec fn define_view(d: (String, Option<String>)) -> (Seq<char>, Option<Seq<char>>) {
    (d.0@, optional_text(d.1))
}

/// The models of a sequence of preprocessor definitions.
pub open spec fn define_views(v: Seq<(String, Option<String>)>) -> Seq<
    (Seq<char>, Option<Seq<char>>),
> {
    v.map_values(|d: (String, Option<String>)| define_view(d))
}

/// The models of a sequence of link artifacts.
pub open spec fn link_file_views(v: Seq<LinkFile>) -> Seq<LinkFileView> {
    v.map_values(|f: LinkFile| f@)
}

/// The texts of a sequence of groups of strings.
pub open spec fn group_texts(v: Seq<Vec<String>>) -> Seq<Seq<Seq<char>>> {
    v.map_values(|g: Vec<String>| texts(g@))
}

impl View for LibraryMetadata {
    type V = MetadataView;

    open spec fn view(&self) -> MetadataView {
        MetadataView {
            defines: define_views(self.defines@),
            include_paths: texts(self.include_paths@),
            link_paths: texts(self.link_paths@),
            link_files: link_file_views(self.link_files@),
            libs: texts(self.libs@),
            ld_args: group_texts(self.ld_args@),
        }
    }
}

} // verus!
