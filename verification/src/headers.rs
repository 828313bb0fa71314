//! Gathering the headers of a directory tree into one umbrella header.

use vstd::prelude::*;
use crate::order::{
    is_sorted, is_strictly_sorted, lex_lt, lex_lt_common_prefix, sort_strings,
    sorted_distinct_is_strict,
    sorted_is_unique,
};
use crate::render::{rerun_if_changed_line, rerun_text};
use crate::text::{chars_of, has_prefix, has_suffix, texts, window_has_prefix, window_has_suffix};

verus! {

/// An entry found while walking a directory tree: its path, and whether it
/// is a regular file.
#[derive(Debug)]
pub struct TreeEntry {
    pub path: String,
    pub is_file: bool,
}

/// The model of a [`TreeEntry`].
pub struct TreeEntryView {
    pub path: Seq<char>,
    pub is_file: bool,
}

impl View for TreeEntry {
    type V = TreeEntryView;

    open spec fn view(&self) -> TreeEntryView {
        TreeEntryView { path: self.path@, is_file: self.is_file }
    }
}

/// The models of a sequence of entries.
pub open spec fn entry_views(v: Seq<TreeEntry>) -> Seq<TreeEntryView> {
    v.map_values(|e: TreeEntry| e@)
}

/// The suffix by which a header file is known.
pub open spec fn header_suffix() -> Seq<char> {
    seq!['.', 'h']
}

/// Whether an entry is a header: a regular file whose name ends in `.h`.
pub open spec fn is_header(e: TreeEntryView) -> bool {
    e.is_file && has_suffix(e.path, header_suffix())
}

/// The paths of the headers among `entries`, in their order.
pub open spec fn header_paths(entries: Seq<TreeEntryView>) -> Seq<Seq<char>>
    decreases entries.len(),
{
    if entries.len() == 0 {
        Seq::empty()
    } else {
        let before = header_paths(entries.drop_last());
        if is_header(entries.last()) {
            before.push(entries.last().path)
        } else {
            before
        }
    }
}

/// What every path below `root` begins with: `root` and a slash, or `root`
/// alone where it is empty or ends in a slash.
pub open spec fn root_prefix(root: Seq<char>) -> Seq<char> {
    if root.len() == 0 || root.last() == '/' {
        root
    } else {
        root.push('/')
    }
}

/// What is left of `path` behind the root, where `path` lies below `root`.
pub open spec fn relative_to(path: Seq<char>, root: Seq<char>) -> Option<Seq<char>> {
    if has_prefix(path, root_prefix(root)) {
        Some(path.subrange(root_prefix(root).len() as int, path.len() as int))
    } else {
        None
    }
}

/// Whether each of `paths` lies below `root`.
pub open spec fn all_below(paths: Seq<Seq<char>>, root: Seq<char>) -> bool {
    forall|i: int| 0 <= i < paths.len() ==> relative_to(#[trigger] paths[i], root) is Some
}

/// Whether the path of an entry ends in `.h`.
pub fn is_header_path(path: &str) -> (b: bool)
    ensures
        b == has_suffix(path@, header_suffix()),
{
    let v = chars_of(path);
    let suffix: Vec<char> = vec!['.', 'h'];
    proof {
        assert(suffix@ =~= header_suffix());
        assert(v@.subrange(0, v@.len() as int) =~= v@);
    }
    window_has_suffix(&v, 0, v.len(), &suffix)
}

/// The paths of the headers among `entries`, in their order.
pub fn select_headers(entries: &Vec<TreeEntry>) -> (paths: Vec<String>)
    ensures
        texts(paths@) == header_paths(entry_views(entries@)),
{
    let ghost all = entry_views(entries@);
    let mut paths: Vec<String> = Vec::new();
    let mut i: usize = 0;
    proof {
        assert(texts(paths@) =~= Seq::<Seq<char>>::empty());
        assert(all.subrange(0, 0) =~= Seq::<TreeEntryView>::empty());
    }
    while i < entries.len()
        invariant
            i <= entries@.len(),
            all == entry_views(entries@),
            texts(paths@) == header_paths(all.subrange(0, i as int)),
        decreases entries@.len() - i,
    {
        let ghost prev = texts(paths@);
        proof {
            assert(all.subrange(0, i + 1).drop_last() =~= all.subrange(0, i as int));
            assert(all.subrange(0, i + 1).last() == entries@[i as int]@);
        }
        if entries[i].is_file && is_header_path(entries[i].path.as_str()) {
            paths.push(entries[i].path.clone());
            proof {
                assert(texts(paths@) =~= prev.push(entries@[i as int].path@));
            }
        }
        i = i + 1;
    }
    proof {
        assert(all.subrange(0, i as int) =~= all);
    }
    paths
}

/// The text of a string slice that may be missing.
pub open spec fn optional_slice_text(s: Option<&str>) -> Option<Seq<char>> {
    match s {
        Some(s) => Some(s@),
        None => None,
    }
}

/// What is left of `path` behind `root`, or nothing where `path` does not
/// lie below `root`.
pub fn relative_path<'a>(path: &'a str, root: &str) -> (rest: Option<&'a str>)
    ensures
        optional_slice_text(rest) == relative_to(path@, root@),
{
    let p = chars_of(path);
    let mut prefix = chars_of(root);
    if prefix.len() > 0 && prefix[prefix.len() - 1] != '/' {
        prefix.push('/');
    }
    proof {
        assert(prefix@ =~= root_prefix(root@));
        assert(p@.subrange(0, p@.len() as int) =~= p@);
    }
    if window_has_prefix(&p, 0, p.len(), &prefix) {
        Some(path.substring_char(prefix.len(), p.len()))
    } else {
        None
    }
}

/// The headers of one tree: the root, the path of each header in
/// lexicographic order, and beside each path what is left of it behind the
/// root.
#[derive(Debug)]
pub struct HeaderManifest {
    pub root: String,
    pub paths: Vec<String>,
    pub relative_paths: Vec<String>,
}

/// The model of a [`HeaderManifest`].
pub struct ManifestView {
    pub root: Seq<char>,
    pub paths: Seq<Seq<char>>,
    pub relative_paths: Seq<Seq<char>>,
}

impl View for HeaderManifest {
    type V = ManifestView;

    open spec fn view(&self) -> ManifestView {
        ManifestView {
            root: self.root@,
            paths: texts(self.paths@),
            relative_paths: texts(self.relative_paths@),
        }
    }
}

/// Whether a manifest is in order: its paths are sorted, and each relative
/// path is what is left of the path beside it behind the root.
pub open spec fn well_formed(m: ManifestView) -> bool {
    &&& is_sorted(m.paths)
    &&& m.relative_paths.len() == m.paths.len()
    &&& forall|i: int|
        0 <= i < m.paths.len() ==> relative_to(#[trigger] m.paths[i], m.root) == Some(
            m.relative_paths[i],
        )
}

/// Whether `m` is the manifest of the headers among `entries` below `root`:
/// it is in order and holds the path of each header as often as `entries`
/// does.
pub open spec fn is_manifest_of(m: ManifestView, root: Seq<char>, entries: Seq<TreeEntryView>) -> bool {
    &&& m.root == root
    &&& well_formed(m)
    &&& m.paths.to_multiset() == header_paths(entries).to_multiset()
}

/// The line of the umbrella header that includes the header at `relative`.
pub open spec fn include_line(relative: Seq<char>) -> Seq<char> {
    "#include <"@ + relative + ">\n"@
}

/// The umbrella header over the headers at `relative_paths`: one line for
/// each, in their order.
pub open spec fn umbrella_text(relative_paths: Seq<Seq<char>>) -> Seq<char>
    decreases relative_paths.len(),
{
    if relative_paths.len() == 0 {
        Seq::empty()
    } else {
        umbrella_text(relative_paths.drop_last()) + include_line(relative_paths.last())
    }
}

/// The lines that ask for a new build when one of `paths` changes, or
/// anything below `lib_dir`.
pub open spec fn rerun_texts(paths: Seq<Seq<char>>, lib_dir: Seq<char>) -> Seq<Seq<char>> {
    Seq::new(paths.len(), |i: int| rerun_text(paths[i])).push(rerun_text(lib_dir))
}

impl HeaderManifest {
    /// The manifest of the headers among `entries`, or nothing where one of
    /// them does not lie below `root`. A path that `entries` holds more than
    /// once stays in the manifest as often; a walk of a directory tree gives
    /// each path once.
    pub fn collect(root: &str, entries: &Vec<TreeEntry>) -> (manifest: Option<HeaderManifest>)
        ensures
            manifest is Some <==> all_below(header_paths(entry_views(entries@)), root@),
            match manifest {
                Some(m) => is_manifest_of(m@, root@, entry_views(entries@)),
                None => true,
            },
    {
        let found = select_headers(entries);
        let paths = sort_strings(&found);
        let ghost wanted = header_paths(entry_views(entries@));
        let ghost sorted = texts(paths@);
        let mut relative_paths: Vec<String> = Vec::new();
        let mut i: usize = 0;
        while i < paths.len()
            invariant
                i <= paths@.len(),
                sorted == texts(paths@),
                wanted == header_paths(entry_views(entries@)),
                sorted.to_multiset() == wanted.to_multiset(),
                is_sorted(sorted),
                relative_paths@.len() == i,
                forall|j: int|
                    0 <= j < i ==> relative_to(sorted[j], root@) == Some(
                        (#[trigger] relative_paths@[j])@,
                    ),
            decreases paths@.len() - i,
        {
            proof {
                assert(sorted[i as int] == paths@[i as int]@);
            }
            match relative_path(paths[i].as_str(), root) {
                Some(rest) => {
                    relative_paths.push(String::from_str(rest));
                },
                None => {
                    proof {
                        wanted.to_multiset_ensures();
                        sorted.to_multiset_ensures();
                        assert(sorted.contains(sorted[i as int]));
                        assert(wanted.to_multiset().count(sorted[i as int]) > 0);
                        assert(wanted.contains(sorted[i as int]));
                        let k = choose|k: int| 0 <= k < wanted.len() && wanted[k] == sorted[i as int];
                        assert(relative_to(wanted[k], root@) is None);
                    }
                    return None;
                },
            }
            i = i + 1;
        }
        let manifest = HeaderManifest { root: String::from_str(root), paths, relative_paths };
        proof {
            wanted.to_multiset_ensures();
            sorted.to_multiset_ensures();
            assert forall|k: int| 0 <= k < wanted.len() implies relative_to(
                #[trigger] wanted[k],
                root@,
            ) is Some by {
                assert(wanted.contains(wanted[k]));
                assert(sorted.to_multiset().count(wanted[k]) > 0);
                assert(sorted.contains(wanted[k]));
                let j = choose|j: int| 0 <= j < sorted.len() && sorted[j] == wanted[k];
                assert(relative_to(sorted[j], root@) == Some(relative_paths@[j]@));
            }
            assert forall|j: int| 0 <= j < manifest@.paths.len() implies relative_to(
                #[trigger] manifest@.paths[j],
                manifest@.root,
            ) == Some(manifest@.relative_paths[j]) by {
                assert(relative_to(sorted[j], root@) == Some(relative_paths@[j]@));
            }
        }
        Some(manifest)
    }

    /// The text of the umbrella header: an include line for each header, by
    /// its relative path, in the order of the manifest.
    pub fn umbrella_header(&self) -> (text: String)
        ensures
            text@ == umbrella_text(self@.relative_paths),
    {
        let ghost rels = self@.relative_paths;
        let mut text = String::new();
        let mut i: usize = 0;
        proof {
            assert(rels.subrange(0, 0) =~= Seq::<Seq<char>>::empty());
        }
        while i < self.relative_paths.len()
            invariant
                i <= self.relative_paths@.len(),
                rels == texts(self.relative_paths@),
                text@ == umbrella_text(rels.subrange(0, i as int)),
            decreases self.relative_paths@.len() - i,
        {
            let ghost before = text@;
            proof {
                assert(rels.subrange(0, i + 1).drop_last() =~= rels.subrange(0, i as int));
                assert(rels.subrange(0, i + 1).last() == self.relative_paths@[i as int]@);
            }
            text.append("#include <");
            text.append(self.relative_paths[i].as_str());
            text.append(">\n");
            proof {
                assert(text@ =~= before + include_line(rels[i as int]));
            }
            i = i + 1;
        }
        proof {
            assert(rels.subrange(0, i as int) =~= rels);
        }
        text
    }

    /// The lines that ask the build system for a new build when a header of
    /// the manifest changes, or anything below `lib_dir`.
    pub fn rerun_lines(&self, lib_dir: &str) -> (lines: Vec<String>)
        ensures
            texts(lines@) == rerun_texts(self@.paths, lib_dir@),
    {
        let mut lines: Vec<String> = Vec::new();
        let mut i: usize = 0;
        while i < self.paths.len()
            invariant
                i <= self.paths@.len(),
                lines@.len() == i,
                forall|j: int|
                    0 <= j < i ==> (#[trigger] lines@[j])@ == rerun_text(self.paths@[j]@),
            decreases self.paths@.len() - i,
        {
            lines.push(rerun_if_changed_line(self.paths[i].as_str()));
            i = i + 1;
        }
        lines.push(rerun_if_changed_line(lib_dir));
        proof {
            assert(texts(lines@) =~= rerun_texts(self@.paths, lib_dir@));
        }
        lines
    }
}

/// A path below the root is what every such path begins with, followed by
/// its relative path.
pub proof fn path_is_root_then_relative(path: Seq<char>, root: Seq<char>)
    requires
        relative_to(path, root) is Some,
    ensures
        path == root_prefix(root) + relative_to(path, root)->0,
{
    assert(path =~= path.subrange(0, root_prefix(root).len() as int) + path.subrange(
        root_prefix(root).len() as int,
        path.len() as int,
    ));
}

/// In a manifest that holds no path twice, each relative path comes before
/// every later one: the include lines of the umbrella header ascend strictly
/// by the path they include.
pub proof fn relative_paths_ascend(m: ManifestView)
    requires
        well_formed(m),
        m.paths.no_duplicates(),
    ensures
        is_strictly_sorted(m.relative_paths),
{
    let p = root_prefix(m.root);
    sorted_distinct_is_strict(m.paths);
    assert forall|i: int, j: int| 0 <= i < j < m.relative_paths.len() implies lex_lt(
        #[trigger] m.relative_paths[i],
        #[trigger] m.relative_paths[j],
    ) by {
        path_is_root_then_relative(m.paths[i], m.root);
        path_is_root_then_relative(m.paths[j], m.root);
        lex_lt_common_prefix(p, m.relative_paths[i], m.relative_paths[j]);
        assert(lex_lt(m.paths[i], m.paths[j]));
    }
}

/// Whether no two of `entries` have the same path.
pub open spec fn paths_distinct(entries: Seq<TreeEntryView>) -> bool {
    forall|i: int, j: int|
        0 <= i < j < entries.len() ==> (#[trigger] entries[i]).path != (#[trigger] entries[j]).path
}

/// Each header path is the path of one of the entries, a header.
pub proof fn header_path_is_entry_path(entries: Seq<TreeEntryView>, k: int) -> (i: int)
    requires
        0 <= k < header_paths(entries).len(),
    ensures
        0 <= i < entries.len(),
        entries[i].path == header_paths(entries)[k],
        is_header(entries[i]),
    decreases entries.len(),
{
    let before = header_paths(entries.drop_last());
    if k < before.len() {
        header_path_is_entry_path(entries.drop_last(), k)
    } else {
        entries.len() - 1
    }
}

/// Where no two entries have the same path, no two headers have.
pub proof fn header_paths_are_distinct(entries: Seq<TreeEntryView>)
    requires
        paths_distinct(entries),
    ensures
        header_paths(entries).no_duplicates(),
    decreases entries.len(),
{
    if entries.len() > 0 {
        let front = entries.drop_last();
        assert(paths_distinct(front)) by {
            assert forall|i: int, j: int| 0 <= i < j < front.len() implies (#[trigger] front[i]).path
                != (#[trigger] front[j]).path by {
                assert(front[i] == entries[i] && front[j] == entries[j]);
            }
        }
        header_paths_are_distinct(front);
        let before = header_paths(front);
        let all = header_paths(entries);
        assert forall|a: int, b: int| 0 <= a < all.len() && 0 <= b < all.len() && a != b implies all[a]
            != all[b] by {
            if a < before.len() && b < before.len() {
                assert(all[a] == before[a] && all[b] == before[b]);
            } else {
                let low = if a < b {
                    a
                } else {
                    b
                };
                let i = header_path_is_entry_path(front, low);
                assert(front[i] == entries[i]);
                assert(entries[i].path != entries[entries.len() - 1].path);
            }
        }
    }
}

/// The umbrella header of a tree in which no two entries have the same path
/// includes its headers in strictly ascending order of their relative paths.
pub proof fn includes_ascend(m: ManifestView, root: Seq<char>, entries: Seq<TreeEntryView>)
    requires
        is_manifest_of(m, root, entries),
        paths_distinct(entries),
    ensures
        is_strictly_sorted(m.relative_paths),
{
    header_paths_are_distinct(entries);
    header_paths(entries).lemma_multiset_has_no_duplicates();
    m.paths.lemma_multiset_has_no_duplicates_conv();
    relative_paths_ascend(m);
}

/// A tree has one manifest, in whatever order its entries were found: two
/// manifests below one root, made from entries that hold the same header
/// paths, are equal, and so are their umbrella headers.
pub proof fn manifest_is_unique(
    m1: ManifestView,
    m2: ManifestView,
    root: Seq<char>,
    entries1: Seq<TreeEntryView>,
    entries2: Seq<TreeEntryView>,
)
    requires
        is_manifest_of(m1, root, entries1),
        is_manifest_of(m2, root, entries2),
        header_paths(entries1).to_multiset() == header_paths(entries2).to_multiset(),
    ensures
        m1 == m2,
        umbrella_text(m1.relative_paths) == umbrella_text(m2.relative_paths),
{
    sorted_is_unique(m1.paths, m2.paths);
    assert(m1.relative_paths =~= m2.relative_paths) by {
        assert forall|i: int| 0 <= i < m1.relative_paths.len() implies m1.relative_paths[i]
            == m2.relative_paths[i] by {
            assert(relative_to(m1.paths[i], root) == Some(m1.relative_paths[i]));
            assert(relative_to(m2.paths[i], root) == Some(m2.relative_paths[i]));
        }
    }
}

} // verus!
