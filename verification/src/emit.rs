//! Deriving the linker directives of a build from probed package metadata.

use vstd::prelude::*;
use crate::classify::{classify, library_name_and_kind, ClassifiedLibrary};
use crate::dedup::{
    contains_string, first_by_key, first_by_key_push, first_by_key_same_keys, first_occurrences,
    has_key, has_whole_string, unique_strings,
};
use crate::metadata::{LibraryMetadata, LinkFileView, MetadataView};
use crate::text::{append_strings, texts};

verus! {

/// One instruction to the build system about linking.
#[derive(Debug)]
pub enum LinkDirective {
    /// A directory in which the linker looks for libraries.
    SearchPath(String),
    /// A library to link, dynamically or statically.
    LinkLibrary { name: String, dynamic: bool },
    /// An argument handed to the linker as it is.
    RawArg(String),
}

/// The model of a [`LinkDirective`].
pub enum DirectiveView {
    SearchPath(Seq<char>),
    LinkLibrary { name: Seq<char>, dynamic: bool },
    RawArg(Seq<char>),
}

impl View for LinkDirective {
    type V = DirectiveView;

    open spec fn view(&self) -> DirectiveView {
        match self {
            LinkDirective::SearchPath(p) => DirectiveView::SearchPath(p@),
            LinkDirective::LinkLibrary { name, dynamic } => DirectiveView::LinkLibrary {
                name: name@,
                dynamic: *dynamic,
            },
            LinkDirective::RawArg(a) => DirectiveView::RawArg(a@),
        }
    }
}

/// The models of a sequence of directives.
pub open spec fn directive_views(v: Seq<LinkDirective>) -> Seq<DirectiveView> {
    v.map_values(|d: LinkDirective| d@)
}

/// The models of a sequence of classified libraries.
pub open spec fn library_views(v: Seq<ClassifiedLibrary>) -> Seq<(Seq<char>, bool)> {
    v.map_values(|l: ClassifiedLibrary| l@)
}

/// The key under which classified libraries are compared: the name.
pub open spec fn by_name() -> spec_fn((Seq<char>, bool)) -> Seq<char> {
    |e: (Seq<char>, bool)| e.0
}

/// The groups of `groups` one after the other, as one sequence.
pub open spec fn concat_groups(groups: Seq<Seq<Seq<char>>>) -> Seq<Seq<char>>
    decreases groups.len(),
{
    if groups.len() == 0 {
        Seq::empty()
    } else {
        concat_groups(groups.drop_last()) + groups.last()
    }
}

/// The directories that hold the link artifacts `files`, in their order;
/// an artifact without a parent directory gives none.
pub open spec fn parent_dirs(files: Seq<LinkFileView>) -> Seq<Seq<char>>
    decreases files.len(),
{
    if files.len() == 0 {
        Seq::empty()
    } else {
        let before = parent_dirs(files.drop_last());
        match files.last().parent {
            Some(dir) => before.push(dir),
            None => before,
        }
    }
}

/// The directories to search for libraries: the search paths of the probe,
/// then the directories of its link artifacts, each directory once.
pub open spec fn search_dirs(m: MetadataView) -> Seq<Seq<char>> {
    first_occurrences(m.link_paths + parent_dirs(m.link_files))
}

/// The libraries that the file names of the link artifacts `files` stand
/// for, in their order; an artifact without a file name gives none.
pub open spec fn classified_files(files: Seq<LinkFileView>) -> Seq<(Seq<char>, bool)>
    decreases files.len(),
{
    if files.len() == 0 {
        Seq::empty()
    } else {
        let before = classified_files(files.drop_last());
        match files.last().file_name {
            Some(name) => before.push(library_name_and_kind(name)),
            None => before,
        }
    }
}

/// Each name of `libs` with its assumed kind: static for `self_name`,
/// dynamic for every other.
pub open spec fn classified_names(libs: Seq<Seq<char>>, self_name: Seq<char>) -> Seq<
    (Seq<char>, bool),
> {
    Seq::new(libs.len(), |i: int| (libs[i], libs[i] != self_name))
}

/// The libraries whose versioned file names the probe cannot reduce to a
/// base name; they are linked statically whatever the probe reports of them.
pub open spec fn problem_libraries() -> Seq<Seq<char>> {
    seq!["boost_iostreams"@, "boost_serialization"@, "boost_system"@]
}

/// Whether `name` is one of the problem libraries.
pub open spec fn is_problem_library(name: Seq<char>) -> bool {
    problem_libraries().contains(name)
}

/// `staged` without the entries that name a problem library.
pub open spec fn without_problem_libraries(staged: Seq<(Seq<char>, bool)>) -> Seq<
    (Seq<char>, bool),
>
    decreases staged.len(),
{
    if staged.len() == 0 {
        Seq::empty()
    } else {
        let before = without_problem_libraries(staged.drop_last());
        if is_problem_library(staged.last().0) {
            before
        } else {
            before.push(staged.last())
        }
    }
}

/// The problem libraries, each as a static library.
pub open spec fn static_overrides() -> Seq<(Seq<char>, bool)> {
    Seq::new(problem_libraries().len(), |i: int| (problem_libraries()[i], false))
}

/// The libraries staged for linking, repeats included: those that the link
/// artifacts stand for, then the named ones, both without the problem
/// libraries, and at the end the problem libraries as static ones.
pub open spec fn staged(m: MetadataView, self_name: Seq<char>) -> Seq<(Seq<char>, bool)> {
    without_problem_libraries(
        classified_files(m.link_files) + classified_names(m.libs, self_name),
    ) + static_overrides()
}

/// The libraries to link: the staged ones, of each name the first.
pub open spec fn staged_libraries(m: MetadataView, self_name: Seq<char>) -> Seq<
    (Seq<char>, bool),
> {
    first_by_key(staged(m, self_name), by_name())
}

/// A raw-argument directive for each of `args`.
pub open spec fn raw_arg_directives(args: Seq<Seq<char>>) -> Seq<DirectiveView> {
    Seq::new(args.len(), |i: int| DirectiveView::RawArg(args[i]))
}

/// A search-path directive for each of `dirs`.
pub open spec fn search_path_directives(dirs: Seq<Seq<char>>) -> Seq<DirectiveView> {
    Seq::new(dirs.len(), |i: int| DirectiveView::SearchPath(dirs[i]))
}

/// A link-library directive for each of `libraries`, of its kind.
pub open spec fn library_directives(libraries: Seq<(Seq<char>, bool)>) -> Seq<DirectiveView> {
    Seq::new(
        libraries.len(),
        |i: int| DirectiveView::LinkLibrary { name: libraries[i].0, dynamic: libraries[i].1 },
    )
}

/// The directives of a build, in the order in which they are emitted: the
/// raw linker arguments, the search directories, and one link-library
/// directive for each library to link. A named library of the probe gets its
/// directive here and nowhere else, so that no library is named twice.
pub open spec fn directives(m: MetadataView, self_name: Seq<char>) -> Seq<DirectiveView> {
    raw_arg_directives(concat_groups(m.ld_args)) + search_path_directives(search_dirs(m))
        + library_directives(staged_libraries(m, self_name))
}

/// The names of the link-library directives among `ds`, in their order.
pub open spec fn library_names(ds: Seq<DirectiveView>) -> Seq<Seq<char>>
    decreases ds.len(),
{
    if ds.len() == 0 {
        Seq::empty()
    } else {
        let before = library_names(ds.drop_last());
        match ds.last() {
            DirectiveView::LinkLibrary { name, dynamic } => before.push(name),
            _ => before,
        }
    }
}

/// The names of `libraries`, in their order.
pub open spec fn names_of(libraries: Seq<(Seq<char>, bool)>) -> Seq<Seq<char>> {
    Seq::new(libraries.len(), |i: int| libraries[i].0)
}

/// The raw linker arguments of the probe, group after group.
pub fn raw_link_args(meta: &LibraryMetadata) -> (args: Vec<String>)
    ensures
        texts(args@) == concat_groups(meta@.ld_args),
{
    let ghost groups = meta@.ld_args;
    let mut args: Vec<String> = Vec::new();
    let mut i: usize = 0;
    proof {
        assert(texts(args@) =~= Seq::<Seq<char>>::empty());
        assert(groups.subrange(0, 0) =~= Seq::<Seq<Seq<char>>>::empty());
    }
    while i < meta.ld_args.len()
        invariant
            i <= meta.ld_args@.len(),
            groups == meta@.ld_args,
            texts(args@) == concat_groups(groups.subrange(0, i as int)),
        decreases meta.ld_args@.len() - i,
    {
        append_strings(&mut args, &meta.ld_args[i]);
        proof {
            assert(groups.subrange(0, i + 1).drop_last() =~= groups.subrange(0, i as int));
            assert(groups.subrange(0, i + 1).last() == texts(meta.ld_args@[i as int]@));
        }
        i = i + 1;
    }
    proof {
        assert(groups.subrange(0, i as int) =~= groups);
    }
    args
}

/// The parent directories of the link artifacts of the probe.
pub fn link_file_dirs(meta: &LibraryMetadata) -> (dirs: Vec<String>)
    ensures
        texts(dirs@) == parent_dirs(meta@.link_files),
{
    let ghost files = meta@.link_files;
    let mut dirs: Vec<String> = Vec::new();
    let mut i: usize = 0;
    proof {
        assert(texts(dirs@) =~= Seq::<Seq<char>>::empty());
        assert(files.subrange(0, 0) =~= Seq::<LinkFileView>::empty());
    }
    while i < meta.link_files.len()
        invariant
            i <= meta.link_files@.len(),
            files == meta@.link_files,
            texts(dirs@) == parent_dirs(files.subrange(0, i as int)),
        decreases meta.link_files@.len() - i,
    {
        let ghost prev = texts(dirs@);
        proof {
            assert(files.subrange(0, i + 1).drop_last() =~= files.subrange(0, i as int));
            assert(files.subrange(0, i + 1).last() == meta.link_files@[i as int]@);
        }
        match &meta.link_files[i].parent {
            Some(dir) => {
                dirs.push(dir.clone());
                proof {
                    assert(texts(dirs@) =~= prev.push(dir@));
                }
            },
            None => {},
        }
        i = i + 1;
    }
    proof {
        assert(files.subrange(0, i as int) =~= files);
    }
    dirs
}

/// The directories in which the linker is to search, each once: the search
/// paths of the probe, then the directories of its link artifacts.
pub fn link_search_dirs(meta: &LibraryMetadata) -> (dirs: Vec<String>)
    ensures
        texts(dirs@) == search_dirs(meta@),
{
    let mut all: Vec<String> = Vec::new();
    proof {
        assert(texts(all@) =~= Seq::<Seq<char>>::empty());
    }
    append_strings(&mut all, &meta.link_paths);
    let from_files = link_file_dirs(meta);
    append_strings(&mut all, &from_files);
    proof {
        assert(texts(all@) =~= meta@.link_paths + parent_dirs(meta@.link_files));
    }
    unique_strings(&all)
}

/// The libraries that the link artifacts of the probe stand for.
pub fn classify_link_files(meta: &LibraryMetadata) -> (libraries: Vec<ClassifiedLibrary>)
    ensures
        library_views(libraries@) == classified_files(meta@.link_files),
{
    let ghost files = meta@.link_files;
    let mut libraries: Vec<ClassifiedLibrary> = Vec::new();
    let mut i: usize = 0;
    proof {
        assert(library_views(libraries@) =~= Seq::<(Seq<char>, bool)>::empty());
        assert(files.subrange(0, 0) =~= Seq::<LinkFileView>::empty());
    }
    while i < meta.link_files.len()
        invariant
            i <= meta.link_files@.len(),
            files == meta@.link_files,
            library_views(libraries@) == classified_files(files.subrange(0, i as int)),
        decreases meta.link_files@.len() - i,
    {
        let ghost prev = library_views(libraries@);
        proof {
            assert(files.subrange(0, i + 1).drop_last() =~= files.subrange(0, i as int));
            assert(files.subrange(0, i + 1).last() == meta.link_files@[i as int]@);
        }
        match &meta.link_files[i].file_name {
            Some(name) => {
                libraries.push(classify(name.as_str()));
                proof {
                    assert(library_views(libraries@) =~= prev.push(library_name_and_kind(name@)));
                }
            },
            None => {},
        }
        i = i + 1;
    }
    proof {
        assert(files.subrange(0, i as int) =~= files);
    }
    libraries
}

/// The named libraries of the probe, each with its assumed kind: static for
/// `self_name`, dynamic for every other.
pub fn classify_named_libraries(meta: &LibraryMetadata, self_name: &str) -> (libraries: Vec<
    ClassifiedLibrary,
>)
    ensures
        library_views(libraries@) == classified_names(meta@.libs, self_name@),
{
    let ghost libs = meta@.libs;
    let own: String = String::from_str(self_name);
    let mut libraries: Vec<ClassifiedLibrary> = Vec::new();
    let mut i: usize = 0;
    while i < meta.libs.len()
        invariant
            i <= meta.libs@.len(),
            libs == meta@.libs,
            own@ == self_name@,
            libraries@.len() == i,
            forall|j: int|
                0 <= j < i ==> (#[trigger] libraries@[j])@ == (libs[j], libs[j] != self_name@),
        decreases meta.libs@.len() - i,
    {
        let dynamic: bool = meta.libs[i] != own;
        libraries.push(ClassifiedLibrary { name: meta.libs[i].clone(), dynamic });
        i = i + 1;
    }
    proof {
        assert(library_views(libraries@) =~= classified_names(libs, self_name@));
    }
    libraries
}

/// The table of problem libraries.
pub fn known_problem_libraries() -> (names: Vec<String>)
    ensures
        texts(names@) == problem_libraries(),
{
    let names: Vec<String> = vec![
        String::from_str("boost_iostreams"),
        String::from_str("boost_serialization"),
        String::from_str("boost_system"),
    ];
    proof {
        assert(texts(names@) =~= problem_libraries());
    }
    names
}

/// The entries of `staged` that name no problem library.
pub fn drop_problem_libraries(staged: &Vec<ClassifiedLibrary>) -> (kept: Vec<ClassifiedLibrary>)
    ensures
        library_views(kept@) == without_problem_libraries(library_views(staged@)),
{
    let ghost all = library_views(staged@);
    let table = known_problem_libraries();
    let mut kept: Vec<ClassifiedLibrary> = Vec::new();
    let mut i: usize = 0;
    proof {
        assert(library_views(kept@) =~= Seq::<(Seq<char>, bool)>::empty());
        assert(all.subrange(0, 0) =~= Seq::<(Seq<char>, bool)>::empty());
    }
    while i < staged.len()
        invariant
            i <= staged@.len(),
            all == library_views(staged@),
            texts(table@) == problem_libraries(),
            library_views(kept@) == without_problem_libraries(all.subrange(0, i as int)),
        decreases staged@.len() - i,
    {
        let ghost prev = library_views(kept@);
        proof {
            assert(all.subrange(0, i + 1).drop_last() =~= all.subrange(0, i as int));
            assert(all.subrange(0, i + 1).last() == staged@[i as int]@);
            has_whole_string(problem_libraries(), staged@[i as int].name@);
        }
        if !contains_string(&table, &staged[i].name) {
            kept.push(staged[i].duplicate());
            proof {
                assert(library_views(kept@) =~= prev.push(staged@[i as int]@));
            }
        }
        i = i + 1;
    }
    proof {
        assert(all.subrange(0, i as int) =~= all);
    }
    kept
}

/// Adds a copy of each of `items` at the end of `out`.
pub fn append_libraries(out: &mut Vec<ClassifiedLibrary>, items: &Vec<ClassifiedLibrary>)
    ensures
        library_views(final(out)@) == library_views(old(out)@) + library_views(items@),
{
    let ghost before = library_views(out@);
    let ghost added = library_views(items@);
    let mut i: usize = 0;
    proof {
        assert(library_views(out@) =~= before + added.subrange(0, 0));
    }
    while i < items.len()
        invariant
            i <= items@.len(),
            added == library_views(items@),
            library_views(out@) == before + added.subrange(0, i as int),
        decreases items@.len() - i,
    {
        let ghost prev = library_views(out@);
        out.push(items[i].duplicate());
        proof {
            assert(library_views(out@) =~= prev.push(added[i as int]));
            assert(library_views(out@) =~= before + added.subrange(0, i + 1));
        }
        i = i + 1;
    }
    proof {
        assert(added.subrange(0, i as int) =~= added);
    }
}

/// The problem libraries, each as a static library.
pub fn static_override_libraries() -> (libraries: Vec<ClassifiedLibrary>)
    ensures
        library_views(libraries@) == static_overrides(),
{
    let table = known_problem_libraries();
    let mut libraries: Vec<ClassifiedLibrary> = Vec::new();
    let mut i: usize = 0;
    while i < table.len()
        invariant
            i <= table@.len(),
            texts(table@) == problem_libraries(),
            libraries@.len() == i,
            forall|j: int|
                0 <= j < i ==> (#[trigger] libraries@[j])@ == (problem_libraries()[j], false),
        decreases table@.len() - i,
    {
        proof {
            assert(texts(table@)[i as int] == table@[i as int]@);
        }
        libraries.push(ClassifiedLibrary { name: table[i].clone(), dynamic: false });
        i = i + 1;
    }
    proof {
        assert(texts(table@).len() == table@.len());
        assert(library_views(libraries@) =~= static_overrides());
    }
    libraries
}

/// The libraries staged for linking, repeats included: those of the link
/// artifacts, then the named ones, both without the problem libraries, and
/// at the end the problem libraries as static ones.
pub fn stage_libraries(meta: &LibraryMetadata, self_name: &str) -> (libraries: Vec<
    ClassifiedLibrary,
>)
    ensures
        library_views(libraries@) == staged(meta@, self_name@),
{
    let mut found = classify_link_files(meta);
    let named = classify_named_libraries(meta, self_name);
    append_libraries(&mut found, &named);
    let mut libraries = drop_problem_libraries(&found);
    let forced = static_override_libraries();
    append_libraries(&mut libraries, &forced);
    libraries
}

/// Whether one of `items` has the name `name`.
pub fn contains_name(items: &Vec<ClassifiedLibrary>, name: &String) -> (b: bool)
    ensures
        b == has_key(library_views(items@), by_name(), name@),
{
    let ghost t = library_views(items@);
    let mut i: usize = 0;
    while i < items.len()
        invariant
            i <= items@.len(),
            t == library_views(items@),
            forall|j: int| 0 <= j < i ==> t[j].0 != name@,
        decreases items@.len() - i,
    {
        if items[i].name == *name {
            proof {
                assert(by_name()(t[i as int]) == name@);
            }
            return true;
        }
        i = i + 1;
    }
    false
}

/// The libraries of `items` without repeated names: of those with one name
/// the first stays.
pub fn unique_by_name(items: &Vec<ClassifiedLibrary>) -> (out: Vec<ClassifiedLibrary>)
    ensures
        library_views(out@) == first_by_key(library_views(items@), by_name()),
{
    let ghost t = library_views(items@);
    let mut out: Vec<ClassifiedLibrary> = Vec::new();
    let mut i: usize = 0;
    proof {
        assert(t.subrange(0, 0) =~= Seq::<(Seq<char>, bool)>::empty());
        assert(library_views(out@) =~= Seq::<(Seq<char>, bool)>::empty());
    }
    while i < items.len()
        invariant
            i <= items@.len(),
            t == library_views(items@),
            library_views(out@) == first_by_key(t.subrange(0, i as int), by_name()),
        decreases items@.len() - i,
    {
        let ghost seen = t.subrange(0, i as int);
        let ghost kept = library_views(out@);
        proof {
            first_by_key_push(seen, by_name(), t[i as int]);
            first_by_key_same_keys(seen, by_name(), t[i as int].0);
            assert(seen.push(t[i as int]) =~= t.subrange(0, i + 1));
            assert(by_name()(t[i as int]) == items@[i as int].name@);
        }
        if !contains_name(&out, &items[i].name) {
            out.push(items[i].duplicate());
            proof {
                assert(library_views(out@) =~= kept.push(t[i as int]));
            }
        }
        i = i + 1;
    }
    proof {
        assert(t.subrange(0, i as int) =~= t);
    }
    out
}

/// The libraries to link, one entry for each name.
pub fn link_libraries(meta: &LibraryMetadata, self_name: &str) -> (libraries: Vec<
    ClassifiedLibrary,
>)
    ensures
        library_views(libraries@) == staged_libraries(meta@, self_name@),
{
    let all = stage_libraries(meta, self_name);
    unique_by_name(&all)
}

/// The directives of a build, in the order in which the build system is to
/// get them: the raw linker arguments, the search directories, and one
/// directive for each library to link.
pub fn emit_link_directives(meta: &LibraryMetadata, self_name: &str) -> (out: Vec<LinkDirective>)
    ensures
        directive_views(out@) == directives(meta@, self_name@),
{
    let args = raw_link_args(meta);
    let dirs = link_search_dirs(meta);
    let libraries = link_libraries(meta, self_name);
    let ghost raws = raw_arg_directives(texts(args@));
    let ghost searches = search_path_directives(texts(dirs@));
    let ghost linked = library_directives(library_views(libraries@));
    let mut out: Vec<LinkDirective> = Vec::new();
    let mut i: usize = 0;
    while i < args.len()
        invariant
            i <= args@.len(),
            raws == raw_arg_directives(texts(args@)),
            directive_views(out@) == raws.subrange(0, i as int),
        decreases args@.len() - i,
    {
        let ghost prev = directive_views(out@);
        out.push(LinkDirective::RawArg(args[i].clone()));
        proof {
            assert(directive_views(out@) =~= prev.push(raws[i as int]));
            assert(directive_views(out@) =~= raws.subrange(0, i + 1));
        }
        i = i + 1;
    }
    proof {
        assert(raws.subrange(0, i as int) =~= raws);
    }
    i = 0;
    while i < dirs.len()
        invariant
            i <= dirs@.len(),
            searches == search_path_directives(texts(dirs@)),
            directive_views(out@) == raws + searches.subrange(0, i as int),
        decreases dirs@.len() - i,
    {
        let ghost prev = directive_views(out@);
        out.push(LinkDirective::SearchPath(dirs[i].clone()));
        proof {
            assert(directive_views(out@) =~= prev.push(searches[i as int]));
            assert(directive_views(out@) =~= raws + searches.subrange(0, i + 1));
        }
        i = i + 1;
    }
    proof {
        assert(searches.subrange(0, i as int) =~= searches);
    }
    i = 0;
    while i < libraries.len()
        invariant
            i <= libraries@.len(),
            linked == library_directives(library_views(libraries@)),
            directive_views(out@) == raws + searches + linked.subrange(0, i as int),
        decreases libraries@.len() - i,
    {
        let ghost prev = directive_views(out@);
        out.push(
            LinkDirective::LinkLibrary {
                name: libraries[i].name.clone(),
                dynamic: libraries[i].dynamic,
            },
        );
        proof {
            assert(directive_views(out@) =~= prev.push(linked[i as int]));
            assert(directive_views(out@) =~= raws + searches + linked.subrange(0, i + 1));
        }
        i = i + 1;
    }
    proof {
        assert(linked.subrange(0, i as int) =~= linked);
    }
    out
}

} // verus!
