//! What holds of the directives of every build.

use vstd::prelude::*;
use crate::dedup::{
    first_by_key_distinct, first_by_key_is_first, first_by_key_same_keys, has_key,
};
use crate::emit::{
    by_name, classified_files, classified_names, concat_groups, directives, is_problem_library,
    library_directives, library_names, names_of, problem_libraries, raw_arg_directives,
    search_dirs, search_path_directives, staged, staged_libraries, static_overrides,
    without_problem_libraries, DirectiveView,
};
use crate::metadata::MetadataView;

verus! {

/// What is left once the problem libraries are gone names none of them.
pub proof fn no_problem_library_is_left(staged: Seq<(Seq<char>, bool)>)
    ensures
        forall|j: int|
            0 <= j < without_problem_libraries(staged).len() ==> !is_problem_library(
                (#[trigger] without_problem_libraries(staged)[j]).0,
            ),
    decreases staged.len(),
{
    if staged.len() > 0 {
        no_problem_library_is_left(staged.drop_last());
        let before = without_problem_libraries(staged.drop_last());
        let kept = without_problem_libraries(staged);
        assert forall|j: int| 0 <= j < kept.len() implies !is_problem_library(
            (#[trigger] kept[j]).0,
        ) by {
            if j < before.len() {
                assert(kept[j] == before[j]);
            }
        }
    }
}

/// No two of the libraries to link have the same name.
pub proof fn linked_names_are_distinct(m: MetadataView, self_name: Seq<char>)
    ensures
        forall|i: int, j: int|
            0 <= i < j < staged_libraries(m, self_name).len() ==> (#[trigger] staged_libraries(
                m,
                self_name,
            )[i]).0 != (#[trigger] staged_libraries(m, self_name)[j]).0,
{
    let libraries = staged_libraries(m, self_name);
    first_by_key_distinct(staged(m, self_name), by_name());
    assert forall|i: int, j: int| 0 <= i < j < libraries.len() implies (#[trigger] libraries[i]).0
        != (#[trigger] libraries[j]).0 by {
        assert(by_name()(libraries[i]) != by_name()(libraries[j]));
    }
}

/// Each problem library is among the libraries to link, as a static library,
/// and is there as nothing else, whatever the probe reported of it: the
/// directives of the build hold a static directive for it and no dynamic one.
pub proof fn problem_libraries_are_static(m: MetadataView, self_name: Seq<char>, name: Seq<char>)
    requires
        is_problem_library(name),
    ensures
        staged_libraries(m, self_name).contains((name, false)),
        !staged_libraries(m, self_name).contains((name, true)),
        directives(m, self_name).contains(DirectiveView::LinkLibrary { name, dynamic: false }),
        !directives(m, self_name).contains(DirectiveView::LinkLibrary { name, dynamic: true }),
{
    let all = staged(m, self_name);
    let found = without_problem_libraries(
        classified_files(m.link_files) + classified_names(m.libs, self_name),
    );
    let forced = static_overrides();
    let libraries = staged_libraries(m, self_name);
    assert(all == found + forced);
    no_problem_library_is_left(
        classified_files(m.link_files) + classified_names(m.libs, self_name),
    );
    let p = choose|p: int| 0 <= p < problem_libraries().len() && problem_libraries()[p] == name;
    assert(forced[p] == (name, false));
    assert(all[found.len() + p] == forced[p]);
    assert(by_name()(all[found.len() + p]) == name);
    assert(has_key(all, by_name(), name));
    first_by_key_same_keys(all, by_name(), name);
    let j = choose|j: int| 0 <= j < libraries.len() && #[trigger] by_name()(libraries[j]) == name;
    assert forall|k: int| 0 <= k < libraries.len() && (#[trigger] libraries[k]).0
        == name implies !libraries[k].1 by {
        let h = first_by_key_is_first(all, by_name(), k);
        if h < found.len() {
            assert(all[h] == found[h]);
            assert(!is_problem_library(found[h].0));
        } else {
            assert(all[h] == forced[h - found.len()]);
        }
    }
    assert(libraries[j].0 == name);
    assert(libraries[j] == (name, false));
    if libraries.contains((name, true)) {
        let k = choose|k: int| 0 <= k < libraries.len() && libraries[k] == (name, true);
        assert(libraries[k].0 == name);
    }
    let emitted = directives(m, self_name);
    let raws = raw_arg_directives(concat_groups(m.ld_args));
    let searches = search_path_directives(search_dirs(m));
    let head = raws + searches;
    assert(emitted == head + library_directives(libraries));
    assert(emitted[head.len() + j] == library_directives(libraries)[j]);
    assert(emitted[head.len() + j] == DirectiveView::LinkLibrary { name, dynamic: false });
    let dynamic_one = DirectiveView::LinkLibrary { name, dynamic: true };
    if emitted.contains(dynamic_one) {
        let k = choose|k: int| 0 <= k < emitted.len() && emitted[k] == dynamic_one;
        if k < raws.len() {
            assert(emitted[k] == raws[k]);
        } else if k < head.len() {
            assert(emitted[k] == searches[k - raws.len()]);
        } else {
            assert(emitted[k] == library_directives(libraries)[k - head.len()]);
            assert(libraries[k - head.len()].0 == name);
        }
    }
}

/// The names among two runs of directives are those of the first run, then
/// those of the second.
pub proof fn library_names_of_concat(a: Seq<DirectiveView>, b: Seq<DirectiveView>)
    ensures
        library_names(a + b) == library_names(a) + library_names(b),
    decreases b.len(),
{
    if b.len() == 0 {
        assert(a + b =~= a);
        assert(library_names(a) + library_names(b) =~= library_names(a));
    } else {
        library_names_of_concat(a, b.drop_last());
        assert((a + b).drop_last() =~= a + b.drop_last());
        assert((a + b).last() == b.last());
        match b.last() {
            DirectiveView::LinkLibrary { name, dynamic } => {
                assert(library_names(a + b) =~= library_names(a) + library_names(b));
            },
            _ => {},
        }
    }
}

/// Raw-argument directives name no library.
pub proof fn raw_args_name_no_library(args: Seq<Seq<char>>)
    ensures
        library_names(raw_arg_directives(args)).len() == 0,
    decreases args.len(),
{
    if args.len() > 0 {
        raw_args_name_no_library(args.drop_last());
        assert(raw_arg_directives(args).drop_last() =~= raw_arg_directives(args.drop_last()));
    }
}

/// Search-path directives name no library.
pub proof fn search_paths_name_no_library(dirs: Seq<Seq<char>>)
    ensures
        library_names(search_path_directives(dirs)).len() == 0,
    decreases dirs.len(),
{
    if dirs.len() > 0 {
        search_paths_name_no_library(dirs.drop_last());
        assert(search_path_directives(dirs).drop_last() =~= search_path_directives(
            dirs.drop_last(),
        ));
    }
}

/// Library directives name the libraries they were made for.
pub proof fn library_directives_name_all(libraries: Seq<(Seq<char>, bool)>)
    ensures
        library_names(library_directives(libraries)) == names_of(libraries),
    decreases libraries.len(),
{
    if libraries.len() > 0 {
        library_directives_name_all(libraries.drop_last());
        assert(library_directives(libraries).drop_last() =~= library_directives(
            libraries.drop_last(),
        ));
        assert(library_names(library_directives(libraries)) =~= names_of(libraries));
    } else {
        assert(library_names(library_directives(libraries)) =~= names_of(libraries));
    }
}

/// The link-library directives of a build name the libraries to link, in
/// their order, and nothing else.
pub proof fn emitted_library_names(m: MetadataView, self_name: Seq<char>)
    ensures
        library_names(directives(m, self_name)) == names_of(staged_libraries(m, self_name)),
{
    let raws = raw_arg_directives(concat_groups(m.ld_args));
    let searches = search_path_directives(search_dirs(m));
    let linked = library_directives(staged_libraries(m, self_name));
    raw_args_name_no_library(concat_groups(m.ld_args));
    search_paths_name_no_library(search_dirs(m));
    library_directives_name_all(staged_libraries(m, self_name));
    library_names_of_concat(raws, searches);
    library_names_of_concat(raws + searches, linked);
    assert(library_names(raws) + library_names(searches) + library_names(linked) =~= names_of(
        staged_libraries(m, self_name),
    ));
}

/// A staged library that is no problem library stays staged.
pub proof fn other_libraries_stay(staged: Seq<(Seq<char>, bool)>, name: Seq<char>)
    requires
        has_key(staged, by_name(), name),
        !is_problem_library(name),
    ensures
        has_key(without_problem_libraries(staged), by_name(), name),
    decreases staged.len(),
{
    let h = choose|h: int| 0 <= h < staged.len() && #[trigger] by_name()(staged[h]) == name;
    let kept = without_problem_libraries(staged);
    if h == staged.len() - 1 {
        assert(by_name()(kept[kept.len() - 1]) == name);
    } else {
        assert(by_name()(staged.drop_last()[h]) == name);
        other_libraries_stay(staged.drop_last(), name);
        let before = without_problem_libraries(staged.drop_last());
        let j = choose|j: int| 0 <= j < before.len() && #[trigger] by_name()(before[j]) == name;
        assert(by_name()(kept[j]) == name);
    }
}

/// Every named library of the probe, the library under build too, is among
/// the libraries to link, and so has a link-library directive.
pub proof fn named_library_is_linked(m: MetadataView, self_name: Seq<char>, name: Seq<char>)
    requires
        m.libs.contains(name),
    ensures
        has_key(staged_libraries(m, self_name), by_name(), name),
        library_names(directives(m, self_name)).contains(name),
{
    let found = classified_files(m.link_files) + classified_names(m.libs, self_name);
    let kept = without_problem_libraries(found);
    let forced = static_overrides();
    let all = staged(m, self_name);
    if is_problem_library(name) {
        let p = choose|p: int| 0 <= p < problem_libraries().len() && problem_libraries()[p] == name;
        assert(by_name()(all[kept.len() + p]) == name);
    } else {
        let h = choose|h: int| 0 <= h < m.libs.len() && m.libs[h] == name;
        assert(by_name()(found[classified_files(m.link_files).len() + h]) == name);
        other_libraries_stay(found, name);
        let j = choose|j: int| 0 <= j < kept.len() && #[trigger] by_name()(kept[j]) == name;
        assert(by_name()(all[j]) == name);
    }
    first_by_key_same_keys(all, by_name(), name);
    let libraries = staged_libraries(m, self_name);
    let j = choose|j: int| 0 <= j < libraries.len() && #[trigger] by_name()(libraries[j]) == name;
    emitted_library_names(m, self_name);
    assert(names_of(libraries)[j] == name);
}

/// The link-library directives of a build name no library twice, whatever
/// the probe reported: no library is linked both dynamically and statically,
/// and none is linked twice in one way.
pub proof fn emitted_names_are_distinct(m: MetadataView, self_name: Seq<char>)
    ensures
        library_names(directives(m, self_name)).no_duplicates(),
{
    let libraries = staged_libraries(m, self_name);
    let names = library_names(directives(m, self_name));
    emitted_library_names(m, self_name);
    linked_names_are_distinct(m, self_name);
    assert forall|i: int, j: int| 0 <= i < names.len() && 0 <= j < names.len() && i != j implies names[i]
        != names[j] by {
        assert(names[i] == libraries[i].0 && names[j] == libraries[j].0);
        if i < j {
            assert(libraries[i].0 != libraries[j].0);
        } else {
            assert(libraries[j].0 != libraries[i].0);
        }
    }
}

} // verus!
