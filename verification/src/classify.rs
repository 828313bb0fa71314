//! Recovering a bare library name and its link kind from the file name of a
//! link artifact.

use vstd::prelude::*;
use crate::text::{chars_of, has_prefix, has_suffix, window_has_prefix, window_has_suffix};

verus! {

/// A library to link, under its bare name, and whether it is linked
/// dynamically (`true`) or statically (`false`).
#[derive(Debug)]
pub struct ClassifiedLibrary {
    pub name: String,
    pub dynamic: bool,
}

impl View for ClassifiedLibrary {
    type V = (Seq<char>, bool);

    open spec fn view(&self) -> (Seq<char>, bool) {
        (self.name@, self.dynamic)
    }
}

impl ClassifiedLibrary {
    /// A copy of this library.
    pub fn duplicate(&self) -> (copy: ClassifiedLibrary)
        ensures
            copy@ == self@,
    {
        ClassifiedLibrary { name: self.name.clone(), dynamic: self.dynamic }
    }
}

/// The prefix `lib` that library file names conventionally carry.
pub open spec fn lib_prefix() -> Seq<char> {
    seq!['l', 'i', 'b']
}

/// The suffix `.dll.a` of an import library.
pub open spec fn suffix_dll_a() -> Seq<char> {
    seq!['.', 'd', 'l', 'l', '.', 'a']
}

/// The suffix `.a` of a static archive.
pub open spec fn suffix_a() -> Seq<char> {
    seq!['.', 'a']
}

/// The suffix `.lib` of a static library.
pub open spec fn suffix_lib() -> Seq<char> {
    seq!['.', 'l', 'i', 'b']
}

/// The suffix `.dll` of a dynamic-link library.
pub open spec fn suffix_dll() -> Seq<char> {
    seq!['.', 'd', 'l', 'l']
}

/// The suffix `.dylib` of a dynamic library.
pub open spec fn suffix_dylib() -> Seq<char> {
    seq!['.', 'd', 'y', 'l', 'i', 'b']
}

/// The suffix `.so` of a shared object.
pub open spec fn suffix_so() -> Seq<char> {
    seq!['.', 's', 'o']
}

/// The recognised file-name suffixes with the link kind each one stands for
/// (`true` is dynamic), in the order in which they are tried. `.dll.a` comes
/// before `.a` and `.dll`: an import library is linked statically.
pub open spec fn suffix_table() -> Seq<(Seq<char>, bool)> {
    seq![
        (suffix_dll_a(), false),
        (suffix_a(), false),
        (suffix_lib(), false),
        (suffix_dll(), true),
        (suffix_dylib(), true),
        (suffix_so(), true),
    ]
}

/// A character of a version suffix: one of the decimal digits `0` to `9`, or
/// a dot. Numeric characters beyond these ten, such as superscripts and the
/// digits of other scripts, are none: version numbers are written in ASCII.
pub open spec fn is_version_char(c: char) -> bool {
    ('0' <= c && c <= '9') || c == '.'
}

/// `s` without a leading `lib`, if it has one.
pub open spec fn strip_lib_prefix(s: Seq<char>) -> Seq<char> {
    if has_prefix(s, lib_prefix()) {
        s.subrange(3, s.len() as int)
    } else {
        s
    }
}

/// `s` without its last character, if that is a version character.
pub open spec fn strip_version_char(s: Seq<char>) -> Seq<char> {
    if s.len() > 0 && is_version_char(s.last()) {
        s.drop_last()
    } else {
        s
    }
}

/// `s` without the suffix `suffix`, which it must end with.
pub open spec fn without_suffix(s: Seq<char>, suffix: Seq<char>) -> Seq<char>
    recommends
        has_suffix(s, suffix),
{
    s.subrange(0, s.len() - suffix.len())
}

/// The first entry of `table`, from index `from` on, whose suffix `s` ends
/// with decides: the bare name is `s` without that suffix, the kind is the
/// entry's. Where no entry matches, `s` stays whole and is dynamic.
pub open spec fn match_suffixes(s: Seq<char>, table: Seq<(Seq<char>, bool)>, from: int) -> (
    Seq<char>,
    bool,
)
    decreases table.len() - from,
{
    if from < 0 || from >= table.len() {
        (s, true)
    } else if has_suffix(s, table[from].0) {
        (without_suffix(s, table[from].0), table[from].1)
    } else {
        match_suffixes(s, table, from + 1)
    }
}

/// The bare library name and the link kind (`true` is dynamic) that a file
/// name stands for: the name loses a leading `lib`, then one trailing version
/// character, then the first suffix of the table that it ends with.
pub open spec fn library_name_and_kind(name: Seq<char>) -> (Seq<char>, bool) {
    match_suffixes(strip_version_char(strip_lib_prefix(name)), suffix_table(), 0)
}

/// What a table of suffix rules held in vectors stands for.
pub open spec fn table_view(table: Seq<(Vec<char>, bool)>) -> Seq<(Seq<char>, bool)> {
    Seq::new(table.len(), |i: int| (table[i].0@, table[i].1))
}

/// The suffix table as data.
pub fn known_suffixes() -> (table: Vec<(Vec<char>, bool)>)
    ensures
        table_view(table@) == suffix_table(),
{
    let table: Vec<(Vec<char>, bool)> = vec![
        (vec!['.', 'd', 'l', 'l', '.', 'a'], false),
        (vec!['.', 'a'], false),
        (vec!['.', 'l', 'i', 'b'], false),
        (vec!['.', 'd', 'l', 'l'], true),
        (vec!['.', 'd', 'y', 'l', 'i', 'b'], true),
        (vec!['.', 's', 'o'], true),
    ];
    proof {
        let t = table_view(table@);
        assert(t.len() == 6);
        assert(t[0].0 =~= suffix_dll_a());
        assert(t[1].0 =~= suffix_a());
        assert(t[2].0 =~= suffix_lib());
        assert(t[3].0 =~= suffix_dll());
        assert(t[4].0 =~= suffix_dylib());
        assert(t[5].0 =~= suffix_so());
        assert(t =~= suffix_table());
    }
    table
}

/// Whether `c` is one of the decimal digits `0` to `9` or a dot.
pub fn is_version_character(c: char) -> (b: bool)
    ensures
        b == is_version_char(c),
{
    ('0' <= c && c <= '9') || c == '.'
}

/// Splits the file name of a link artifact into the bare library name and
/// the link kind, `true` for dynamic and `false` for static. The result
/// depends on the name alone: two calls on one name give the same pair.
pub fn get_library_name_and_kind(name: &str) -> (res: (&str, bool))
    ensures
        res.0@ == library_name_and_kind(name@).0,
        res.1 == library_name_and_kind(name@).1,
{
    let v: Vec<char> = chars_of(name);
    let n: usize = v.len();
    let lib: Vec<char> = vec!['l', 'i', 'b'];
    proof {
        assert(lib@ =~= lib_prefix());
        assert(v@.subrange(0, n as int) =~= v@);
    }
    let start: usize = if window_has_prefix(&v, 0, n, &lib) {
        3
    } else {
        0
    };
    let ghost stripped = strip_lib_prefix(name@);
    proof {
        assert(stripped =~= v@.subrange(start as int, n as int));
    }
    let end: usize = if start < n && is_version_character(v[n - 1]) {
        n - 1
    } else {
        n
    };
    let ghost core = strip_version_char(stripped);
    proof {
        assert(core =~= v@.subrange(start as int, end as int));
    }
    let table = known_suffixes();
    let ghost rules = suffix_table();
    let mut i: usize = 0;
    while i < table.len()
        invariant
            i <= table@.len(),
            table_view(table@) == rules,
            rules == suffix_table(),
            start <= end <= v@.len(),
            v@ == name@,
            core == v@.subrange(start as int, end as int),
            core == strip_version_char(strip_lib_prefix(name@)),
            match_suffixes(core, rules, 0) == match_suffixes(core, rules, i as int),
        decreases table@.len() - i,
    {
        proof {
            assert(rules[i as int] == (table@[i as int].0@, table@[i as int].1));
        }
        if window_has_suffix(&v, start, end, &table[i].0) {
            let cut: usize = end - table[i].0.len();
            proof {
                assert(without_suffix(core, rules[i as int].0) =~= name@.subrange(
                    start as int,
                    cut as int,
                ));
            }
            return (name.substring_char(start, cut), table[i].1);
        }
        i = i + 1;
    }
    (name.substring_char(start, end), true)
}

/// The library that the file name of a link artifact stands for.
pub fn classify(name: &str) -> (library: ClassifiedLibrary)
    ensures
        library@ == library_name_and_kind(name@),
{
    let (bare, dynamic) = get_library_name_and_kind(name);
    ClassifiedLibrary { name: String::from_str(bare), dynamic }
}

/// A name that ends in `.dll.a` is linked statically, and its bare name is the
/// name without a leading `lib` and without the whole of `.dll.a`.
pub proof fn import_library_is_static(name: Seq<char>)
    requires
        has_suffix(name, suffix_dll_a()),
    ensures
        library_name_and_kind(name) == (
            without_suffix(strip_lib_prefix(name), suffix_dll_a()),
            false,
        ),
        library_name_and_kind(name).0.len() + 6 == strip_lib_prefix(name).len(),
{
    let n = name.len() as int;
    let tail = name.subrange(n - 6, n);
    assert(tail[0] == '.');
    assert(tail[5] == 'a');
    assert(name[n - 6] == tail[0]);
    assert(name[n - 1] == tail[5]);
    let stripped = strip_lib_prefix(name);
    if has_prefix(name, lib_prefix()) {
        let head = name.subrange(0, 3);
        assert(head[0] == 'l' && head[1] == 'i' && head[2] == 'b');
        assert(name[0] == head[0] && name[1] == head[1] && name[2] == head[2]);
        if n < 9 {
            // The prefix and the suffix would overlap in a character that
            // cannot be both a letter of `lib` and the dot of `.dll.a`.
            assert(n - 6 <= 2);
            assert(name[n - 6] == '.');
            assert(false);
        }
        assert(stripped.subrange(stripped.len() - 6, stripped.len() as int) =~= tail);
    } else {
        assert(stripped == name);
    }
    assert(has_suffix(stripped, suffix_dll_a()));
    assert(stripped.last() == 'a');
    assert(strip_version_char(stripped) == stripped);
    assert(suffix_table()[0] == (suffix_dll_a(), false));
}

/// A name that, once a leading `lib` and one trailing version character are
/// gone, ends with none of the suffixes of the table is linked dynamically,
/// and what is left of the name is the bare name.
pub proof fn unrecognised_suffix_is_dynamic(name: Seq<char>)
    requires
        forall|i: int|
            0 <= i < suffix_table().len() ==> !has_suffix(
                strip_version_char(strip_lib_prefix(name)),
                #[trigger] suffix_table()[i].0,
            ),
    ensures
        library_name_and_kind(name) == (strip_version_char(strip_lib_prefix(name)), true),
{
    let core = strip_version_char(strip_lib_prefix(name));
    no_match_from(core, suffix_table(), 0);
}

/// Where no entry of `table` from `from` on matches, `s` stays whole and is
/// dynamic.
pub proof fn no_match_from(s: Seq<char>, table: Seq<(Seq<char>, bool)>, from: int)
    requires
        0 <= from,
        forall|i: int| from <= i < table.len() ==> !has_suffix(s, #[trigger] table[i].0),
    ensures
        match_suffixes(s, table, from) == (s, true),
    decreases table.len() - from,
{
    if from < table.len() {
        no_match_from(s, table, from + 1);
    }
}

} // verus!
