//! What holds of functions and the places that they start at.
use crate::control::DebugControl;
use crate::hooks::on_bind_function;
use crate::mapping::{FunctionId, FunctionMapping, SourceFileInfo};
use crate::path::{has_extension, join, parent};
use crate::source::{Place, SourceRef, Standing};
use vstd::prelude::*;

verus! {

/// Whether the function that starts at `start` of `file` is the last one that starts at `line` or
/// above it.
pub open spec fn starts_last(
    functions: Map<Place, FunctionId>,
    file: Seq<char>,
    start: u32,
    line: u32,
) -> bool {
    &&& start <= line
    &&& functions.contains_key((file, start))
    &&& forall|other: u32| start < other <= line ==> !#[trigger] functions.contains_key((file, other))
}

/// Whether `file` is the lower case of `path`, and `path` is found under it: so for every path in
/// ASCII, and for every other that differs from its lower case in ASCII letters at most.
pub open spec fn found_under(path: Seq<char>, file: Seq<char>) -> bool {
    ||| vstd::utf8::is_ascii_chars(path) && crate::laws::texts::lowers(file, path)
    ||| file == crate::text::lower(path) && crate::mapping::same_file(file, path)
}

/// Whether `file` is the lower case of `path`, and differs from it in ASCII letters at most.
pub open spec fn lowers_to(path: Seq<char>, file: Seq<char>) -> bool {
    crate::laws::texts::lowers(file, path) && (vstd::utf8::is_ascii_chars(path) || file == crate::text::lower(path))
}

/// The lower case of a path that differs from it in ASCII letters at most.
pub proof fn lemma_lowers_to(path: Seq<char>, file: Seq<char>)
    requires
        lowers_to(path, file),
    ensures
        file == crate::text::lower(path),
        file == crate::text::ascii_lower(path),
        found_under(path, file),
{
    crate::laws::texts::lemma_ascii_lowers(path);
    lemma_lowers_unique(file, crate::text::ascii_lower(path), path);
    crate::text::law_ascii_lower_idempotent(path);
}

/// A text has one ASCII lower case.
pub proof fn lemma_lowers_unique(a: Seq<char>, b: Seq<char>, s: Seq<char>)
    requires
        crate::laws::texts::lowers(a, s),
        crate::laws::texts::lowers(b, s),
    ensures
        a == b,
{
    assert forall|i: int| 0 <= i < s.len() implies a[i] == b[i] by {
        assert(a[i] as int == b[i] as int);
    }
    assert(a =~= b);
}

proof fn lemma_found_under(path: Seq<char>, file: Seq<char>)
    requires
        found_under(path, file),
    ensures
        file == crate::text::lower(path),
        crate::mapping::same_file(file, path),
{
    if vstd::utf8::is_ascii_chars(path) && crate::laws::texts::lowers(file, path) {
        crate::laws::texts::lemma_ascii_lowers(path);
        lemma_lowers_unique(file, crate::text::lower(path), path);
        crate::text::law_ascii_lower_idempotent(path);
    }
}

/// Where a function of the file starts at the line or above it, the last such is the one at the
/// line.
pub proof fn lemma_starts_last(
    functions: Map<Place, FunctionId>,
    path: Seq<char>,
    file: Seq<char>,
    start: u32,
    line: u32,
)
    requires
        found_under(path, file),
        starts_last(functions, file, start, line),
    ensures
        crate::mapping::function_at(functions, path, line) == Some(functions[(file, start)]),
{
    let from = crate::mapping::search_key(path, line);
    let k = (file, start);
    lemma_found_under(path, file);
    crate::source::law_place_order_irreflexive(from);
    assert forall|j: Place|
        #![trigger functions.contains_key(j)]
        functions.contains_key(j) && !crate::source::place_less(
            j,
            from,
        ) implies !crate::source::place_less(j, k) by {
        if j.0 == file {
            assert(j == (file, j.1));
            crate::source::law_place_order_irreflexive((file, start));
        }
    }
    assert(crate::mapping::is_first_from(functions, from, k));
    crate::mapping::lemma_first_unique(functions, from);
}

/// Where no function of the file starts at the line or above it, there is none at the line.
pub proof fn lemma_starts_below(
    functions: Map<Place, FunctionId>,
    path: Seq<char>,
    file: Seq<char>,
    line: u32,
)
    requires
        lowers_to(path, file),
        forall|start: u32| start <= line ==> !#[trigger] functions.contains_key((file, start)),
    ensures
        crate::mapping::function_at(functions, path, line) is None,
{
    lemma_lowers_to(path, file);
    crate::mapping::law_function_at_starts_last(functions, path, line);
}

/// A line of a file leads to the function that starts last at the line or above it.
pub proof fn law_line_leads_to_function(
    m: &FunctionMapping,
    path: &str,
    line: u32,
    file: Seq<char>,
    start: u32,
    r: Option<FunctionId>,
)
    requires
        found_under(path@, file),
        starts_last(m@.functions, file, start, line),
        call_ensures(FunctionMapping::get_by_loc, (m, path, line), r),
    ensures
        r == Some(m@.functions[(file, start)]),
{
    lemma_starts_last(m@.functions, path@, file, start, line);
}

/// A line above all functions of a file leads to none, and neither does a line of a file without
/// functions.
pub proof fn law_line_above_functions(
    m: &FunctionMapping,
    path: &str,
    line: u32,
    file: Seq<char>,
    r: Option<FunctionId>,
)
    requires
        lowers_to(path@, file),
        forall|start: u32| start <= line ==> !#[trigger] m@.functions.contains_key((file, start)),
        call_ensures(FunctionMapping::get_by_loc, (m, path, line), r),
    ensures
        r is None,
{
    lemma_starts_below(m@.functions, path@, file, line);
}

/// A file of which nothing is recorded, in whatever case of its ASCII letters, has no functions.
pub proof fn law_unknown_file(
    m: &FunctionMapping,
    path: &str,
    line: u32,
    r: Option<FunctionId>,
    all: Vec<FunctionId>,
)
    requires
        forall|k: Place| #[trigger]
            m@.functions.contains_key(k) ==> !(exists|low: Seq<char>| #[trigger]
                crate::laws::texts::lowers(low, k.0) && crate::laws::texts::lowers(low, path@)),
        call_ensures(FunctionMapping::get_by_loc, (m, path, line), r),
        call_ensures(FunctionMapping::get_by_file, (m, path), all),
    ensures
        r is None,
        all@.len() == 0,
{
    let functions = m@.functions;
    crate::laws::texts::lemma_ascii_lowers(path@);
    assert forall|k: Place| #[trigger] functions.contains_key(k) implies !crate::mapping::same_file(
        k.0,
        path@,
    ) by {
        crate::laws::texts::lemma_ascii_lowers(k.0);
    }
    let ks = choose|ks: Seq<Place>| #[trigger]
        crate::mapping::lists_run(functions, path@, u32::MAX, ks) && all@ == ks.map_values(
            |k: Place| m@.functions[k],
        );
    if ks.len() > 0 {
        assert(ks.contains(ks[0]));
        assert(crate::mapping::in_run(functions, path@, u32::MAX, ks[0]));
        crate::source::law_place_order_irreflexive(ks[0]);
    }
}

/// Whether `list` holds the functions of a file that start at `starts`, which are all of those at
/// `line` or above it, from the last to the first.
pub open spec fn lists_functions(
    functions: Map<Place, FunctionId>,
    file: Seq<char>,
    line: u32,
    starts: Seq<u32>,
    list: Seq<FunctionId>,
) -> bool {
    &&& starts.len() == list.len()
    &&& forall|i: int|
        0 <= i < starts.len() ==> (#[trigger] starts[i]) <= line && functions.contains_key(
            (file, starts[i]),
        ) && functions[(file, starts[i])] == list[i]
    &&& forall|i: int, j: int|
        0 <= i < j < starts.len() ==> #[trigger] starts[i] > #[trigger] starts[j]
    &&& forall|start: u32|
        start <= line && #[trigger] functions.contains_key((file, start)) ==> starts.contains(start)
}

proof fn lemma_run(
    functions: Map<Place, FunctionId>,
    path: Seq<char>,
    file: Seq<char>,
    line: u32,
    ks: Seq<Place>,
    list: Seq<FunctionId>,
)
    requires
        lowers_to(path, file),
        crate::mapping::lists_run(functions, path, line, ks),
        list == ks.map_values(|k: Place| functions[k]),
    ensures
        exists|starts: Seq<u32>| #[trigger] lists_functions(functions, file, line, starts, list),
{
    let starts = ks.map_values(|k: Place| k.1);
    lemma_lowers_to(path, file);
    assert forall|i: int| 0 <= i < starts.len() implies (#[trigger] starts[i]) <= line
        && functions.contains_key((file, starts[i])) && functions[(file, starts[i])] == list[i] by {
        assert(ks.contains(ks[i]));
        crate::mapping::law_run_of_file(functions, path, line, ks[i]);
        assert(ks[i] == (file, starts[i]));
    }
    assert forall|i: int, j: int| 0 <= i < j < starts.len() implies #[trigger] starts[i]
        > #[trigger] starts[j] by {
        assert(crate::source::place_less(ks[i], ks[j]));
        assert(ks.contains(ks[i]) && ks.contains(ks[j]));
        crate::mapping::law_run_of_file(functions, path, line, ks[i]);
        crate::mapping::law_run_of_file(functions, path, line, ks[j]);
        crate::source::law_place_order_irreflexive((file, line));
    }
    assert forall|start: u32|
        start <= line && #[trigger] functions.contains_key((file, start)) implies starts.contains(
        start,
    ) by {
        crate::mapping::law_run_of_file(functions, path, line, (file, start));
        assert(ks.contains((file, start)));
        let i = choose|i: int| 0 <= i < ks.len() && ks[i] == (file, start);
        assert(starts[i] == start);
    }
    assert(lists_functions(functions, file, line, starts, list));
}

/// The functions that precede a line are all those of the file that start at the line or above it,
/// from the last to the first; those of the file are all that start in it.
pub proof fn law_functions_of_file(
    m: &FunctionMapping,
    path: &str,
    line: u32,
    file: Seq<char>,
    preceding: Vec<FunctionId>,
    all: Vec<FunctionId>,
)
    requires
        lowers_to(path@, file),
        call_ensures(FunctionMapping::get_fns_preceding_line, (m, path, line), preceding),
        call_ensures(FunctionMapping::get_by_file, (m, path), all),
    ensures
        exists|starts: Seq<u32>| #[trigger]
            lists_functions(m@.functions, file, line, starts, preceding@),
        exists|starts: Seq<u32>| #[trigger]
            lists_functions(m@.functions, file, u32::MAX, starts, all@),
{
    let functions = m@.functions;
    let ks = choose|ks: Seq<Place>| #[trigger]
        crate::mapping::lists_run(functions, path@, line, ks) && preceding@ == ks.map_values(
            |k: Place| m@.functions[k],
        );
    assert(preceding@ =~= ks.map_values(|k: Place| functions[k]));
    lemma_run(functions, path@, file, line, ks, preceding@);
    let ks = choose|ks: Seq<Place>| #[trigger]
        crate::mapping::lists_run(functions, path@, u32::MAX, ks) && all@ == ks.map_values(
            |k: Place| m@.functions[k],
        );
    assert(all@ =~= ks.map_values(|k: Place| functions[k]));
    lemma_run(functions, path@, file, u32::MAX, ks, all@);
}

/// A function has a place exactly where one is recorded, and it is that one.
pub proof fn law_place_of_function(m: &FunctionMapping, f: FunctionId, r: Option<&SourceRef>)
    requires
        call_ensures(FunctionMapping::get, (m, f), r),
    ensures
        r is Some <==> m@.sources.contains_key(f),
        r matches Some(place) ==> place@ == m@.sources[f],
{
}

/// A place has the line that it was made with, and the path in lower case.
pub proof fn law_new_place(path: &str, line: u32, r: SourceRef, file: &str, at: u32)
    requires
        call_ensures(SourceRef::new, (path, line), r),
        call_ensures(SourceRef::file_path, (&r,), file),
        call_ensures(SourceRef::line, (&r,), at),
    ensures
        at == line,
        vstd::utf8::is_ascii_chars(path@) ==> crate::laws::texts::lowers(file@, path@),
{
    crate::laws::texts::lemma_ascii_lowers(path@);
}

/// Within one file later lines come first, and places in two files stand as the files do.
pub proof fn law_order_of_places(a: &SourceRef, b: &SourceRef, r: Standing)
    requires
        call_ensures(SourceRef::compare, (a, b), r),
    ensures
        a@.0 == b@.0 ==> (r is Before <==> a@.1 > b@.1) && (r is After <==> a@.1 < b@.1),
        a@.0 != b@.0 ==> (r is Before <==> precedes(
            vstd::utf8::encode_utf8(a@.0),
            vstd::utf8::encode_utf8(b@.0),
        )),
        r is Same <==> a@ == b@,
{
    crate::source::law_place_order_irreflexive((a@.0, a@.1));
    lemma_precedes(vstd::utf8::encode_utf8(a@.0), vstd::utf8::encode_utf8(b@.0));
}

/// Whether the bytes `a` precede `b`: at the first place where they differ, `a` is smaller or ends.
pub open spec fn precedes(a: Seq<u8>, b: Seq<u8>) -> bool {
    exists|n: int| #[trigger] differ_at(a, b, n)
}

/// Whether `a` and `b` are the same up to `n`, where `a` is smaller or ends.
pub open spec fn differ_at(a: Seq<u8>, b: Seq<u8>, n: int) -> bool {
    &&& 0 <= n < b.len()
    &&& n <= a.len()
    &&& forall|i: int| 0 <= i < n ==> #[trigger] a[i] == b[i]
    &&& n == a.len() || a[n] < b[n]
}

proof fn lemma_precedes(a: Seq<u8>, b: Seq<u8>)
    ensures
        crate::source::bytes_less(a, b) <==> precedes(a, b),
    decreases a.len(),
{
    if a.len() == 0 {
        if b.len() > 0 {
            assert(differ_at(a, b, 0));
        }
    } else if b.len() > 0 {
        let c = a.drop_first();
        let d = b.drop_first();
        lemma_precedes(c, d);
        if a[0] < b[0] {
            assert(differ_at(a, b, 0));
        } else if a[0] == b[0] {
            if precedes(c, d) {
                let n = choose|n: int| #[trigger] differ_at(c, d, n);
                assert forall|i: int| 0 <= i < n + 1 implies #[trigger] a[i] == b[i] by {
                    if i > 0 {
                        assert(c[i - 1] == d[i - 1]);
                    }
                }
                assert(differ_at(a, b, n + 1));
            }
            if precedes(a, b) {
                let n = choose|n: int| #[trigger] differ_at(a, b, n);
                assert(n > 0);
                assert forall|i: int| 0 <= i < n - 1 implies #[trigger] c[i] == d[i] by {
                    assert(a[i + 1] == b[i + 1]);
                }
                assert(differ_at(c, d, n - 1));
            }
        } else if precedes(a, b) {
            let n = choose|n: int| #[trigger] differ_at(a, b, n);
            if n > 0 {
                assert(a[0] == b[0]);
            }
        }
    }
}

/// Whether the function `id` is recorded at `line` of `path`, and all that was known before is
/// still known, except what had to give way: the place that the function had, and the function that
/// had the place.
pub open spec fn recorded(
    before: crate::mapping::MappingView,
    after: crate::mapping::MappingView,
    id: FunctionId,
    index: u32,
    path: Seq<char>,
    line: u32,
) -> bool {
    &&& after.paths.contains_key(index) && after.paths[index] == path
    &&& after.sources.contains_key(id) && after.sources[id] == (path, line)
    &&& after.functions.contains_key((path, line)) && after.functions[(path, line)] == id
    &&& forall|i: u32|
        i != index ==> (#[trigger] after.paths.contains_key(i) <==> before.paths.contains_key(i))
            && (before.paths.contains_key(i) ==> after.paths[i] == before.paths[i])
    &&& forall|f: FunctionId|
        f != id ==> (#[trigger] after.sources.contains_key(f) <==> before.sources.contains_key(f)
            && before.sources[f] != (path, line)) && (after.sources.contains_key(f)
            ==> after.sources[f] == before.sources[f])
    &&& forall|p: Place|
        p != (path, line) ==> (#[trigger] after.functions.contains_key(p)
            <==> before.functions.contains_key(p) && before.functions[p] != id) && (
        after.functions.contains_key(p) ==> after.functions[p] == before.functions[p])
}

/// A function that is added is recorded at its line of the path of its file: the one that was
/// recorded first for the file.
pub proof fn law_function_is_recorded(
    m: &mut FunctionMapping,
    id: FunctionId,
    source: &SourceFileInfo,
    exe: Option<&str>,
    line: u32,
)
    requires
        old(m).wf(),
        call_ensures(FunctionMapping::add, (m, id, source, exe, line), ()),
    ensures
        final(m)@.paths.contains_key(source.index),
        recorded(old(m)@, final(m)@, id, source.index, final(m)@.paths[source.index], line),
        old(m)@.paths.contains_key(source.index) ==> final(m)@.paths[source.index]
            == old(m)@.paths[source.index],
{
    old(m).law_directions_agree();
}

/// Whether the name that `path` ends with has the extension `ext`.
pub open spec fn ends_with_extension(path: Seq<char>, ext: Seq<char>) -> bool {
    let dot = path.len() - ext.len() - 1;
    &&& ext.len() > 0
    &&& crate::laws::paths::without_slash(ext)
    &&& forall|i: int| 0 <= i < ext.len() ==> #[trigger] ext[i] != '.'
    &&& dot > 0
    &&& path.skip(dot) == seq!['.'] + ext
    &&& !crate::laws::paths::slash(path[dot - 1])
    &&& !crate::laws::paths::two_slashes(path)
    &&& !(crate::laws::paths::on_drive(path) && dot == 2)
}

proof fn lemma_last_slash(s: Seq<char>, n: int) -> (k: int)
    requires
        0 <= n <= s.len(),
    ensures
        -1 <= k < n,
        k >= 0 ==> crate::laws::paths::slash(s[k]),
        forall|i: int| k < i < n ==> !crate::laws::paths::slash(#[trigger] s[i]),
    decreases n,
{
    if n == 0 {
        -1
    } else if crate::laws::paths::slash(s[n - 1]) {
        n - 1
    } else {
        lemma_last_slash(s, n - 1)
    }
}

/// The extension that a path ends with is its extension.
pub proof fn lemma_ends_with_extension(path: Seq<char>, ext: Seq<char>)
    requires
        ends_with_extension(path, ext),
    ensures
        crate::path::extension_of(path) == Some(ext),
{
    let dot = path.len() - ext.len() - 1;
    let k = lemma_last_slash(path, path.len() as int);
    assert(path[dot] == path.skip(dot)[0]);
    assert forall|i: int| dot < i < path.len() implies path[i] == ext[i - dot - 1] by {
        assert(path[i] == path.skip(dot)[i - dot]);
    }
    if k > dot {
        assert(!crate::laws::paths::slash(ext[k - dot - 1]));
    }
    assert(k < dot - 1);
    if k >= 0 {
        let base = path.take(k);
        let stem = path.subrange(k + 1, dot);
        assert(path =~= crate::laws::paths::below(base, path[k], stem.push('.') + ext));
        crate::laws::paths::lemma_extension(base, path[k], stem, ext);
    } else if crate::laws::paths::on_drive(path) {
        let stem = path.subrange(2, dot);
        assert(path.skip(2) =~= stem.push('.') + ext);
        crate::laws::paths::lemma_drive_extension(path, stem, ext);
    } else {
        let stem = path.take(dot);
        assert(path =~= stem.push('.') + ext);
        crate::laws::paths::lemma_bare_extension(stem, ext);
    }
}

/// A function in a new `.reds` file is recorded under the lower case of the path that the game
/// reported, whatever the executable, and is found by that path and its line, unless the path
/// differs from its lower case in more than ASCII letters.
pub proof fn law_reds_file(
    m: &mut FunctionMapping,
    id: FunctionId,
    source: &SourceFileInfo,
    exe: Option<&str>,
    line: u32,
    path: &str,
    reds: &str,
)
    requires
        old(m).wf(),
        !old(m)@.paths.contains_key(source.index),
        path@ == source.path@,
        ends_with_extension(source.path@, "reds"@) || (reds@ == "reds"@ && call_ensures(
            has_extension,
            (path, reds),
            true,
        )),
        call_ensures(FunctionMapping::add, (m, id, source, exe, line), ()),
    ensures
        final(m)@.sources.contains_key(id),
        final(m)@.sources[id].0 == crate::text::lower(source.path@),
        final(m)@.sources[id].1 == line,
        vstd::utf8::is_ascii_chars(source.path@) ==> crate::laws::texts::lowers(
            final(m)@.sources[id].0,
            source.path@,
        ),
        found_under(source.path@, final(m)@.sources[id].0) ==> forall|r: Option<FunctionId>|
            call_ensures(FunctionMapping::get_by_loc, (&*final(m), path, line), r) ==> r == Some(id),
{
    if ends_with_extension(source.path@, "reds"@) {
        lemma_ends_with_extension(source.path@, "reds"@);
    }
    crate::laws::texts::lemma_ascii_lowers(source.path@);
    old(m).law_directions_agree();
    let file = final(m)@.sources[id].0;
    if found_under(path@, file) {
        assert(starts_last(final(m)@.functions, file, line, line));
        lemma_starts_last(final(m)@.functions, path@, file, line, line);
    }
}

/// A function in a new file of another kind is recorded under the lower case of the reported path
/// where the executable is not known.
pub proof fn law_other_file_without_executable(
    m: &mut FunctionMapping,
    id: FunctionId,
    source: &SourceFileInfo,
    line: u32,
)
    requires
        old(m).wf(),
        !old(m)@.paths.contains_key(source.index),
        call_ensures(FunctionMapping::add, (m, id, source, None::<&str>, line), ()),
    ensures
        final(m)@.sources.contains_key(id),
        final(m)@.sources[id].0 == crate::text::lower(source.path@),
        final(m)@.sources[id].1 == line,
        vstd::utf8::is_ascii_chars(source.path@) ==> crate::laws::texts::lowers(
            final(m)@.sources[id].0,
            source.path@,
        ),
{
    crate::laws::texts::lemma_ascii_lowers(source.path@);
}

/// Whether `exe` is the file `c` in the directory `b` in the directory `a` below `root`.
pub open spec fn lies_below(
    exe: Seq<char>,
    root: Seq<char>,
    a: Seq<char>,
    b: Seq<char>,
    c: Seq<char>,
    s: char,
    t: char,
    u: char,
) -> bool {
    &&& crate::laws::paths::slash(s) && crate::laws::paths::slash(t) && crate::laws::paths::slash(u)
    &&& crate::laws::paths::is_name(a) && a.last() != '.'
    &&& crate::laws::paths::is_name(b) && b.last() != '.'
    &&& crate::laws::paths::is_name(c)
    &&& exe == crate::laws::paths::below(crate::laws::paths::below(crate::laws::paths::below(root, s, a), t, b), u, c)
    &&& !crate::laws::paths::two_slashes(exe)
    &&& !(crate::laws::paths::on_drive(a) && root.len() == 0)
}

proof fn lemma_front_plain(base: Seq<char>, c: char, name: Seq<char>)
    requires
        !crate::laws::paths::two_slashes(crate::laws::paths::below(base, c, name)),
        name.len() > 0,
        crate::laws::paths::slash(c),
    ensures
        !crate::laws::paths::two_slashes(base),
        !crate::laws::paths::two_slashes(base.push(c)),
{
    let s = crate::laws::paths::below(base, c, name);
    if base.len() >= 2 {
        assert(s[0] == base[0] && s[1] == base[1]);
    }
    if base.push(c).len() >= 2 {
        assert(s[0] == base.push(c)[0] && s[1] == base.push(c)[1]);
    }
}

proof fn lemma_below_is_directory(base: Seq<char>, c: char, name: Seq<char>)
    requires
        crate::laws::paths::slash(c),
        crate::laws::paths::is_name(name),
        name.last() != '.',
    ensures
        crate::laws::paths::is_directory(crate::laws::paths::below(base, c, name)),
{
    let s = crate::laws::paths::below(base, c, name);
    assert(s.last() == name.last());
    assert(!crate::laws::paths::slash(name[name.len() - 1]));
    if s.len() == 2 {
        assert(s[0] == c);
    }
}

proof fn lemma_root_of(
    exe: Seq<char>,
    root: Seq<char>,
    a: Seq<char>,
    b: Seq<char>,
    c: Seq<char>,
    s: char,
    t: char,
    u: char,
)
    requires
        lies_below(exe, root, a, b, c, s, t, u),
    ensures
        crate::laws::paths::is_directory(root) ==> crate::mapping::game_root(exe) == Some(root),
        crate::laws::paths::is_bare(root) ==> crate::mapping::game_root(exe) == Some(root.push(s)),
{
    let x = crate::laws::paths::below(root, s, a);
    let y = crate::laws::paths::below(x, t, b);
    lemma_below_is_directory(root, s, a);
    lemma_below_is_directory(x, t, b);
    lemma_front_plain(y, u, c);
    lemma_front_plain(x, t, b);
    crate::laws::paths::lemma_parent(y, u, c);
    crate::laws::paths::lemma_parent(x, t, b);
    crate::laws::paths::lemma_parent(root, s, a);
}

/// The scripts of RedMod in the directory of the game.
pub open spec fn redmod_scripts(root: Seq<char>, s: char) -> Seq<char> {
    (if crate::laws::paths::is_bare(root) {
        root.push(s)
    } else {
        root.push('\\')
    }) + "tools"@ + seq!['\\'] + "redmod"@ + seq!['\\'] + "scripts"@ + seq!['\\']
}

proof fn lemma_redmod(root: Seq<char>, s: char, path: Seq<char>)
    requires
        crate::laws::paths::slash(s),
        crate::laws::paths::is_directory(root) || crate::laws::paths::is_bare(root),
        !crate::laws::paths::two_slashes(root),
        !crate::laws::paths::two_slashes(root.push(s)),
        crate::laws::paths::is_relative(path),
    ensures
        crate::mapping::redmod_path(
            if crate::laws::paths::is_bare(root) {
                root.push(s)
            } else {
                root
            },
            path,
        ) == redmod_scripts(root, s) + path,
{
    reveal_strlit("tools");
    reveal_strlit("redmod");
    reveal_strlit("scripts");
    let base = if crate::laws::paths::is_bare(root) {
        root.push(s)
    } else {
        root
    };
    let tools = crate::path::joined(base, "tools"@);
    let redmod = crate::path::joined(tools, "redmod"@);
    let scripts = crate::path::joined(redmod, "scripts"@);
    if base.len() >= 2 {
        assert(!crate::laws::paths::starts_verbatim(base));
    }
    crate::laws::paths::lemma_join_relative(base, "tools"@);
    assert(tools.last() == 's');
    assert(tools.len() > 5 && tools[0] == base[0]);
    assert(!crate::laws::paths::starts_verbatim(tools)) by {
        if base.len() >= 2 {
            assert(tools[0] == base[0] && tools[1] == base[1]);
        } else {
            assert(base.len() == 1);
            if crate::laws::paths::slash(base[0]) {
                assert(tools[1] == 't');
            }
        }
    }
    crate::laws::paths::lemma_join_relative(tools, "redmod"@);
    assert(redmod.last() == 'd');
    assert(redmod[0] == tools[0] && redmod[1] == tools[1]);
    assert(!crate::laws::paths::starts_verbatim(redmod)) by {
        assert(redmod[2] == tools[2] && redmod[3] == tools[3]);
    }
    crate::laws::paths::lemma_join_relative(redmod, "scripts"@);
    assert(scripts.last() == 's');
    assert(!crate::laws::paths::starts_verbatim(scripts)) by {
        assert(scripts[0] == redmod[0] && scripts[1] == redmod[1] && scripts[2] == redmod[2]
            && scripts[3] == redmod[3]);
    }
    crate::laws::paths::lemma_join_relative(scripts, path);
    assert(crate::mapping::redmod_path(base, path) =~= redmod_scripts(root, s) + path);
}

/// A function in a new file of another kind is recorded below the scripts of RedMod, in the
/// directory three levels above the executable, under the path that the game reported, all in lower
/// case.
pub proof fn law_other_file(
    m: &mut FunctionMapping,
    id: FunctionId,
    source: &SourceFileInfo,
    exe: &str,
    line: u32,
    ext: Seq<char>,
    root: Seq<char>,
    a: Seq<char>,
    b: Seq<char>,
    c: Seq<char>,
    s: char,
    t: char,
    u: char,
)
    requires
        old(m).wf(),
        !old(m)@.paths.contains_key(source.index),
        ends_with_extension(source.path@, ext),
        ext != "reds"@,
        crate::laws::paths::is_relative(source.path@),
        lies_below(exe@, root, a, b, c, s, t, u),
        crate::laws::paths::is_directory(root) || crate::laws::paths::is_bare(root),
        call_ensures(FunctionMapping::add, (m, id, source, Some(exe), line), ()),
    ensures
        final(m)@.sources.contains_key(id),
        final(m)@.sources[id].0 == crate::text::lower(redmod_scripts(root, s) + source.path@),
        final(m)@.sources[id].1 == line,
        vstd::utf8::is_ascii_chars(source.path@) && vstd::utf8::is_ascii_chars(exe@) ==> crate::laws::texts::lowers(
            final(m)@.sources[id].0,
            redmod_scripts(root, s) + source.path@,
        ),
{
    let x = crate::laws::paths::below(root, s, a);
    let y = crate::laws::paths::below(x, t, b);
    lemma_ends_with_extension(source.path@, ext);
    lemma_root_of(exe@, root, a, b, c, s, t, u);
    lemma_front_plain(y, u, c);
    lemma_front_plain(x, t, b);
    lemma_front_plain(root, s, a);
    lemma_redmod(root, s, source.path@);
    let whole = redmod_scripts(root, s) + source.path@;
    reveal_strlit("tools");
    reveal_strlit("redmod");
    reveal_strlit("scripts");
    assert forall|i: int| 0 <= i < root.len() implies root[i] == exe@[i] by {}
    if vstd::utf8::is_ascii_chars(source.path@) && vstd::utf8::is_ascii_chars(exe@) {
        assert(vstd::utf8::is_ascii_chars(whole));
    }
    crate::laws::texts::lemma_ascii_lowers(whole);
}

/// Where the executable has fewer than three directories above it, a file of another kind is
/// recorded under the lower case of the reported path too.
pub proof fn law_other_file_of_shallow_executable(
    m: &mut FunctionMapping,
    id: FunctionId,
    source: &SourceFileInfo,
    exe: &str,
    line: u32,
    root: Seq<char>,
    a: Seq<char>,
    b: Seq<char>,
    s: char,
    t: char,
)
    requires
        old(m).wf(),
        !old(m)@.paths.contains_key(source.index),
        crate::laws::paths::slash(s) && crate::laws::paths::slash(t),
        crate::laws::paths::is_bare(root),
        crate::laws::paths::is_name(a) && a.last() != '.',
        crate::laws::paths::is_name(b),
        !crate::laws::paths::two_slashes(exe@),
        !(crate::laws::paths::on_drive(a) && root.len() == 0),
        exe@ == crate::laws::paths::below(crate::laws::paths::below(root, s, a), t, b) || exe@ == crate::laws::paths::below(root, s, a),
        call_ensures(FunctionMapping::add, (m, id, source, Some(exe), line), ()),
    ensures
        final(m)@.sources.contains_key(id),
        final(m)@.sources[id].0 == crate::text::lower(source.path@),
        final(m)@.sources[id].1 == line,
        vstd::utf8::is_ascii_chars(source.path@) ==> crate::laws::texts::lowers(
            final(m)@.sources[id].0,
            source.path@,
        ),
{
    let x = crate::laws::paths::below(root, s, a);
    lemma_below_is_directory(root, s, a);
    if exe@ == crate::laws::paths::below(x, t, b) {
        lemma_front_plain(x, t, b);
        crate::laws::paths::lemma_parent(x, t, b);
    }
    crate::laws::paths::lemma_parent(root, s, a);
    let top = root.push(s);
    if root.len() == 2 {
        assert(top[0] == root[0] && top[1] == root[1] && top[2] == s);
    }
    crate::laws::paths::lemma_no_parent(top);
    crate::laws::texts::lemma_ascii_lowers(source.path@);
}

/// In general, a function in a new file that is no `.reds` file is recorded under the lower case of
/// its path joined to the scripts of RedMod, in the third parent of the executable.
pub proof fn law_other_file_in_general(
    m: &mut FunctionMapping,
    id: FunctionId,
    source: &SourceFileInfo,
    exe: &str,
    line: u32,
    path: &str,
    texts: (&str, &str, &str, &str),
    ups: (Option<String>, Option<String>, Option<String>),
    dirs: (&str, &str, &str, &str, &str, &str),
    joins: (String, String, String, String),
)
    requires
        old(m).wf(),
        !old(m)@.paths.contains_key(source.index),
        path@ == source.path@,
        texts.0@ == "reds"@ && texts.1@ == "tools"@ && texts.2@ == "redmod"@ && texts.3@
            == "scripts"@,
        call_ensures(has_extension, (path, texts.0), false),
        call_ensures(parent, (exe,), ups.0),
        ups.0 matches Some(up) && up@ == dirs.0@,
        call_ensures(parent, (dirs.0,), ups.1),
        ups.1 matches Some(up) && up@ == dirs.1@,
        call_ensures(parent, (dirs.1,), ups.2),
        ups.2 matches Some(up) && up@ == dirs.2@,
        call_ensures(join, (dirs.2, texts.1), joins.0),
        joins.0@ == dirs.3@,
        call_ensures(join, (dirs.3, texts.2), joins.1),
        joins.1@ == dirs.4@,
        call_ensures(join, (dirs.4, texts.3), joins.2),
        joins.2@ == dirs.5@,
        call_ensures(join, (dirs.5, path), joins.3),
        call_ensures(FunctionMapping::add, (m, id, source, Some(exe), line), ()),
    ensures
        final(m)@.sources.contains_key(id),
        final(m)@.sources[id].0 == crate::text::lower(joins.3@),
        final(m)@.sources[id].1 == line,
{
}

/// In general, a function in a new file is recorded under the lower case of its reported path where
/// the executable has no third parent.
pub proof fn law_other_file_without_third_parent(
    m: &mut FunctionMapping,
    id: FunctionId,
    source: &SourceFileInfo,
    exe: &str,
    line: u32,
    first: &str,
    second: &str,
    ups: (Option<String>, Option<String>, Option<String>),
)
    requires
        old(m).wf(),
        !old(m)@.paths.contains_key(source.index),
        call_ensures(parent, (exe,), ups.0),
        ups.0 matches Some(up) ==> up@ == first@ && call_ensures(parent, (first,), ups.1),
        ups.0 is Some ==> (ups.1 matches Some(up) ==> up@ == second@ && call_ensures(
            parent,
            (second,),
            ups.2,
        )),
        ups.0 is None || ups.1 is None || ups.2 is None,
        call_ensures(FunctionMapping::add, (m, id, source, Some(exe), line), ()),
    ensures
        final(m)@.sources.contains_key(id),
        final(m)@.sources[id].0 == crate::text::lower(source.path@),
        final(m)@.sources[id].1 == line,
{
}

/// A function that the game binds is taken up as it is added to the mapping, and nothing else of
/// the controls changes. One without a function or without a source is left out.
pub proof fn law_bound_function(
    control: &mut DebugControl,
    m: &mut FunctionMapping,
    id: FunctionId,
    source: &SourceFileInfo,
    exe: Option<&str>,
    line: u32,
)
    requires
        old(control)@.functions == old(m)@,
        call_ensures(on_bind_function, (control, Some(id), Some(source), exe, line), ()),
        call_ensures(FunctionMapping::add, (m, id, source, exe, line), ()),
    ensures
        final(control)@.functions == final(m)@,
        final(control)@.breakpoints == old(control)@.breakpoints,
        final(control)@.step_mode == old(control)@.step_mode,
        final(control)@.last_break_frame == old(control)@.last_break_frame,
{
}

/// What has no function or no source is left out.
pub proof fn law_unbound_function(
    control: &mut DebugControl,
    func: Option<FunctionId>,
    source: Option<&SourceFileInfo>,
    exe: Option<&str>,
    line: u32,
)
    requires
        func is None || source is None,
        call_ensures(on_bind_function, (control, func, source, exe, line), ()),
    ensures
        final(control)@ == old(control)@,
{
}

} // verus!
