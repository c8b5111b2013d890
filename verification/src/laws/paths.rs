//! What holds of paths.
use crate::path::{file_name, has_extension, join, parent};
use vstd::prelude::*;

verus! {

/// Whether `c` is a slash of either kind.
pub open spec fn slash(c: char) -> bool {
    c == '/' || c == '\\'
}

/// Whether `s` starts with two slashes, as paths to other machines, to devices and verbatim ones
/// do.
pub open spec fn two_slashes(s: Seq<char>) -> bool {
    s.len() >= 2 && slash(s[0]) && slash(s[1])
}

/// Whether `s` starts with a letter and a colon.
pub open spec fn on_drive(s: Seq<char>) -> bool {
    s.len() >= 2 && (('A' <= s[0] && s[0] <= 'Z') || ('a' <= s[0] && s[0] <= 'z')) && s[1] == ':'
}

/// Whether `s` holds no slash.
pub open spec fn without_slash(s: Seq<char>) -> bool {
    forall|i: int| 0 <= i < s.len() ==> !slash(#[trigger] s[i])
}

/// Whether `s` is the name of a file or directory: not empty, without slashes, and neither `.` nor
/// `..`.
pub open spec fn is_name(s: Seq<char>) -> bool {
    &&& s.len() > 0
    &&& without_slash(s)
    &&& s != seq!['.']
    &&& s != seq!['.', '.']
}

/// Whether something may follow `base` and a slash as its own component: `base` does not end in a
/// slash or a dot, and is more than a drive.
pub open spec fn is_directory(base: Seq<char>) -> bool {
    &&& base.len() > 0
    &&& !slash(base.last())
    &&& base.last() != '.'
    &&& !(on_drive(base) && base.len() == 2)
}

/// Whether `base` is nothing or only a drive, so that a slash behind it is a root.
pub open spec fn is_bare(base: Seq<char>) -> bool {
    base.len() == 0 || (on_drive(base) && base.len() == 2)
}

/// `name` behind `base` and the slash `c`.
pub open spec fn below(base: Seq<char>, c: char, name: Seq<char>) -> Seq<char> {
    base.push(c) + name
}

proof fn lemma_plain(s: Seq<char>)
    requires
        !two_slashes(s),
    ensures
        !crate::path::is_verbatim(s),
        crate::path::prefix_len(s) == (if on_drive(s) {
            2int
        } else {
            0int
        }),
        crate::path::drive_at(s, 0) == on_drive(s),
{
    assert(crate::path::drive_at(s, 0) == on_drive(s));
}

proof fn lemma_name_starts(s: Seq<char>, start: int, end: int)
    requires
        crate::path::body_start(s) <= start <= end <= s.len(),
        start == crate::path::body_start(s) || slash(s[start - 1]),
        forall|i: int| start <= i < end ==> !slash(#[trigger] s[i]),
        !crate::path::is_verbatim(s),
    ensures
        crate::path::name_start(s, end) == start,
    decreases end - start,
{
    if start < end {
        assert(!slash(s[end - 1]));
        lemma_name_starts(s, start, end - 1);
    }
}

/// Where a name ends a path, behind a slash that lies behind the prefix, it is the last component.
proof fn lemma_last_name(s: Seq<char>, start: int)
    requires
        crate::path::body_start(s) <= start < s.len(),
        start == crate::path::body_start(s) || slash(s[start - 1]),
        forall|i: int| start <= i < s.len() ==> !slash(#[trigger] s[i]),
        s.subrange(start, s.len() as int) != seq!['.'],
        !crate::path::is_verbatim(s),
    ensures
        crate::path::body_end(s, s.len() as int) == s.len(),
        crate::path::name_start(s, s.len() as int) == start,
        crate::path::last_component(s) == s.subrange(start, s.len() as int),
{
    let n = s.len() as int;
    assert(!slash(s[n - 1]));
    if start == n - 1 {
        assert(s.subrange(start, n) =~= seq![s[n - 1]]);
    } else {
        assert(!slash(s[n - 2]));
    }
    lemma_name_starts(s, start, n);
}

proof fn lemma_below(base: Seq<char>, c: char, name: Seq<char>)
    requires
        slash(c),
        name.len() > 0,
        without_slash(name),
        name != seq!['.'],
        !two_slashes(below(base, c, name)),
    ensures
        ({
            let s = below(base, c, name);
            &&& crate::path::body_start(s) <= base.len() + 1
            &&& crate::path::body_end(s, s.len() as int) == s.len()
            &&& crate::path::name_start(s, s.len() as int) == base.len() + 1
            &&& crate::path::last_component(s) == name
        }),
{
    let s = below(base, c, name);
    let start: int = base.len() as int + 1;
    lemma_plain(s);
    assert(s[base.len() as int] == c);
    if on_drive(s) {
        if base.len() < 2 {
            if base.len() == 1 {
                assert(s[1] == c);
            } else {
                assert(s[0] == c);
            }
        }
    }
    assert forall|i: int| start <= i < s.len() implies !slash(#[trigger] s[i]) by {
        assert(s[i] == name[i - start]);
    }
    assert(s.subrange(start, s.len() as int) =~= name);
    lemma_last_name(s, start);
}

/// The file name of a path that ends in a name.
pub proof fn lemma_file_name(base: Seq<char>, c: char, name: Seq<char>)
    requires
        slash(c),
        is_name(name),
        !two_slashes(below(base, c, name)),
    ensures
        crate::path::file_name_of(below(base, c, name)) == Some(name),
{
    lemma_below(base, c, name);
}

/// The name behind the last slash of a path is its file name.
pub proof fn law_file_name(base: Seq<char>, c: char, name: Seq<char>, path: &str, r: Option<String>)
    requires
        slash(c),
        is_name(name),
        path@ == below(base, c, name),
        !two_slashes(path@),
        call_ensures(file_name, (path,), r),
    ensures
        r matches Some(file) && file@ == name,
{
    lemma_below(base, c, name);
}

/// A path without slashes is its own file name, behind its drive where it has one.
pub proof fn law_bare_file_name(path: &str, r: Option<String>)
    requires
        without_slash(path@),
        call_ensures(file_name, (path,), r),
    ensures
        !on_drive(path@) && is_name(path@) ==> (r matches Some(file) && file@ == path@),
        on_drive(path@) && is_name(path@.skip(2)) ==> (r matches Some(file) && file@ == path@.skip(2)),
{
    let s = path@;
    if s.len() > 0 {
        assert(!slash(s[0]));
    }
    assert(!two_slashes(s));
    lemma_plain(s);
    if !on_drive(s) && is_name(s) {
        assert(s.subrange(0, s.len() as int) =~= s);
        lemma_last_name(s, 0);
    }
    if on_drive(s) && is_name(s.skip(2)) {
        assert(s[2] == s.skip(2)[0]);
        assert(s.subrange(2, s.len() as int) =~= s.skip(2));
        lemma_last_name(s, 2);
    }
}

/// A path that ends in `.` or `..`, in a drive or in a root alone has no file name.
pub proof fn law_no_file_name(base: Seq<char>, c: char, path: &str, r: Option<String>)
    requires
        slash(c),
        path@ == seq!['.', '.'] || path@ == below(base, c, seq!['.', '.']) || path@.len() == 0
            || path@ == seq![c] || (on_drive(path@) && path@.len() == 2) || (on_drive(path@)
            && path@.len() == 3 && path@[2] == c),
        !two_slashes(path@),
        call_ensures(file_name, (path,), r),
    ensures
        r is None,
{
    let s = path@;
    lemma_plain(s);
    let dots = seq!['.', '.'];
    assert(dots[0] == '.' && dots[1] == '.');
    if s == dots {
        assert(s.subrange(0, 2) =~= s);
        assert(s.subrange(0, 2).len() == 2 && seq!['.'].len() == 1);
        lemma_last_name(s, 0);
    } else if s == below(base, c, dots) {
        assert(dots.len() == 2 && seq!['.'].len() == 1);
        lemma_below(base, c, dots);
    } else {
        let end = crate::path::body_end(s, s.len() as int);
        assert(crate::path::body_start(s) == s.len());
        assert(end == s.len());
        assert(crate::path::name_start(s, end) == end);
        assert(crate::path::last_component(s).len() == 0);
    }
}

/// The extension of a file is what follows the last dot of its name, where something stands in
/// front of that dot.
pub proof fn law_extension(
    base: Seq<char>,
    c: char,
    stem: Seq<char>,
    ext: Seq<char>,
    path: &str,
    expected: &str,
    r: bool,
)
    requires
        slash(c),
        stem.len() > 0,
        ext.len() > 0,
        without_slash(stem),
        without_slash(ext),
        forall|i: int| 0 <= i < ext.len() ==> #[trigger] ext[i] != '.',
        path@ == below(base, c, stem.push('.') + ext),
        !two_slashes(path@),
        call_ensures(has_extension, (path, expected), r),
    ensures
        r <==> expected@ == ext,
{
    lemma_extension(base, c, stem, ext);
}

/// The extension of a path with at least one slash.
pub proof fn lemma_extension(base: Seq<char>, c: char, stem: Seq<char>, ext: Seq<char>)
    requires
        slash(c),
        stem.len() > 0,
        ext.len() > 0,
        without_slash(stem),
        without_slash(ext),
        forall|i: int| 0 <= i < ext.len() ==> #[trigger] ext[i] != '.',
        !two_slashes(below(base, c, stem.push('.') + ext)),
    ensures
        crate::path::extension_of(below(base, c, stem.push('.') + ext)) == Some(ext),
{
    let name = stem.push('.') + ext;
    lemma_name_extension(stem, ext);
    assert forall|i: int| 0 <= i < name.len() implies !slash(#[trigger] name[i]) by {
        if i < stem.len() {
            assert(name[i] == stem[i]);
        } else if i > stem.len() {
            assert(name[i] == ext[i - stem.len() - 1]);
        }
    }
    lemma_below(base, c, name);
}

proof fn lemma_name_extension(stem: Seq<char>, ext: Seq<char>)
    requires
        stem.len() > 0,
        ext.len() > 0,
        forall|i: int| 0 <= i < ext.len() ==> #[trigger] ext[i] != '.',
    ensures
        ({
            let name = stem.push('.') + ext;
            &&& name != seq!['.']
            &&& name != seq!['.', '.']
            &&& name.index_of_last('.') == Some(stem.len() as int)
            &&& name.skip(stem.len() as int + 1) == ext
        }),
{
    let name = stem.push('.') + ext;
    let at = stem.len() as int;
    assert(name[at] == '.');
    assert(name.contains('.'));
    assert(name[at + 1] == ext[0]);
    assert(name.len() >= 3);
    assert(seq!['.'].len() == 1 && seq!['.', '.'].len() == 2);
    name.index_of_last_ensures('.');
    let last = name.index_of_last('.')->0;
    if last > at {
        assert(name[last] == ext[last - at - 1]);
    }
    assert(name.skip(at + 1) =~= ext);
}

/// A path without slashes and without a drive has the extension of its name.
pub proof fn lemma_bare_extension(stem: Seq<char>, ext: Seq<char>)
    requires
        stem.len() > 0,
        ext.len() > 0,
        without_slash(stem),
        without_slash(ext),
        !on_drive(stem.push('.') + ext),
        forall|i: int| 0 <= i < ext.len() ==> #[trigger] ext[i] != '.',
    ensures
        crate::path::extension_of(stem.push('.') + ext) == Some(ext),
{
    let name = stem.push('.') + ext;
    lemma_name_extension(stem, ext);
    assert forall|i: int| 0 <= i < name.len() implies !slash(#[trigger] name[i]) by {
        if i < stem.len() {
            assert(name[i] == stem[i]);
        } else if i > stem.len() {
            assert(name[i] == ext[i - stem.len() - 1]);
        }
    }
    assert(!slash(name[0]));
    lemma_plain(name);
    assert(name.subrange(0, name.len() as int) =~= name);
    lemma_last_name(name, 0);
}

/// A path without slashes has the extension of the name behind its drive.
pub proof fn lemma_drive_extension(s: Seq<char>, stem: Seq<char>, ext: Seq<char>)
    requires
        on_drive(s),
        without_slash(s),
        stem.len() > 0,
        ext.len() > 0,
        forall|i: int| 0 <= i < ext.len() ==> #[trigger] ext[i] != '.',
        s.skip(2) == stem.push('.') + ext,
    ensures
        crate::path::extension_of(s) == Some(ext),
{
    let name = stem.push('.') + ext;
    lemma_name_extension(stem, ext);
    assert(!slash(s[0]));
    lemma_plain(s);
    assert(s.len() == name.len() + 2);
    assert(!slash(s[2]));
    assert(s.subrange(2, s.len() as int) =~= s.skip(2));
    lemma_last_name(s, 2);
}

/// A name without a dot, or with only one at its front, has no extension.
pub proof fn law_no_extension(
    base: Seq<char>,
    c: char,
    name: Seq<char>,
    path: &str,
    expected: &str,
    r: bool,
)
    requires
        slash(c),
        is_name(name),
        forall|i: int| 0 < i < name.len() ==> #[trigger] name[i] != '.',
        path@ == below(base, c, name),
        !two_slashes(path@),
        call_ensures(has_extension, (path, expected), r),
    ensures
        !r,
{
    lemma_below(base, c, name);
    name.index_of_last_ensures('.');
}

/// The parent of a file in a directory is the directory.
pub proof fn law_parent(base: Seq<char>, c: char, name: Seq<char>, path: &str, r: Option<String>)
    requires
        slash(c),
        name.len() > 0,
        without_slash(name),
        name != seq!['.'],
        path@ == below(base, c, name),
        !two_slashes(path@),
        call_ensures(parent, (path,), r),
    ensures
        is_directory(base) ==> (r matches Some(up) && up@ == base),
        is_bare(base) ==> (r matches Some(up) && up@ == base.push(c)),
{
    lemma_parent(base, c, name);
}

/// The parent of a file in a directory or in a root.
pub proof fn lemma_parent(base: Seq<char>, c: char, name: Seq<char>)
    requires
        slash(c),
        name.len() > 0,
        without_slash(name),
        name != seq!['.'],
        !two_slashes(below(base, c, name)),
    ensures
        is_directory(base) ==> crate::path::parent_of(below(base, c, name)) == Some(base),
        is_bare(base) ==> crate::path::parent_of(below(base, c, name)) == Some(base.push(c)),
{
    let s = below(base, c, name);
    let start: int = base.len() as int + 1;
    lemma_below(base, c, name);
    lemma_plain(s);
    assert(s[base.len() as int] == c);
    if base.len() >= 2 {
        assert(s[0] == base[0] && s[1] == base[1]);
        assert(on_drive(s) == on_drive(base));
    } else if base.len() == 1 {
        assert(s[1] == c);
    } else {
        assert(s[0] == c);
    }
    assert(!(start == 2 && on_drive(s)));
    if is_directory(base) {
        assert(s[base.len() - 1] == base.last());
        assert(crate::path::body_start(s) < base.len() || crate::path::body_start(s) <= base.len());
        assert(crate::path::body_end(s, start) == crate::path::body_end(s, base.len() as int));
        assert(crate::path::body_end(s, base.len() as int) == base.len());
        assert(s.take(base.len() as int) =~= base);
    }
    if is_bare(base) {
        assert(crate::path::body_start(s) == start);
        assert(crate::path::body_end(s, start) == start);
        assert(s.take(start) =~= base.push(c));
    }
}

/// A drive, a root and the empty path have no parent.
pub proof fn law_no_parent(c: char, path: &str, r: Option<String>)
    requires
        slash(c),
        is_bare(path@) || path@ == seq![c] || (on_drive(path@) && path@.len() == 3 && path@[2] == c),
        call_ensures(parent, (path,), r),
    ensures
        r is None,
{
    lemma_no_parent(path@);
}

/// What is a drive, a root or nothing has no parent.
pub proof fn lemma_no_parent(s: Seq<char>)
    requires
        is_bare(s) || (s.len() == 1 && slash(s[0])) || (on_drive(s) && s.len() == 3 && slash(s[2])),
    ensures
        crate::path::parent_of(s) is None,
{
    lemma_plain(s);
    assert(crate::path::body_start(s) == s.len());
    assert(crate::path::body_end(s, s.len() as int) == s.len());
}

/// The parent of a name alone is the empty path.
pub proof fn law_parent_of_name(path: &str, r: Option<String>)
    requires
        is_name(path@),
        !on_drive(path@),
        call_ensures(parent, (path,), r),
    ensures
        r matches Some(up) && up@.len() == 0,
{
    let s = path@;
    assert(!slash(s[0]));
    lemma_plain(s);
    assert(s.subrange(0, s.len() as int) =~= s);
    lemma_last_name(s, 0);
}

/// Whether `s` is relative: it has neither a drive nor a root.
pub open spec fn is_relative(s: Seq<char>) -> bool {
    !on_drive(s) && (s.len() == 0 || !slash(s[0]))
}

/// Whether `s` is verbatim.
pub open spec fn starts_verbatim(s: Seq<char>) -> bool {
    s.len() >= 4 && s[0] == '\\' && s[1] == '\\' && s[2] == '?' && s[3] == '\\'
}

/// A relative path is put behind the base, with a backslash in between where the base needs one.
pub proof fn law_join_relative(base: &str, path: &str, r: String)
    requires
        !starts_verbatim(base@),
        is_relative(path@),
        call_ensures(join, (base, path), r),
    ensures
        base@.len() == 0 || slash(base@.last()) || (on_drive(base@) && base@.len() == 2) ==> r@
            == base@ + path@,
        base@.len() > 0 && !slash(base@.last()) && !(on_drive(base@) && base@.len() == 2) ==> r@
            == base@.push('\\') + path@,
{
    lemma_join_relative(base@, path@);
}

/// How a relative path is joined.
pub proof fn lemma_join_relative(base: Seq<char>, path: Seq<char>)
    requires
        !starts_verbatim(base),
        is_relative(path),
    ensures
        base.len() == 0 || slash(base.last()) || (on_drive(base) && base.len() == 2)
            ==> crate::path::joined(base, path) == base + path,
        base.len() > 0 && !slash(base.last()) && !(on_drive(base) && base.len() == 2)
            ==> crate::path::joined(base, path) == base.push('\\') + path,
{
    lemma_plain(path);
    assert(crate::path::drive_at(base, 0) == on_drive(base));
}

/// A path on a drive replaces the base; a path with a root keeps the drive of the base.
pub proof fn law_join_absolute(base: &str, path: &str, r: String)
    requires
        call_ensures(join, (base, path), r),
    ensures
        on_drive(path@) ==> r@ == path@,
        !two_slashes(base@) && !two_slashes(path@) && path@.len() > 0 && slash(path@[0]) ==> r@ == (
        if on_drive(base@) {
            base@.take(2) + path@
        } else {
            path@
        }),
{
    assert(crate::path::drive_at(path@, 0) == on_drive(path@));
    if !two_slashes(base@) && !two_slashes(path@) && path@.len() > 0 && slash(path@[0]) {
        lemma_plain(base@);
        lemma_plain(path@);
        if !on_drive(base@) {
            assert(base@.take(0) + path@ =~= path@);
        }
    }
}

/// The share `share` on the machine `machine`, and what follows.
pub open spec fn on_share(machine: Seq<char>, share: Seq<char>, rest: Seq<char>) -> Seq<char> {
    seq!['\\', '\\'] + machine + seq!['\\'] + share + rest
}

proof fn lemma_separator_at(s: Seq<char>, from: int, at: int, verbatim: bool)
    requires
        0 <= from <= at <= s.len(),
        at < s.len() ==> s[at] == '\\' || (!verbatim && slash(s[at])),
        forall|i: int| from <= i < at ==> !slash(#[trigger] s[i]),
    ensures
        crate::path::separator_from(s, from, verbatim) == at,
    decreases at - from,
{
    if from < at {
        assert(!slash(s[from]));
        lemma_separator_at(s, from + 1, at, verbatim);
    }
}

proof fn lemma_share(machine: Seq<char>, share: Seq<char>, rest: Seq<char>)
    requires
        is_name(machine),
        is_name(share),
        machine != seq!['?'],
        rest.len() == 0 || slash(rest[0]),
    ensures
        ({
            let s = on_share(machine, share, rest);
            &&& !crate::path::is_verbatim(s)
            &&& !crate::path::drive_at(s, 0)
            &&& crate::path::prefix_len(s) == machine.len() + share.len() + 3
        }),
{
    let s = on_share(machine, share, rest);
    let m = machine.len() as int;
    let n = share.len() as int;
    assert(s.len() == m + n + 3 + rest.len());
    assert(s[0] == '\\' && s[1] == '\\');
    assert forall|i: int| 2 <= i < 2 + m implies s[i] == machine[i - 2] by {}
    assert(s[2 + m] == '\\');
    assert forall|i: int| 3 + m <= i < 3 + m + n implies s[i] == share[i - 3 - m] by {}
    if rest.len() > 0 {
        assert(s[3 + m + n] == rest[0]);
    }
    assert(s[2] == machine[0]);
    if m == 1 {
        assert(machine =~= seq![machine[0]]);
    } else {
        assert(s[3] == machine[1]);
        assert(!slash(machine[1]));
    }
    lemma_separator_at(s, 2, 2 + m, false);
    lemma_separator_at(s, 3 + m, 3 + m + n, false);
}

/// A file on a share has the name behind the last slash. Right on the share, its parent is the root
/// of the share, which itself has neither a name nor a parent.
pub proof fn law_file_on_share(
    machine: Seq<char>,
    share: Seq<char>,
    name: Seq<char>,
    path: &str,
    root: &str,
    file: Option<String>,
    up: Option<String>,
    no_file: Option<String>,
    no_up: Option<String>,
)
    requires
        is_name(machine),
        is_name(share),
        is_name(name),
        machine != seq!['?'],
        root@ == on_share(machine, share, seq!['\\']),
        path@ == root@ + name,
        call_ensures(file_name, (path,), file),
        call_ensures(parent, (path,), up),
        call_ensures(file_name, (root,), no_file),
        call_ensures(parent, (root,), no_up),
    ensures
        file matches Some(file) && file@ == name,
        up matches Some(up) && up@ == root@,
        no_file is None,
        no_up is None,
{
    let s = path@;
    let rest = seq!['\\'] + name;
    let start = (machine.len() + share.len() + 4) as int;
    assert(s =~= on_share(machine, share, rest));
    lemma_share(machine, share, rest);
    lemma_share(machine, share, seq!['\\']);
    assert(s[start - 1] == '\\');
    assert(root@[start - 1] == '\\');
    assert(s.subrange(start, s.len() as int) =~= name);
    assert forall|i: int| start <= i < s.len() implies !slash(#[trigger] s[i]) by {
        assert(s[i] == name[i - start]);
    }
    lemma_last_name(s, start);
    assert(s.take(start) =~= root@);
    assert(crate::path::body_start(root@) == root@.len());
    assert(crate::path::body_end(root@, start) == start);
    assert(crate::path::last_component(root@).len() == 0);
}

proof fn lemma_below_share(
    machine: Seq<char>,
    share: Seq<char>,
    rest: Seq<char>,
    c: char,
    name: Seq<char>,
)
    requires
        is_name(machine),
        is_name(share),
        machine != seq!['?'],
        rest.len() == 0 || slash(rest[0]),
        slash(c),
        name.len() > 0,
        without_slash(name),
        name != seq!['.'],
    ensures
        ({
            let base = on_share(machine, share, rest);
            let s = below(base, c, name);
            &&& !crate::path::is_verbatim(s)
            &&& !crate::path::drive_at(s, 0)
            &&& crate::path::body_start(s) == machine.len() + share.len() + 4
            &&& crate::path::body_end(s, s.len() as int) == s.len()
            &&& crate::path::name_start(s, s.len() as int) == base.len() + 1
            &&& crate::path::last_component(s) == name
        }),
{
    let base = on_share(machine, share, rest);
    let s = below(base, c, name);
    let more = rest.push(c) + name;
    let p = (machine.len() + share.len() + 3) as int;
    let start: int = base.len() as int + 1;
    assert(s =~= on_share(machine, share, more));
    assert(more[0] == (if rest.len() == 0 {
        c
    } else {
        rest[0]
    }));
    lemma_share(machine, share, more);
    assert(s[p] == more[0]);
    assert(s[base.len() as int] == c);
    assert forall|i: int| start <= i < s.len() implies !slash(#[trigger] s[i]) by {
        assert(s[i] == name[i - start]);
    }
    assert(s.subrange(start, s.len() as int) =~= name);
    lemma_last_name(s, start);
}

/// A file anywhere on a share has the name behind the last slash, and its parent is the directory
/// in front of it.
pub proof fn law_file_below_share(
    machine: Seq<char>,
    share: Seq<char>,
    rest: Seq<char>,
    c: char,
    name: Seq<char>,
    path: &str,
    file: Option<String>,
    up: Option<String>,
)
    requires
        is_name(machine),
        is_name(share),
        is_name(name),
        machine != seq!['?'],
        rest.len() == 0 || slash(rest[0]),
        slash(c),
        path@ == below(on_share(machine, share, rest), c, name),
        call_ensures(file_name, (path,), file),
        call_ensures(parent, (path,), up),
    ensures
        file matches Some(file) && file@ == name,
        rest.len() == 0 ==> (up matches Some(up) && up@ == on_share(machine, share, rest).push(c)),
        rest.len() > 0 && !slash(rest.last()) && rest.last() != '.' ==> (up matches Some(up) && up@
            == on_share(machine, share, rest)),
{
    let base = on_share(machine, share, rest);
    let s = path@;
    let start: int = base.len() as int + 1;
    lemma_below_share(machine, share, rest, c, name);
    if rest.len() == 0 {
        assert(crate::path::body_end(s, start) == start);
        assert(s.take(start) =~= base.push(c));
    } else if !slash(rest.last()) && rest.last() != '.' {
        assert(s[base.len() - 1] == rest.last());
        assert(s[base.len() as int] == c);
        assert(crate::path::body_end(s, start) == crate::path::body_end(s, base.len() as int));
        assert(s.take(base.len() as int) =~= base);
    }
}

/// A file on a share has the extension behind the last dot of its name.
pub proof fn law_extension_on_share(
    machine: Seq<char>,
    share: Seq<char>,
    rest: Seq<char>,
    c: char,
    stem: Seq<char>,
    ext: Seq<char>,
    path: &str,
    expected: &str,
    r: bool,
)
    requires
        is_name(machine),
        is_name(share),
        machine != seq!['?'],
        rest.len() == 0 || slash(rest[0]),
        slash(c),
        stem.len() > 0,
        ext.len() > 0,
        without_slash(stem),
        without_slash(ext),
        forall|i: int| 0 <= i < ext.len() ==> #[trigger] ext[i] != '.',
        path@ == below(on_share(machine, share, rest), c, stem.push('.') + ext),
        call_ensures(has_extension, (path, expected), r),
    ensures
        r <==> expected@ == ext,
{
    let name = stem.push('.') + ext;
    lemma_name_extension(stem, ext);
    assert forall|i: int| 0 <= i < name.len() implies !slash(#[trigger] name[i]) by {
        if i < stem.len() {
            assert(name[i] == stem[i]);
        } else if i > stem.len() {
            assert(name[i] == ext[i - stem.len() - 1]);
        }
    }
    lemma_below_share(machine, share, rest, c, name);
}

/// A path to a share replaces the base.
pub proof fn law_join_share(
    machine: Seq<char>,
    share: Seq<char>,
    rest: Seq<char>,
    base: &str,
    path: &str,
    r: String,
)
    requires
        is_name(machine),
        is_name(share),
        machine != seq!['?'],
        rest.len() == 0 || slash(rest[0]),
        path@ == on_share(machine, share, rest),
        call_ensures(join, (base, path), r),
    ensures
        r@ == path@,
{
    lemma_share(machine, share, rest);
}

/// A path with a root that is joined to a path on a share keeps the share.
pub proof fn law_join_root_on_share(
    machine: Seq<char>,
    share: Seq<char>,
    rest: Seq<char>,
    base: &str,
    path: &str,
    r: String,
)
    requires
        is_name(machine),
        is_name(share),
        machine != seq!['?'],
        rest.len() == 0 || slash(rest[0]),
        base@ == on_share(machine, share, rest),
        !two_slashes(path@),
        path@.len() > 0,
        slash(path@[0]),
        call_ensures(join, (base, path), r),
    ensures
        r@ == on_share(machine, share, path@),
{
    lemma_share(machine, share, rest);
    lemma_plain(path@);
    assert(base@.take((machine.len() + share.len() + 3) as int) + path@ =~= on_share(
        machine,
        share,
        path@,
    ));
}

/// Paths with the same file name have the same extension.
pub proof fn law_extension_by_name(
    a: &str,
    b: &str,
    expected: &str,
    name_a: Option<String>,
    name_b: Option<String>,
    r: bool,
    r2: bool,
)
    requires
        call_ensures(file_name, (a,), name_a),
        call_ensures(file_name, (b,), name_b),
        name_a is Some <==> name_b is Some,
        name_a is Some ==> name_a->0@ == name_b->0@,
        call_ensures(has_extension, (a, expected), r),
        call_ensures(has_extension, (b, expected), r2),
    ensures
        r == r2,
        name_a is None ==> !r,
{
}

proof fn lemma_same_front(s: Seq<char>, t: Seq<char>, hi: int)
    requires
        crate::path::body_start(s) == crate::path::body_start(t),
        crate::path::has_root(s) == crate::path::has_root(t),
        !crate::path::is_verbatim(s),
        !crate::path::is_verbatim(t),
        0 <= crate::path::body_start(s),
        hi <= s.len() <= t.len(),
        forall|i: int| 0 <= i < s.len() ==> #[trigger] t[i] == s[i],
    ensures
        crate::path::body_end(s, hi) == crate::path::body_end(t, hi),
        crate::path::name_start(s, hi) == crate::path::name_start(t, hi),
        crate::path::body_end(s, hi) <= hi,
        crate::path::name_start(s, hi) <= hi,
    decreases hi - crate::path::body_start(s),
{
    if hi > crate::path::body_start(s) {
        assert(t[hi - 1] == s[hi - 1]);
        if hi - 1 > crate::path::body_start(s) {
            assert(t[hi - 2] == s[hi - 2]);
        }
        lemma_same_front(s, t, hi - 1);
    }
}

/// Slashes and dots at the end of a path do not count.
pub proof fn law_end_of_path(
    c: char,
    path: &str,
    slashed: &str,
    dotted: &str,
    file: Option<String>,
    file_slashed: Option<String>,
    file_dotted: Option<String>,
    up: Option<String>,
    up_slashed: Option<String>,
    up_dotted: Option<String>,
)
    requires
        slash(c),
        is_directory(path@),
        !two_slashes(path@),
        slashed@ == path@.push(c),
        dotted@ == path@.push(c).push('.'),
        call_ensures(file_name, (path,), file),
        call_ensures(file_name, (slashed,), file_slashed),
        call_ensures(file_name, (dotted,), file_dotted),
        call_ensures(parent, (path,), up),
        call_ensures(parent, (slashed,), up_slashed),
        call_ensures(parent, (dotted,), up_dotted),
    ensures
        file is Some <==> file_slashed is Some,
        file is Some <==> file_dotted is Some,
        file is Some ==> file_slashed->0@ == file->0@ && file_dotted->0@ == file->0@,
        up is Some <==> up_slashed is Some,
        up is Some <==> up_dotted is Some,
        up is Some ==> up_slashed->0@ == up->0@ && up_dotted->0@ == up->0@,
{
    lemma_end_of_path(c, path@, slashed@, 1);
    lemma_end_of_path(c, path@, dotted@, 2);
}

proof fn lemma_end_of_path(c: char, s: Seq<char>, t: Seq<char>, more: int)
    requires
        slash(c),
        is_directory(s),
        !two_slashes(s),
        more == 1 ==> t == s.push(c),
        more == 2 ==> t == s.push(c).push('.'),
        more == 1 || more == 2,
    ensures
        crate::path::file_name_of(t) == crate::path::file_name_of(s),
        crate::path::parent_of(t) == crate::path::parent_of(s),
{
    let n = s.len() as int;
    assert forall|i: int| 0 <= i < n implies #[trigger] t[i] == s[i] by {}
    assert(t[n] == c);
    assert(s.last() == s[n - 1]);
    assert(!two_slashes(t)) by {
        if n == 1 {
            assert(t[0] == s[0]);
        }
    }
    lemma_plain(s);
    lemma_plain(t);
    assert(on_drive(t) == on_drive(s)) by {
        if n == 1 {
            assert(t[1] == c);
        }
    }
    let p = crate::path::prefix_len(s);
    assert(p < n);
    assert(t[p] == s[p]);
    assert(crate::path::body_start(t) == crate::path::body_start(s));
    lemma_same_front(s, t, n);
    assert(crate::path::body_end(t, n + 1) == crate::path::body_end(t, n));
    if more == 2 {
        assert(t[n + 1] == '.');
        assert(crate::path::body_end(t, n + 2) == crate::path::body_end(t, n + 1));
    }
    let end = crate::path::body_end(s, n);
    lemma_same_front(s, t, end);
    let start = crate::path::name_start(s, end);
    lemma_same_front(s, t, start);
    lemma_inside(s, n);
    lemma_inside(s, end);
    lemma_inside(s, start);
    assert(t.subrange(start, end) =~= s.subrange(start, end));
    assert(t.take(crate::path::body_end(s, start)) =~= s.take(crate::path::body_end(s, start)));
}

proof fn lemma_inside(s: Seq<char>, hi: int)
    requires
        0 <= crate::path::body_start(s) <= hi,
    ensures
        crate::path::body_start(s) <= crate::path::body_end(s, hi),
        crate::path::body_start(s) <= crate::path::name_start(s, hi),
    decreases hi,
{
    if hi > crate::path::body_start(s) {
        lemma_inside(s, hi - 1);
    }
}

/// Whether `s` holds no backslash.
pub open spec fn without_backslash(s: Seq<char>) -> bool {
    forall|i: int| 0 <= i < s.len() ==> #[trigger] s[i] != '\\'
}

/// Whether `v` is the prefix of verbatim paths on a drive: `\\?\C:`.
pub open spec fn verbatim_drive(v: Seq<char>) -> bool {
    starts_verbatim(v) && v.len() == 6 && on_drive(v.skip(4))
}

/// The prefix of verbatim paths to a share: `\\?\UNC\machine\share`.
pub open spec fn verbatim_share(machine: Seq<char>, share: Seq<char>) -> Seq<char> {
    seq!['\\', '\\', '?', '\\', 'U', 'N', 'C', '\\'] + machine + seq!['\\'] + share
}

/// Whether `v` is the prefix of verbatim paths on a drive or to a share.
pub open spec fn verbatim_front(v: Seq<char>) -> bool {
    verbatim_drive(v) || exists|machine: Seq<char>, share: Seq<char>|
        machine.len() > 0 && share.len() > 0 && without_backslash(machine) && without_backslash(share)
            && v == #[trigger] verbatim_share(machine, share)
}

proof fn lemma_backslash_at(s: Seq<char>, from: int, at: int)
    requires
        0 <= from <= at <= s.len(),
        at < s.len() ==> s[at] == '\\',
        forall|i: int| from <= i < at ==> #[trigger] s[i] != '\\',
    ensures
        crate::path::separator_from(s, from, true) == at,
    decreases at - from,
{
    if from < at {
        assert(s[from] != '\\');
        lemma_backslash_at(s, from + 1, at);
    }
}

proof fn lemma_verbatim_front(v: Seq<char>, rest: Seq<char>)
    requires
        verbatim_front(v),
        rest.len() == 0 || rest[0] == '\\',
    ensures
        crate::path::is_verbatim(v + rest),
        crate::path::prefix_len(v + rest) == v.len(),
        crate::path::root_written(v + rest) == (rest.len() > 0),
        !crate::path::drive_at(v + rest, 0),
{
    let s = v + rest;
    if rest.len() > 0 {
        assert(s[v.len() as int] == rest[0]);
    }
    if verbatim_drive(v) {
        assert(v.skip(4)[0] == v[4] && v.skip(4)[1] == v[5]);
        assert(s[0] == v[0] && s[1] == v[1] && s[2] == v[2] && s[3] == v[3] && s[4] == v[4] && s[5]
            == v[5]);
        assert(!crate::path::is_verbatim_share(s));
    } else {
        let (machine, share) = choose|machine: Seq<char>, share: Seq<char>|
            machine.len() > 0 && share.len() > 0 && without_backslash(machine) && without_backslash(
                share,
            ) && v == #[trigger] verbatim_share(machine, share);
        let m = machine.len() as int;
        let n = share.len() as int;
        assert(s[0] == '\\' && s[1] == '\\' && s[2] == '?' && s[3] == '\\' && s[4] == 'U' && s[5]
            == 'N' && s[6] == 'C' && s[7] == '\\');
        assert forall|i: int| 8 <= i < 8 + m implies #[trigger] s[i] != '\\' by {
            assert(s[i] == machine[i - 8]);
        }
        assert(s[8 + m] == '\\');
        assert forall|i: int| 9 + m <= i < 9 + m + n implies #[trigger] s[i] != '\\' by {
            assert(s[i] == share[i - 9 - m]);
        }
        lemma_backslash_at(s, 8, 8 + m);
        lemma_backslash_at(s, 9 + m, 9 + m + n);
    }
}

proof fn lemma_verbatim_name_starts(s: Seq<char>, start: int, end: int)
    requires
        crate::path::body_start(s) <= start <= end <= s.len(),
        start == crate::path::body_start(s) || s[start - 1] == '\\',
        forall|i: int| start <= i < end ==> #[trigger] s[i] != '\\',
        crate::path::is_verbatim(s),
    ensures
        crate::path::name_start(s, end) == start,
    decreases end - start,
{
    if start < end {
        assert(s[end - 1] != '\\');
        lemma_verbatim_name_starts(s, start, end - 1);
    }
}

/// In a verbatim path only backslashes separate: the file name is all that stands behind the last
/// one, other slashes included, and the parent is what stands in front of it.
pub proof fn law_verbatim_file(
    v: Seq<char>,
    rest: Seq<char>,
    name: Seq<char>,
    path: &str,
    file: Option<String>,
    up: Option<String>,
)
    requires
        verbatim_front(v),
        rest.len() == 0 || rest[0] == '\\',
        name.len() > 0,
        without_backslash(name),
        path@ == below(v + rest, '\\', name),
        call_ensures(file_name, (path,), file),
        call_ensures(parent, (path,), up),
    ensures
        name != seq!['.'] && name != seq!['.', '.'] ==> (file matches Some(file) && file@ == name),
        name == seq!['.'] || name == seq!['.', '.'] ==> file is None,
        rest.len() == 0 ==> (up matches Some(up) && up@ == v.push('\\')),
        rest.len() > 0 && rest.last() != '\\' ==> (up matches Some(up) && up@ == v + rest),
{
    let base = v + rest;
    let s = path@;
    let more = rest.push('\\') + name;
    let start: int = base.len() as int + 1;
    assert(s =~= v + more);
    assert(more[0] == '\\');
    lemma_verbatim_front(v, more);
    assert(s[base.len() as int] == '\\');
    assert forall|i: int| start <= i < s.len() implies #[trigger] s[i] != '\\' by {
        assert(s[i] == name[i - start]);
    }
    assert(s[s.len() - 1] != '\\');
    assert(crate::path::body_end(s, s.len() as int) == s.len());
    lemma_verbatim_name_starts(s, start, s.len() as int);
    assert(s.subrange(start, s.len() as int) =~= name);
    assert(crate::path::last_component(s) == name);
    if rest.len() == 0 {
        assert(crate::path::body_end(s, start) == start);
        assert(s.take(start) =~= v.push('\\'));
    } else if rest.last() != '\\' {
        assert(s[base.len() - 1] == rest.last());
        assert(crate::path::body_end(s, start) == crate::path::body_end(s, base.len() as int));
        assert(s.take(base.len() as int) =~= base);
    }
}

/// Whether `names` can stand between backslashes.
pub open spec fn are_components(names: Seq<Seq<char>>) -> bool {
    forall|i: int| 0 <= i < names.len() ==> (#[trigger] names[i]).len() > 0 && without_backslash(names[i])
}

/// `names` with a backslash in front of each.
pub open spec fn with_backslashes(names: Seq<Seq<char>>) -> Seq<char>
    decreases names.len(),
{
    if names.len() == 0 {
        Seq::<char>::empty()
    } else {
        with_backslashes(names.drop_last()) + seq!['\\'] + names.last()
    }
}

proof fn lemma_with_backslashes(names: Seq<Seq<char>>)
    ensures
        with_backslashes(names) == crate::path::spelled(names),
        names.len() > 0 ==> with_backslashes(names).len() > 0 && with_backslashes(names)[0] == '\\',
    decreases names.len(),
{
    if names.len() > 0 {
        let head = names.drop_last();
        lemma_with_backslashes(head);
        assert(with_backslashes(names) =~= crate::path::spelled(names));
        if head.len() == 0 {
            assert(with_backslashes(head) =~= Seq::<char>::empty());
        }
    }
}

/// What stands behind `front`, from its end on, splits into its components.
proof fn lemma_split(front: Seq<char>, names: Seq<Seq<char>>, name: Seq<char>)
    requires
        are_components(names),
        name.len() > 0,
        without_backslash(name),
    ensures
        crate::path::components_from(
            front + name + with_backslashes(names),
            front.len() as int,
            true,
        ) == seq![name] + names,
    decreases names.len(),
{
    let s = front + name + with_backslashes(names);
    let from = front.len() as int;
    let at = from + name.len();
    assert forall|i: int| from <= i < at implies #[trigger] s[i] != '\\' by {
        assert(s[i] == name[i - from]);
    }
    lemma_with_backslashes(names);
    if names.len() > 0 {
        assert(s[at] == with_backslashes(names)[0]);
    }
    lemma_backslash_at(s, from, at);
    assert(s.subrange(from, at) =~= name);
    if names.len() > 0 {
        let next = names[0];
        let others = names.drop_first();
        lemma_first_backslash(names);
        assert(s =~= (front + name).push('\\') + next + with_backslashes(others));
        lemma_split((front + name).push('\\'), others, next);
        assert((front + name).push('\\').len() == at + 1);
        assert(seq![next] + others =~= names);
    } else {
        assert(seq![name] + names =~= seq![name] + Seq::<Seq<char>>::empty());
    }
}

proof fn lemma_first_backslash(names: Seq<Seq<char>>)
    requires
        names.len() > 0,
    ensures
        with_backslashes(names) == seq!['\\'] + names[0] + with_backslashes(names.drop_first()),
    decreases names.len(),
{
    if names.len() == 1 {
        assert(names.drop_last() =~= Seq::<Seq<char>>::empty());
        assert(names.drop_first() =~= Seq::<Seq<char>>::empty());
        assert(with_backslashes(names.drop_last()) =~= Seq::<char>::empty());
        assert(with_backslashes(names) =~= seq!['\\'] + names[0] + with_backslashes(
            names.drop_first(),
        ));
    } else {
        let head = names.drop_last();
        lemma_first_backslash(head);
        assert(names.drop_first().drop_last() =~= head.drop_first());
        assert(with_backslashes(names) =~= seq!['\\'] + names[0] + with_backslashes(
            names.drop_first(),
        ));
    }
}

proof fn lemma_verbatim_components(v: Seq<char>, names: Seq<Seq<char>>)
    requires
        verbatim_front(v),
        are_components(names),
        names.len() > 0,
    ensures
        crate::path::components_of(v + with_backslashes(names)) == names,
        crate::path::is_verbatim(v + with_backslashes(names)),
        crate::path::prefix_len(v + with_backslashes(names)) == v.len(),
        crate::path::root_written(v + with_backslashes(names)),
{
    let s = v + with_backslashes(names);
    lemma_with_backslashes(names);
    lemma_verbatim_front(v, with_backslashes(names));
    lemma_first_backslash(names);
    let others = names.drop_first();
    assert(s =~= v.push('\\') + names[0] + with_backslashes(others));
    lemma_split(v.push('\\'), others, names[0]);
    assert(seq![names[0]] + others =~= names);
}

/// The one component of a path without slashes, if it is one.
proof fn lemma_single_component(s: Seq<char>)
    requires
        s.len() > 0,
        without_slash(s),
        !on_drive(s),
    ensures
        !crate::path::has_root(s),
        crate::path::prefix_len(s) == 0,
        crate::path::components_of(s) == (if s == seq!['.'] {
            Seq::<Seq<char>>::empty()
        } else {
            seq![s]
        }),
{
    assert(!slash(s[0]));
    lemma_plain(s);
    lemma_separator_at(s, 0, s.len() as int, false);
    assert(s.subrange(0, s.len() as int) =~= s);
    assert(seq![s] + Seq::<Seq<char>>::empty() =~= seq![s]);
}

/// A name that is joined to a verbatim path is put behind it. A `.` leaves the path as it is, and a
/// `..` takes the last name off.
pub proof fn law_join_verbatim(
    v: Seq<char>,
    names: Seq<Seq<char>>,
    base: &str,
    path: &str,
    r: String,
)
    requires
        verbatim_front(v),
        are_components(names),
        names.len() > 0,
        names.last() != seq!['.'],
        names.last() != seq!['.', '.'],
        base@ == v + with_backslashes(names),
        path@.len() > 0,
        without_slash(path@),
        !on_drive(path@),
        call_ensures(join, (base, path), r),
    ensures
        is_name(path@) ==> r@ == v + with_backslashes(names.push(path@)),
        path@ == seq!['.'] ==> r@ == base@,
        path@ == seq!['.', '.'] && names.len() > 1 ==> r@ == v + with_backslashes(names.drop_last()),
        path@ == seq!['.', '.'] && names.len() == 1 ==> r@ == v.push('\\'),
{
    lemma_verbatim_components(v, names);
    lemma_single_component(path@);
    let steps = crate::path::components_of(path@);
    let to = crate::path::walked(names, steps);
    assert(base@.take(v.len() as int) =~= v);
    lemma_with_backslashes(to);
    let dots = seq!['.', '.'];
    assert(dots.len() == 2 && seq!['.'].len() == 1);
    if path@ != seq!['.'] {
        assert(steps.drop_last() =~= Seq::<Seq<char>>::empty());
        assert(steps.last() == path@);
        assert(crate::path::walked(names, steps.drop_last()) == names);
    }
    if path@ == dots && names.len() == 1 {
        assert(to.len() == 0);
        assert(v + seq!['\\'] =~= v.push('\\'));
    }
}

/// A path of several parts is joined to a verbatim path part by part.
pub proof fn law_join_verbatim_by_parts(
    v: Seq<char>,
    names: Seq<Seq<char>>,
    c: char,
    first: Seq<char>,
    rest: Seq<char>,
    base: Seq<char>,
)
    requires
        verbatim_front(v),
        are_components(names),
        names.len() > 0,
        slash(c),
        base == v + with_backslashes(names),
        first.len() > 0,
        without_slash(first),
        !on_drive(first),
        rest.len() > 0,
        is_relative(rest),
        crate::path::walked(names, crate::path::components_of(first)).len() > 0,
    ensures
        crate::path::joined(base, first.push(c) + rest) == crate::path::joined(
            crate::path::joined(base, first),
            rest,
        ),
{
    let path = first.push(c) + rest;
    let n = first.len() as int;
    assert(!slash(first[0]));
    assert(path[0] == first[0]);
    assert(path[n] == c);
    if path.len() >= 2 && on_drive(path) {
        if n >= 2 {
            assert(path[1] == first[1]);
        }
    }
    lemma_plain(path);
    lemma_plain(rest);
    lemma_single_component(first);
    lemma_verbatim_components(v, names);
    assert(base.take(v.len() as int) =~= v);
    let a = crate::path::components_of(first);
    let b = crate::path::components_of(rest);
    // the parts of the path are those of its two parts
    assert forall|i: int| 0 <= i < n implies !slash(#[trigger] path[i]) by {
        assert(path[i] == first[i]);
    }
    lemma_separator_at(path, 0, n, false);
    assert(path.subrange(0, n) =~= first);
    lemma_components_shift(first.push(c), rest, 0);
    assert(crate::path::components_of(path) =~= a + b);
    lemma_walked_parts(names, a, b);
    // and the first join leads to where the second starts
    let middle = crate::path::walked(names, a);
    assert(are_components(middle)) by {
        assert(a.len() <= 1);
        if a.len() == 1 {
            assert(a.drop_last() =~= Seq::<Seq<char>>::empty());
            assert(crate::path::walked(names, a.drop_last()) == names);
            assert(without_backslash(first)) by {
                assert forall|i: int| 0 <= i < first.len() implies #[trigger] first[i] != '\\' by {
                    assert(!slash(first[i]));
                }
            }
        }
    }
    lemma_with_backslashes(middle);
    assert(crate::path::joined(base, first) == v + with_backslashes(middle));
    lemma_verbatim_components(v, middle);
    assert((v + with_backslashes(middle)).take(v.len() as int) =~= v);
}

proof fn lemma_components_shift(front: Seq<char>, rest: Seq<char>, from: int)
    requires
        0 <= from,
    ensures
        crate::path::components_from(front + rest, front.len() + from, false)
            == crate::path::components_from(rest, from, false),
    decreases rest.len() - from,
{
    let s = front + rest;
    let n = front.len() as int;
    if from < rest.len() {
        lemma_separator_shift(front, rest, from);
        crate::path::lemma_separator_within(rest, from, false);
        let at = crate::path::separator_from(rest, from, false);
        assert(s.subrange(n + from, n + at) =~= rest.subrange(from, at));
        if at < rest.len() {
            lemma_components_shift(front, rest, at + 1);
        }
    }
}

proof fn lemma_separator_shift(front: Seq<char>, rest: Seq<char>, from: int)
    requires
        0 <= from,
    ensures
        crate::path::separator_from(front + rest, front.len() + from, false) == front.len()
            + crate::path::separator_from(rest, from, false) || from > rest.len(),
    decreases rest.len() - from,
{
    if from < rest.len() {
        assert((front + rest)[front.len() + from] == rest[from]);
        lemma_separator_shift(front, rest, from + 1);
    }
}

proof fn lemma_walked_parts(names: Seq<Seq<char>>, a: Seq<Seq<char>>, b: Seq<Seq<char>>)
    ensures
        crate::path::walked(names, a + b) == crate::path::walked(crate::path::walked(names, a), b),
    decreases b.len(),
{
    if b.len() == 0 {
        assert(a + b =~= a);
    } else {
        assert((a + b).drop_last() =~= a + b.drop_last());
        lemma_walked_parts(names, a, b.drop_last());
    }
}

} // verus!
