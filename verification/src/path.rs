//! Paths in the syntax of Windows, where the game runs: separators are `/` and `\`, and a path
//! may start with a drive such as `C:`, with a share on another machine such as `\\server\share`,
//! or with a device such as `\\.\COM1`. A path that starts with `\\?\` is verbatim: in it only `\`
//! separates, and a `.` is a component like any other.
use crate::text::chars_of;
use vstd::prelude::*;

verus! {

/// Whether `c` separates components, where the path is not verbatim.
pub open spec fn is_separator(c: char) -> bool {
    c == '/' || c == '\\'
}

/// Whether `c` separates components of a path that is verbatim or not.
pub open spec fn separates_in(verbatim: bool, c: char) -> bool {
    c == '\\' || (c == '/' && !verbatim)
}

/// Whether `s` is verbatim. The separators in front of it have to be written as `\`.
pub open spec fn is_verbatim(s: Seq<char>) -> bool {
    s.len() >= 4 && s[0] == '\\' && s[1] == '\\' && s[2] == '?' && s[3] == '\\'
}

/// Whether `s` starts with a device.
pub open spec fn is_device(s: Seq<char>) -> bool {
    s.len() >= 4 && is_separator(s[0]) && is_separator(s[1]) && s[2] == '.' && is_separator(s[3])
}

/// Whether `c` can name a drive.
pub open spec fn is_drive_letter(c: char) -> bool {
    ('a' <= c && c <= 'z') || ('A' <= c && c <= 'Z')
}

/// Whether a drive such as `C:` stands at the place `at` of `s`.
pub open spec fn drive_at(s: Seq<char>, at: int) -> bool {
    s.len() >= at + 2 && is_drive_letter(s[at]) && s[at + 1] == ':'
}

/// The first place in `s`, from `from` on, at which a separator stands; the end where none does.
pub open spec fn separator_from(s: Seq<char>, from: int, verbatim: bool) -> int
    decreases s.len() - from,
{
    if from >= s.len() {
        s.len() as int
    } else if separates_in(verbatim, s[from]) {
        from
    } else {
        separator_from(s, from + 1, verbatim)
    }
}

/// The length of the share that `s` starts with: two separators, the name of a machine, one more
/// separator and the name of a share, neither of them empty; 0 for none.
pub open spec fn share_len(s: Seq<char>) -> int {
    let machine = separator_from(s, 2, false);
    let share = separator_from(s, machine + 1, false);
    if s.len() >= 2 && is_separator(s[0]) && is_separator(s[1]) && 2 < machine && machine + 1 < share {
        share
    } else {
        0
    }
}

/// Whether the verbatim path `s` goes to a share: `\\?\UNC\`, where the last separator may be
/// written in either way.
pub open spec fn is_verbatim_share(s: Seq<char>) -> bool {
    s.len() >= 8 && s[4] == 'U' && s[5] == 'N' && s[6] == 'C' && is_separator(s[7])
}

/// The length of the prefix of the verbatim path `s`: `\\?\UNC\server\share`, where the share may
/// be missing; or `\\?\C:`, where nothing or a separator follows; or `\\?\` and one more name.
pub open spec fn verbatim_len(s: Seq<char>) -> int {
    if is_verbatim_share(s) {
        let machine = separator_from(s, 8, true);
        let share = separator_from(s, machine + 1, true);
        if machine + 1 < share {
            share
        } else {
            machine
        }
    } else if drive_at(s, 4) && (s.len() == 6 || is_separator(s[6])) {
        6
    } else {
        separator_from(s, 4, true)
    }
}

/// The length of the prefix of `s`, which is a drive, a share, a device or a verbatim prefix; 0
/// for none.
pub open spec fn prefix_len(s: Seq<char>) -> int {
    if drive_at(s, 0) {
        2
    } else if is_verbatim(s) {
        verbatim_len(s)
    } else if is_device(s) {
        separator_from(s, 4, false)
    } else {
        share_len(s)
    }
}

/// Whether a separator stands right behind the prefix of `s`.
pub open spec fn root_written(s: Seq<char>) -> bool {
    prefix_len(s) < s.len() && is_separator(s[prefix_len(s)])
}

/// Whether `s` has a root. Behind a prefix other than a drive there is one even where it is not
/// written.
pub open spec fn has_root(s: Seq<char>) -> bool {
    root_written(s) || (prefix_len(s) > 0 && !drive_at(s, 0))
}

/// Where the components of `s` start, behind the prefix and the root.
pub open spec fn body_start(s: Seq<char>) -> int {
    if root_written(s) {
        prefix_len(s) + 1
    } else {
        prefix_len(s)
    }
}

/// Where the last component of `s.take(hi)` ends: trailing separators are skipped, and so are `.`
/// components, except in a verbatim path and at the very front of a path without a root.
pub open spec fn body_end(s: Seq<char>, hi: int) -> int
    decreases hi - body_start(s),
{
    if hi <= body_start(s) {
        hi
    } else if separates_in(is_verbatim(s), s[hi - 1]) {
        body_end(s, hi - 1)
    } else if !is_verbatim(s) && s[hi - 1] == '.' && (if hi - 1 == body_start(s) {
        has_root(s)
    } else {
        is_separator(s[hi - 2])
    }) {
        body_end(s, hi - 1)
    } else {
        hi
    }
}

/// Where the component of `s` that ends at `end` starts.
pub open spec fn name_start(s: Seq<char>, end: int) -> int
    decreases end - body_start(s),
{
    if end <= body_start(s) || separates_in(is_verbatim(s), s[end - 1]) {
        end
    } else {
        name_start(s, end - 1)
    }
}

/// The last component of `s`, or the empty text where there is none.
pub open spec fn last_component(s: Seq<char>) -> Seq<char> {
    let end = body_end(s, s.len() as int);
    s.subrange(name_start(s, end), end)
}

/// The file name of a path: its last component, unless that is a `.` or a `..`.
pub open spec fn file_name_of(s: Seq<char>) -> Option<Seq<char>> {
    let name = last_component(s);
    if name.len() == 0 || name == seq!['.'] || name == seq!['.', '.'] {
        None
    } else {
        Some(name)
    }
}

/// The extension of a path: what follows the last dot of its file name, where that dot is not
/// the name's first character.
pub open spec fn extension_of(s: Seq<char>) -> Option<Seq<char>> {
    match file_name_of(s) {
        Some(name) => match name.index_of_last('.') {
            Some(i) => if i == 0 {
                None
            } else {
                Some(name.skip(i + 1))
            },
            None => None,
        },
        None => None,
    }
}

/// The path without its last component, or `None` where it has none. A `.` right behind a drive
/// is no component.
pub open spec fn parent_of(s: Seq<char>) -> Option<Seq<char>> {
    let end = body_end(s, s.len() as int);
    let start = name_start(s, end);
    if start == end || (drive_at(s, 0) && start == 2 && end == 3 && s[2] == '.') {
        None
    } else {
        Some(s.take(body_end(s, start)))
    }
}

/// The components of `s` from the place `from` on. Empty ones are left out, and so are those that
/// are a `.`, except in a verbatim path.
pub open spec fn components_from(s: Seq<char>, from: int, verbatim: bool) -> Seq<Seq<char>>
    decreases s.len() - from,
{
    if from >= s.len() {
        Seq::<Seq<char>>::empty()
    } else {
        proof {
            lemma_separator_within(s, from, verbatim);
        }
        let at = separator_from(s, from, verbatim);
        let name = s.subrange(from, at);
        let rest = if at < s.len() {
            components_from(s, at + 1, verbatim)
        } else {
            Seq::<Seq<char>>::empty()
        };
        if name.len() == 0 || (!verbatim && name == seq!['.']) {
            rest
        } else {
            seq![name] + rest
        }
    }
}

/// The components of `s` behind its prefix and its root.
pub open spec fn components_of(s: Seq<char>) -> Seq<Seq<char>> {
    components_from(s, body_start(s), is_verbatim(s))
}

/// Where `steps` lead from `names`: a `..` takes the last name off, where there is one and it is
/// no `.` or `..` itself, and any other component is added.
pub open spec fn walked(names: Seq<Seq<char>>, steps: Seq<Seq<char>>) -> Seq<Seq<char>>
    decreases steps.len(),
{
    if steps.len() == 0 {
        names
    } else {
        let to = walked(names, steps.drop_last());
        if steps.last() != seq!['.', '.'] {
            to.push(steps.last())
        } else if to.len() > 0 && to.last() != seq!['.'] && to.last() != seq!['.', '.'] {
            to.drop_last()
        } else {
            to
        }
    }
}

/// `names` with a `\` in front of each.
pub open spec fn spelled(names: Seq<Seq<char>>) -> Seq<char>
    decreases names.len(),
{
    if names.len() == 0 {
        Seq::<char>::empty()
    } else {
        spelled(names.drop_last()).push('\\') + names.last()
    }
}

/// `path`, which has no prefix, taken relative to the verbatim path `base`: the components are
/// worked out, and written anew behind the prefix of the base.
pub open spec fn joined_verbatim(base: Seq<char>, path: Seq<char>) -> Seq<char> {
    let from = if has_root(path) {
        Seq::<Seq<char>>::empty()
    } else {
        components_of(base)
    };
    let names = walked(from, components_of(path));
    base.take(prefix_len(base)) + (if names.len() == 0 && (has_root(path) || root_written(base)) {
        seq!['\\']
    } else {
        spelled(names)
    })
}

/// Whether something put behind `s` needs a separator in between.
pub open spec fn needs_separator(s: Seq<char>) -> bool {
    s.len() > 0 && !is_separator(s.last()) && !(drive_at(s, 0) && s.len() == 2)
}

/// `path` taken relative to `base`. A path with a prefix replaces the base; a path with a root
/// keeps only the base's prefix.
pub open spec fn joined(base: Seq<char>, path: Seq<char>) -> Seq<char> {
    if prefix_len(path) > 0 {
        path
    } else if is_verbatim(base) && path.len() > 0 {
        joined_verbatim(base, path)
    } else if has_root(path) {
        base.take(prefix_len(base)) + path
    } else if needs_separator(base) {
        base.push('\\') + path
    } else {
        base + path
    }
}

/// A separator is found at or behind the place where the search starts, as far as the text goes.
pub proof fn lemma_separator_within(s: Seq<char>, from: int, verbatim: bool)
    ensures
        separator_from(s, from, verbatim) <= s.len(),
        from <= s.len() ==> from <= separator_from(s, from, verbatim),
    decreases s.len() - from,
{
    if from < s.len() && !separates_in(verbatim, s[from]) {
        lemma_separator_within(s, from + 1, verbatim);
    }
}

proof fn lemma_body_within(s: Seq<char>)
    ensures
        0 <= prefix_len(s) <= body_start(s) <= s.len(),
{
    lemma_separator_within(s, separator_from(s, 2, false) + 1, false);
    lemma_separator_within(s, 4, false);
    lemma_separator_within(s, 4, true);
    lemma_separator_within(s, 8, true);
    lemma_separator_within(s, separator_from(s, 8, true) + 1, true);
}

fn separates(verbatim: bool, c: char) -> (r: bool)
    ensures
        r == separates_in(verbatim, c),
{
    c == '\\' || (c == '/' && !verbatim)
}

fn has_drive(s: &Vec<char>, at: usize) -> (r: bool)
    requires
        at <= 4,
    ensures
        r == drive_at(s@, at as int),
{
    s.len() >= at + 2 && ((s[at] >= 'a' && s[at] <= 'z') || (s[at] >= 'A' && s[at] <= 'Z')) && s[at
        + 1] == ':'
}

fn verbatim(s: &Vec<char>) -> (r: bool)
    ensures
        r == is_verbatim(s@),
{
    s.len() >= 4 && s[0] == '\\' && s[1] == '\\' && s[2] == '?' && s[3] == '\\'
}

fn device(s: &Vec<char>) -> (r: bool)
    ensures
        r == is_device(s@),
{
    s.len() >= 4 && separates(false, s[0]) && separates(false, s[1]) && s[2] == '.' && separates(
        false,
        s[3],
    )
}

fn find_separator(s: &Vec<char>, from: usize, verbatim: bool) -> (r: usize)
    ensures
        r == separator_from(s@, from as int, verbatim),
        r <= s@.len(),
        from <= s@.len() ==> from <= r,
{
    let mut at: usize = from;
    while at < s.len()
        invariant
            from <= at,
            separator_from(s@, at as int, verbatim) == separator_from(s@, from as int, verbatim),
        decreases s@.len() - at,
    {
        if separates(verbatim, s[at]) {
            return at;
        }
        at = at + 1;
    }
    s.len()
}

fn share(s: &Vec<char>) -> (r: usize)
    ensures
        r == share_len(s@),
{
    if s.len() >= 2 && separates(false, s[0]) && separates(false, s[1]) {
        let machine: usize = find_separator(s, 2, false);
        if machine > 2 && machine < s.len() {
            let share: usize = find_separator(s, machine + 1, false);
            if share > machine + 1 {
                return share;
            }
        }
    }
    0
}

fn verbatim_prefix(s: &Vec<char>) -> (r: usize)
    ensures
        r == verbatim_len(s@),
{
    if s.len() >= 8 && s[4] == 'U' && s[5] == 'N' && s[6] == 'C' && separates(false, s[7]) {
        let machine: usize = find_separator(s, 8, true);
        if machine < s.len() {
            let share: usize = find_separator(s, machine + 1, true);
            if share > machine + 1 {
                return share;
            }
        }
        machine
    } else if has_drive(s, 4) && (s.len() == 6 || separates(false, s[6])) {
        6
    } else {
        find_separator(s, 4, true)
    }
}

fn prefix(s: &Vec<char>) -> (r: usize)
    ensures
        r == prefix_len(s@),
        r <= s@.len(),
{
    proof {
        lemma_body_within(s@);
    }
    if has_drive(s, 0) {
        2
    } else if verbatim(s) {
        verbatim_prefix(s)
    } else if device(s) {
        find_separator(s, 4, false)
    } else {
        share(s)
    }
}

fn writes_root(s: &Vec<char>) -> (r: bool)
    ensures
        r == root_written(s@),
{
    let p: usize = prefix(s);
    p < s.len() && separates(false, s[p])
}

fn rooted(s: &Vec<char>) -> (r: bool)
    ensures
        r == has_root(s@),
{
    writes_root(s) || (prefix(s) > 0 && !has_drive(s, 0))
}

fn start(s: &Vec<char>) -> (r: usize)
    ensures
        r == body_start(s@),
        r <= s@.len(),
{
    let p: usize = prefix(s);
    if p < s.len() && separates(false, s[p]) {
        p + 1
    } else {
        p
    }
}

fn end(s: &Vec<char>, from: usize) -> (r: usize)
    requires
        body_start(s@) <= from <= s@.len(),
    ensures
        r == body_end(s@, from as int),
        body_start(s@) <= r <= from,
{
    let lo: usize = start(s);
    let root: bool = rooted(s);
    let verbatim: bool = verbatim(s);
    let mut hi: usize = from;
    while hi > lo
        invariant
            lo == body_start(s@),
            root == has_root(s@),
            verbatim == is_verbatim(s@),
            lo <= hi <= from <= s@.len(),
            body_end(s@, hi as int) == body_end(s@, from as int),
        decreases hi,
    {
        if separates(verbatim, s[hi - 1]) {
            hi = hi - 1;
        } else if !verbatim && s[hi - 1] == '.' && (if hi - 1 == lo {
            root
        } else {
            separates(false, s[hi - 2])
        }) {
            hi = hi - 1;
        } else {
            return hi;
        }
    }
    hi
}

fn name_begin(s: &Vec<char>, end: usize) -> (r: usize)
    requires
        body_start(s@) <= end <= s@.len(),
    ensures
        r == name_start(s@, end as int),
        body_start(s@) <= r <= end,
{
    let lo: usize = start(s);
    let verbatim: bool = verbatim(s);
    let mut at: usize = end;
    while at > lo
        invariant
            lo == body_start(s@),
            verbatim == is_verbatim(s@),
            lo <= at <= end <= s@.len(),
            name_start(s@, at as int) == name_start(s@, end as int),
        decreases at,
    {
        if separates(verbatim, s[at - 1]) {
            return at;
        }
        at = at - 1;
    }
    at
}

fn is_dot(name: &str) -> (r: bool)
    ensures
        r == (name@ == seq!['.']),
{
    let chars = chars_of(name);
    if chars.len() == 1 && chars[0] == '.' {
        assert(name@ =~= seq!['.']);
        true
    } else {
        assert(seq!['.'][0] == '.');
        false
    }
}

fn is_dot_dot(name: &str) -> (r: bool)
    ensures
        r == (name@ == seq!['.', '.']),
{
    let chars = chars_of(name);
    if chars.len() == 2 && chars[0] == '.' && chars[1] == '.' {
        assert(name@ =~= seq!['.', '.']);
        true
    } else {
        assert(seq!['.', '.'][0] == '.' && seq!['.', '.'][1] == '.');
        false
    }
}

spec fn views(names: Seq<String>) -> Seq<Seq<char>> {
    names.map_values(|name: String| name@)
}

fn components(path: &str) -> (r: Vec<String>)
    ensures
        views(r@) == components_of(path@),
{
    let chars = chars_of(path);
    let verbatim: bool = verbatim(&chars);
    let mut r: Vec<String> = Vec::new();
    let mut at: usize = start(&chars);
    assert(views(r@) =~= Seq::<Seq<char>>::empty());
    assert(views(r@) + components_of(path@) =~= components_of(path@));
    while at < chars.len()
        invariant
            chars@ == path@,
            verbatim == is_verbatim(path@),
            at <= chars@.len(),
            views(r@) + components_from(path@, at as int, verbatim) == components_of(path@),
        decreases chars@.len() - at,
    {
        let to: usize = find_separator(&chars, at, verbatim);
        let ghost before = views(r@);
        let ghost rest = components_from(path@, to + 1, verbatim);
        let ghost left = components_from(path@, at as int, verbatim);
        let name = path.substring_char(at, to).to_owned();
        if to > at && (verbatim || !is_dot(name.as_str())) {
            assert(left =~= seq![name@] + rest);
            r.push(name);
            assert(views(r@) =~= before.push(name@));
            assert(views(r@) + rest =~= before + left);
        }
        if to < chars.len() {
            at = to + 1;
        } else {
            at = to;
        }
    }
    assert(views(r@) =~= components_of(path@));
    r
}

fn walk(names: Vec<String>, steps: &Vec<String>) -> (r: Vec<String>)
    ensures
        views(r@) == walked(views(names@), views(steps@)),
{
    let ghost from = views(names@);
    let ghost all = views(steps@);
    let mut names = names;
    let mut i: usize = 0;
    assert(all.take(0) =~= Seq::<Seq<char>>::empty());
    while i < steps.len()
        invariant
            all == views(steps@),
            i <= steps@.len(),
            views(names@) == walked(from, all.take(i as int)),
        decreases steps@.len() - i,
    {
        let ghost before = views(names@);
        let step = steps[i].clone();
        proof {
            assert(all.take(i + 1).drop_last() =~= all.take(i as int));
            assert(all.take(i + 1).last() == step@);
        }
        if !is_dot_dot(step.as_str()) {
            names.push(step);
            assert(views(names@) =~= before.push(step@));
        } else if names.len() > 0 {
            let n: usize = names.len();
            assert(before.last() == names@[n - 1]@);
            if !is_dot(names[n - 1].as_str()) && !is_dot_dot(names[n - 1].as_str()) {
                names.pop();
                assert(views(names@) =~= before.drop_last());
            }
        }
        i = i + 1;
    }
    assert(all.take(i as int) =~= all);
    names
}

fn join_verbatim(base: &str, path: &str) -> (r: String)
    ensures
        r@ == joined_verbatim(base@, path@),
{
    proof {
        reveal_strlit("\\");
        lemma_body_within(base@);
    }
    let b = chars_of(base);
    let root: bool = rooted(&chars_of(path));
    let from: Vec<String> = if root {
        Vec::new()
    } else {
        components(base)
    };
    assert(root ==> views(from@) =~= Seq::<Seq<char>>::empty());
    let names = walk(from, &components(path));
    let ghost all = views(names@);
    let mut r = base.substring_char(0, prefix(&b)).to_owned();
    let ghost front = r@;
    assert(front =~= base@.take(prefix_len(base@)));
    if names.len() == 0 && (root || writes_root(&b)) {
        r.append("\\");
        assert(r@ =~= front + seq!['\\']);
        return r;
    }
    let mut i: usize = 0;
    assert(all.take(0) =~= Seq::<Seq<char>>::empty());
    assert(r@ =~= front + spelled(all.take(0)));
    while i < names.len()
        invariant
            all == views(names@),
            i <= names@.len(),
            "\\"@ == seq!['\\'],
            r@ == front + spelled(all.take(i as int)),
        decreases names@.len() - i,
    {
        proof {
            assert(all.take(i + 1).drop_last() =~= all.take(i as int));
        }
        r.append("\\");
        r.append(names[i].as_str());
        i = i + 1;
        assert(r@ =~= front + spelled(all.take(i as int)));
    }
    assert(all.take(i as int) =~= all);
    r
}

/// The file name of `path`.
pub fn file_name(path: &str) -> (r: Option<String>)
    ensures
        match r {
            Some(name) => file_name_of(path@) == Some(name@),
            None => file_name_of(path@) is None,
        },
{
    let chars = chars_of(path);
    proof {
        lemma_body_within(path@);
    }
    let to: usize = end(&chars, chars.len());
    let from: usize = name_begin(&chars, to);
    let ghost name = last_component(path@);
    assert(name == path@.subrange(from as int, to as int));
    if from == to || (to - from == 1 && chars[from] == '.') || (to - from == 2 && chars[from] == '.'
        && chars[from + 1] == '.') {
        assert(name.len() == 0 || name =~= seq!['.'] || name =~= seq!['.', '.']);
        None
    } else {
        proof {
            assert(seq!['.'][0] == '.' && seq!['.', '.'][0] == '.' && seq!['.', '.'][1] == '.');
            assert(name.len() > 0 ==> name[0] == chars@[from as int]);
            assert(name.len() > 1 ==> name[1] == chars@[from + 1]);
        }
        Some(path.substring_char(from, to).to_owned())
    }
}

/// Whether the extension of `path` is `expected`.
pub fn has_extension(path: &str, expected: &str) -> (r: bool)
    ensures
        r == (extension_of(path@) == Some(expected@)),
{
    match file_name(path) {
        None => false,
        Some(name) => {
            let chars = chars_of(name.as_str());
            let mut i: usize = chars.len();
            while i > 0
                invariant
                    i <= chars.len(),
                    chars@ == name@,
                    file_name_of(path@) == Some(name@),
                    forall|j: int| i <= j < chars.len() ==> chars@[j] != '.',
                decreases i,
            {
                i = i - 1;
                if chars[i] == '.' {
                    proof {
                        name@.index_of_last_ensures('.');
                        assert(name@.contains('.'));
                    }
                    if i == 0 {
                        return false;
                    }
                    let ext = name.as_str().substring_char(i + 1, chars.len()).to_owned();
                    assert(ext@ =~= name@.skip(i + 1));
                    return ext == expected.to_owned();
                }
            }
            proof {
                name@.index_of_last_ensures('.');
            }
            false
        },
    }
}

/// The path without its last component.
pub fn parent(path: &str) -> (r: Option<String>)
    ensures
        match r {
            Some(up) => parent_of(path@) == Some(up@),
            None => parent_of(path@) is None,
        },
{
    let chars = chars_of(path);
    proof {
        lemma_body_within(path@);
    }
    let to: usize = end(&chars, chars.len());
    let from: usize = name_begin(&chars, to);
    if from == to || (has_drive(&chars, 0) && from == 2 && to == 3 && chars[2] == '.') {
        None
    } else {
        let up: usize = end(&chars, from);
        Some(path.substring_char(0, up).to_owned())
    }
}

/// `path` taken relative to `base`.
pub fn join(base: &str, path: &str) -> (r: String)
    ensures
        r@ == joined(base@, path@),
{
    proof {
        reveal_strlit("\\");
    }
    let b = chars_of(base);
    let p = chars_of(path);
    if prefix(&p) > 0 {
        path.to_owned()
    } else if verbatim(&b) && p.len() > 0 {
        join_verbatim(base, path)
    } else if rooted(&p) {
        let mut r = base.substring_char(0, prefix(&b)).to_owned();
        r.append(path);
        assert(r@ =~= joined(base@, path@));
        r
    } else {
        let mut r = base.to_owned();
        if b.len() > 0 && !separates(false, b[b.len() - 1]) && !(has_drive(&b, 0) && b.len() == 2) {
            r.append("\\");
            assert(r@ =~= base@.push('\\'));
        }
        r.append(path);
        r
    }
}

} // verus!
