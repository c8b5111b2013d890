//! Which function of the game starts at which place of the sources.
use crate::path::{has_extension, join, parent};
use crate::source::SourceRef;
use crate::table::SourceTable;
use crate::text::to_lowercase;
use std::collections::BTreeMap;
use vstd::prelude::*;

verus! {

/// A function of the game, by the hashes of the names of its class and of itself.
#[derive(Debug, Clone, Copy, PartialEq, Eq, PartialOrd, Ord, Structural)]
pub struct FunctionId {
    pub parent: u64,
    pub name: u64,
}

impl FunctionId {
    /// The function called `name` of the class called `parent`; a function without a class has
    /// the hash `undefined` for it.
    pub fn from_func(parent: Option<u64>, name: u64, undefined: u64) -> (r: Self)
        ensures
            r.name == name,
            r.parent == (match parent {
                Some(class) => class,
                None => undefined,
            }),
    {
        let parent: u64 = match parent {
            Some(class) => class,
            None => undefined,
        };
        Self { parent, name }
    }
}

/// A source file as the game reports it.
#[derive(Debug)]
pub struct SourceFileInfo {
    pub index: u32,
    pub path: String,
}

/// The directory of the game: three levels above its executable.
pub open spec fn game_root(exe: Seq<char>) -> Option<Seq<char>> {
    match crate::path::parent_of(exe) {
        Some(a) => match crate::path::parent_of(a) {
            Some(b) => crate::path::parent_of(b),
            None => None,
        },
        None => None,
    }
}

/// Where `path` lies below the scripts of RedMod, in the game whose directory is `root`.
pub open spec fn redmod_path(root: Seq<char>, path: Seq<char>) -> Seq<char> {
    crate::path::joined(
        crate::path::joined(
            crate::path::joined(crate::path::joined(root, "tools"@), "redmod"@),
            "scripts"@,
        ),
        path,
    )
}

/// The path of a source file: a `.reds` file lies where the game says, any other file lies below
/// the scripts of RedMod, as far as the directory of the game is known. In lower case.
pub open spec fn source_path(path: Seq<char>, exe: Option<Seq<char>>) -> Seq<char> {
    let root = match exe {
        Some(exe) => game_root(exe),
        None => None,
    };
    if crate::path::extension_of(path) == Some("reds"@) {
        crate::text::lower(path)
    } else {
        match root {
            Some(root) => crate::text::lower(redmod_path(root, path)),
            None => crate::text::lower(path),
        }
    }
}

fn find_game_root(exe: &str) -> (r: Option<String>)
    ensures
        match r {
            Some(root) => game_root(exe@) == Some(root@),
            None => game_root(exe@) is None,
        },
{
    match parent(exe) {
        Some(a) => match parent(a.as_str()) {
            Some(b) => parent(b.as_str()),
            None => None,
        },
        None => None,
    }
}

fn resolve_source(path: &str, exe: Option<&str>) -> (r: String)
    ensures
        r@ == source_path(
            path@,
            match exe {
                Some(exe) => Some(exe@),
                None => None,
            },
        ),
        crate::text::is_lowered(r@),
        crate::text::ascii_lower(r@) == r@,
{
    if has_extension(path, "reds") {
        return to_lowercase(path);
    }
    let root: Option<String> = match exe {
        Some(exe) => find_game_root(exe),
        None => None,
    };
    match root {
        Some(root) => {
            let tools = join(root.as_str(), "tools");
            let redmod = join(tools.as_str(), "redmod");
            let scripts = join(redmod.as_str(), "scripts");
            to_lowercase(join(scripts.as_str(), path).as_str())
        },
        None => to_lowercase(path),
    }
}

/// What is reported of a function that is put into a mapping.
pub struct Addition {
    pub id: FunctionId,
    pub index: u32,
    pub path: Seq<char>,
    pub exe: Option<Seq<char>>,
    pub line: u32,
}

/// What a mapping holds.
pub struct MappingView {
    /// The function that starts at a place.
    pub functions: Map<crate::source::Place, FunctionId>,
    /// The place that a function starts at.
    pub sources: Map<FunctionId, crate::source::Place>,
    /// The path of each source file, by its index.
    pub paths: Map<u32, Seq<char>>,
}

impl MappingView {
    /// The two directions agree: each is the inverse of the other.
    pub open spec fn inverse(self) -> bool {
        &&& forall|f: FunctionId| #[trigger]
            self.sources.contains_key(f) ==> self.functions.contains_key(self.sources[f])
                && self.functions[self.sources[f]] == f
        &&& forall|p: crate::source::Place| #[trigger]
            self.functions.contains_key(p) ==> self.sources.contains_key(self.functions[p])
                && self.sources[self.functions[p]] == p
    }

    /// Every path that was recorded is the lower case of some path, and holds no ASCII upper case
    /// letter.
    pub open spec fn in_lower_case(self) -> bool {
        &&& forall|i: u32| #[trigger]
            self.paths.contains_key(i) ==> crate::text::is_lowered(self.paths[i])
                && crate::text::ascii_lower(self.paths[i]) == self.paths[i]
        &&& forall|f: FunctionId| #[trigger]
            self.sources.contains_key(f) ==> crate::text::is_lowered(self.sources[f].0)
                && crate::text::ascii_lower(self.sources[f].0) == self.sources[f].0
    }

    /// The path that the file `index` has once it has been seen with `path`: the first path that
    /// was reported for an index stays.
    pub open spec fn path_of(self, index: u32, path: Seq<char>, exe: Option<Seq<char>>) -> Seq<char> {
        if self.paths.contains_key(index) {
            self.paths[index]
        } else {
            source_path(path, exe)
        }
    }

    /// The mapping after `id` was put at `place`: the former place of `id` and the former
    /// function of `place` are gone.
    pub open spec fn placed(self, id: FunctionId, place: crate::source::Place) -> MappingView {
        let functions = if self.sources.contains_key(id) {
            self.functions.remove(self.sources[id])
        } else {
            self.functions
        };
        let sources = if self.functions.contains_key(place) {
            self.sources.remove(self.functions[place])
        } else {
            self.sources
        };
        MappingView {
            functions: functions.insert(place, id),
            sources: sources.insert(id, place),
            paths: self.paths,
        }
    }

    /// The mapping with the path of one more source file.
    pub open spec fn with_path(self, index: u32, path: Seq<char>) -> MappingView {
        MappingView { paths: self.paths.insert(index, path), ..self }
    }

    /// The mapping after one function was put into it.
    pub open spec fn added(self, a: Addition) -> MappingView {
        let path = self.path_of(a.index, a.path, a.exe);
        self.with_path(a.index, path).placed(a.id, (path, a.line))
    }

    /// The mapping after some functions were put into it, one after the other.
    pub open spec fn added_all(self, additions: Seq<Addition>) -> MappingView
        decreases additions.len(),
    {
        if additions.len() == 0 {
            self
        } else {
            self.added_all(additions.drop_last()).added(additions.last())
        }
    }
}

/// Whether `stored` is the path `asked`, up to ASCII letter case.
pub open spec fn same_file(stored: Seq<char>, asked: Seq<char>) -> bool {
    crate::text::ascii_lower(stored) == crate::text::ascii_lower(asked)
}

/// Where a search for `line` of `path` starts.
pub open spec fn search_key(path: Seq<char>, line: u32) -> crate::source::Place {
    (crate::text::lower(path), line)
}

/// Whether `k` is the first place of `m`, in the order of places, that is not before `from`.
pub open spec fn is_first_from(
    m: Map<crate::source::Place, FunctionId>,
    from: crate::source::Place,
    k: crate::source::Place,
) -> bool {
    &&& m.contains_key(k)
    &&& !crate::source::place_less(k, from)
    &&& forall|j: crate::source::Place|
        #![trigger m.contains_key(j)]
        m.contains_key(j) && !crate::source::place_less(j, from) ==> !crate::source::place_less(j, k)
}

/// Whether `k` belongs to the run of places from `line` of `path` on that lie in this file.
pub open spec fn in_run(
    m: Map<crate::source::Place, FunctionId>,
    path: Seq<char>,
    line: u32,
    k: crate::source::Place,
) -> bool {
    &&& m.contains_key(k)
    &&& !crate::source::place_less(k, search_key(path, line))
    &&& forall|j: crate::source::Place|
        #![trigger m.contains_key(j)]
        m.contains_key(j) && !crate::source::place_less(j, search_key(path, line))
            && !crate::source::place_less(k, j) ==> same_file(j.0, path)
}

/// Whether `ks` lists that run in the order of places.
pub open spec fn lists_run(
    m: Map<crate::source::Place, FunctionId>,
    path: Seq<char>,
    line: u32,
    ks: Seq<crate::source::Place>,
) -> bool {
    &&& forall|i: int, j: int|
        0 <= i < j < ks.len() ==> crate::source::place_less(#[trigger] ks[i], #[trigger] ks[j])
    &&& forall|k: crate::source::Place| #[trigger] ks.contains(k) <==> in_run(m, path, line, k)
}

/// The function that `line` of `path` lies in.
pub open spec fn function_at(
    m: Map<crate::source::Place, FunctionId>,
    path: Seq<char>,
    line: u32,
) -> Option<FunctionId> {
    if exists|k: crate::source::Place| #[trigger]
        is_first_from(m, search_key(path, line), k) && same_file(k.0, path) {
        let k = choose|k: crate::source::Place| #[trigger]
            is_first_from(m, search_key(path, line), k) && same_file(k.0, path);
        Some(m[k])
    } else {
        None
    }
}

/// The functions of the file at `path`.
pub open spec fn functions_in(
    m: Map<crate::source::Place, FunctionId>,
    path: Seq<char>,
) -> Set<FunctionId> {
    Set::new(
        |f: FunctionId|
            exists|k: crate::source::Place| #[trigger] in_run(m, path, u32::MAX, k) && m[k] == f,
    )
}

/// The functions of the game and the places that they start at.
#[derive(Debug)]
pub struct FunctionMapping {
    source_to_fn: SourceTable,
    fn_to_source: BTreeMap<(u64, u64), SourceRef>,
    index_to_path: BTreeMap<u32, String>,
}

impl View for FunctionMapping {
    type V = MappingView;

    closed spec fn view(&self) -> MappingView {
        MappingView {
            functions: self.source_to_fn@,
            sources: Map::new(
                |f: FunctionId| self.fn_to_source@.contains_key((f.parent, f.name)),
                |f: FunctionId| self.fn_to_source@[(f.parent, f.name)]@,
            ),
            paths: Map::new(
                |i: u32| self.index_to_path@.contains_key(i),
                |i: u32| self.index_to_path@[i]@,
            ),
        }
    }
}

impl FunctionMapping {
    /// The two directions agree, and paths are in lower case.
    pub closed spec fn wf(&self) -> bool {
        &&& self.source_to_fn.wf()
        &&& self@.inverse()
        &&& self@.in_lower_case()
    }

    /// Every function that has a place is found at that place, and the other way round.
    pub proof fn law_directions_agree(&self)
        requires
            self.wf(),
        ensures
            self@.inverse(),
    {
    }

    /// The paths that are recorded for files and functions are in lower case: each one is the lower
    /// case of some path and holds no ASCII upper case letters, so that each one in ASCII is its
    /// own lower case.
    pub proof fn law_paths_in_lower_case(&self)
        requires
            self.wf(),
        ensures
            self@.in_lower_case(),
            forall|i: u32| #[trigger]
                self@.paths.contains_key(i) && vstd::utf8::is_ascii_chars(self@.paths[i])
                    ==> crate::text::lower(self@.paths[i]) == self@.paths[i],
            forall|f: FunctionId| #[trigger]
                self@.sources.contains_key(f) && vstd::utf8::is_ascii_chars(self@.sources[f].0)
                    ==> crate::text::lower(self@.sources[f].0) == self@.sources[f].0,
    {
    }

    /// The place that is reported for a function leads back to the function, by line and by file.
    /// This is so for every path in ASCII, and for any other that is its own lower case.
    pub proof fn law_reported_place_leads_back(&self, f: FunctionId)
        requires
            self.wf(),
            self@.sources.contains_key(f),
            vstd::utf8::is_ascii_chars(self@.sources[f].0) || crate::text::lower(
                self@.sources[f].0,
            ) == self@.sources[f].0,
        ensures
            function_at(self@.functions, self@.sources[f].0, self@.sources[f].1) == Some(f),
            functions_in(self@.functions, self@.sources[f].0).contains(f),
    {
        let m = self@.functions;
        let k = self@.sources[f];
        crate::source::law_place_order_irreflexive(k);
        assert(search_key(k.0, k.1) == k);
        assert(is_first_from(m, k, k));
        lemma_first_unique(m, k);
        law_function_at_in_file(m, k.0, k.1);
    }

    /// A mapping that holds nothing.
    pub fn new() -> (r: Self)
        ensures
            r.wf(),
            r@.functions == Map::<crate::source::Place, FunctionId>::empty(),
            r@.sources == Map::<FunctionId, crate::source::Place>::empty(),
            r@.paths == Map::<u32, Seq<char>>::empty(),
    {
        let r = FunctionMapping {
            source_to_fn: SourceTable::new(),
            fn_to_source: BTreeMap::new(),
            index_to_path: BTreeMap::new(),
        };
        assert(r@.sources =~= Map::<FunctionId, crate::source::Place>::empty());
        assert(r@.paths =~= Map::<u32, Seq<char>>::empty());
        r
    }

    /// The function that `line` of the file at `path` lies in: the last one that starts at this
    /// line or above it.
    pub fn get_by_loc(&self, path: &str, line: u32) -> (r: Option<FunctionId>)
        requires
            self.wf(),
        ensures
            r == function_at(self@.functions, path@, line),
    {
        let key = SourceRef::new(path, line);
        let at: usize = self.source_to_fn.first_from(&key);
        let ghost m = self@.functions;
        proof {
            self.source_to_fn.lemma_keys();
        }
        if at < self.source_to_fn.len() {
            let row = self.source_to_fn.row(at);
            let ghost k = row.place@;
            proof {
                let places = self.source_to_fn.places();
                assert(places.contains(k));
                assert forall|j: crate::source::Place|
                    #![trigger m.contains_key(j)]
                    m.contains_key(j) && !crate::source::place_less(
                        j,
                        key@,
                    ) implies !crate::source::place_less(j, k) by {
                    assert(places.contains(j));
                    let t = choose|t: int| 0 <= t < places.len() && places[t] == j;
                    crate::source::law_place_order_irreflexive(j);
                    if crate::source::place_less(j, k) && at < t {
                        crate::source::law_place_order_transitive(j, k, j);
                    }
                }
                assert(key@ == search_key(path@, line));
                assert(is_first_from(m, key@, k));
                assert forall|k2: crate::source::Place| #[trigger]
                    is_first_from(m, key@, k2) implies k2 == k by {
                    crate::source::law_place_order_total(k, k2);
                }
            }
            if row.place.file_path().eq_ignore_ascii_case(path) {
                Some(row.func)
            } else {
                None
            }
        } else {
            proof {
                let places = self.source_to_fn.places();
                assert forall|k: crate::source::Place| !#[trigger] is_first_from(m, key@, k) by {
                    if m.contains_key(k) {
                        assert(places.contains(k));
                        let t = choose|t: int| 0 <= t < places.len() && places[t] == k;
                    }
                }
            }
            None
        }
    }

    /// The functions of the file at `path`, from the last one to the first.
    pub fn get_by_file(&self, path: &str) -> (r: Vec<FunctionId>)
        requires
            self.wf(),
        ensures
            exists|ks: Seq<crate::source::Place>| #[trigger]
                lists_run(self@.functions, path@, u32::MAX, ks) && r@ == ks.map_values(
                    |k: crate::source::Place| self@.functions[k],
                ),
    {
        self.get_fns_preceding_line(path, u32::MAX)
    }

    /// The place that the function `key` starts at.
    pub fn get(&self, key: FunctionId) -> (r: Option<&SourceRef>)
        ensures
            match r {
                Some(place) => self@.sources.contains_key(key) && self@.sources[key] == place@,
                None => !self@.sources.contains_key(key),
            },
    {
        self.fn_to_source.get(&(key.parent, key.name))
    }

    /// Puts the function `id` at `line` of the file `source`. A place that the function had is
    /// freed, and so is the function that had the place.
    pub fn add(&mut self, id: FunctionId, source: &SourceFileInfo, exe: Option<&str>, line: u32)
        requires
            old(self).wf(),
        ensures
            final(self).wf(),
            final(self)@ == old(self)@.added(
                (Addition {
                    id,
                    index: source.index,
                    path: source.path@,
                    exe: match exe {
                        Some(exe) => Some(exe@),
                        None => None,
                    },
                    line,
                }),
            ),
    {
        let file_path = self.add_source(source, exe);
        let ghost before = self@;
        let source = SourceRef::new_unchecked(file_path, line);
        let ghost place = source@;

        let gone: Option<SourceRef> = self.fn_to_source.insert((id.parent, id.name), source.clone());
        if let Some(old) = gone {
            assert(before.sources[id] == old@);
            assert(before.sources.contains_key(id));
            let removed = self.source_to_fn.remove(&old);
            assert(removed is Some);
        }
        let ghost freed = self.source_to_fn@;
        assert(freed == (if before.sources.contains_key(id) {
            before.functions.remove(before.sources[id])
        } else {
            before.functions
        }));
        let ghost middle = self@.sources;
        assert(middle =~= before.sources.insert(id, place));
        if let Some(old) = self.source_to_fn.insert(source, id) {
            assert(freed.contains_key(place) && freed[place] == old);
            assert(before.functions.contains_key(place) && before.functions[place] == old);
            assert(before.sources.contains_key(old));
            assert(old != id);
            let removed = self.fn_to_source.remove(&(old.parent, old.name));
            assert(removed is Some);
            assert(self@.sources =~= middle.remove(old));
            assert(self@.sources =~= before.sources.remove(old).insert(id, place));
        } else {
            assert(!freed.contains_key(place));
            proof {
                if before.functions.contains_key(place) {
                    assert(before.functions[place] == id);
                    assert(self@.sources =~= before.sources.remove(id).insert(id, place));
                }
            }
        }
        assert(self@.sources =~= before.placed(id, place).sources);
        assert(self@.functions =~= before.placed(id, place).functions);
        assert(self@.paths =~= before.paths);
    }

    /// The path of a source file, which is worked out when the file is first seen.
    fn add_source(&mut self, source: &SourceFileInfo, exe: Option<&str>) -> (r: String)
        requires
            old(self).wf(),
        ensures
            final(self).wf(),
            r@ == old(self)@.path_of(
                source.index,
                source.path@,
                match exe {
                    Some(exe) => Some(exe@),
                    None => None,
                },
            ),
            final(self)@ == old(self)@.with_path(source.index, r@),
            crate::text::is_lowered(r@),
            crate::text::ascii_lower(r@) == r@,
    {
        let ghost before = self@;
        if let Some(path) = self.index_to_path.get(&source.index) {
            assert(self@.paths =~= before.paths.insert(source.index, path@));
            return path.clone();
        }
        let path = resolve_source(source.path.as_str(), exe);
        let r = path.clone();
        self.index_to_path.insert(source.index, path);
        assert(self@.paths =~= before.paths.insert(source.index, r@));
        assert(self@.sources =~= before.sources);
        assert(self@.functions == before.functions);
        assert(self@.inverse());
        r
    }

    /// The functions of the file at `path` that start at `line` or above it, from the last one to
    /// the first.
    pub fn get_fns_preceding_line(&self, path: &str, line: u32) -> (r: Vec<FunctionId>)
        requires
            self.wf(),
        ensures
            exists|ks: Seq<crate::source::Place>| #[trigger]
                lists_run(self@.functions, path@, line, ks) && r@ == ks.map_values(
                    |k: crate::source::Place| self@.functions[k],
                ),
    {
        let key = SourceRef::new(path, line);
        let from: usize = self.source_to_fn.first_from(&key);
        let ghost m = self@.functions;
        let ghost places = self.source_to_fn.places();
        proof {
            self.source_to_fn.lemma_keys();
        }
        let mut at: usize = from;
        let mut r: Vec<FunctionId> = Vec::new();
        let mut more: bool = true;
        while more && at < self.source_to_fn.len()
            invariant
                self.wf(),
                m == self@.functions,
                places == self.source_to_fn.places(),
                from <= at <= places.len(),
                r@ == places.subrange(from as int, at as int).map_values(
                    |k: crate::source::Place| m[k],
                ),
                forall|i: int| from <= i < at ==> same_file((#[trigger] places[i]).0, path@),
                !more ==> at < places.len() && !same_file(places[at as int].0, path@),
            decreases places.len() - at + (if more { 1int } else { 0int }),
        {
            let row = self.source_to_fn.row(at);
            if row.place.file_path().eq_ignore_ascii_case(path) {
                r.push(row.func);
                at = at + 1;
                assert(r@ =~= places.subrange(from as int, at as int).map_values(
                    |k: crate::source::Place| m[k],
                ));
            } else {
                more = false;
            }
        }
        proof {
            let ks = places.subrange(from as int, at as int);
            assert forall|k: crate::source::Place| #[trigger]
                ks.contains(k) <==> in_run(m, path@, line, k) by {
                if ks.contains(k) {
                    let i = choose|i: int| 0 <= i < ks.len() && ks[i] == k;
                    assert(places[from + i] == k);
                    assert(places.contains(k));
                    assert forall|j: crate::source::Place|
                        #![trigger m.contains_key(j)]
                        m.contains_key(j) && !crate::source::place_less(j, key@)
                            && !crate::source::place_less(k, j) implies same_file(j.0, path@) by {
                        assert(places.contains(j));
                        let t = choose|t: int| 0 <= t < places.len() && places[t] == j;
                        assert(t <= from + i);
                    }
                }
                if in_run(m, path@, line, k) {
                    assert(places.contains(k));
                    let t = choose|t: int| 0 <= t < places.len() && places[t] == k;
                    if t >= at {
                        let stop = places[at as int];
                        assert(places.contains(stop));
                        assert(m.contains_key(stop));
                        crate::source::law_place_order_irreflexive(k);
                        if t > at && crate::source::place_less(k, stop) {
                            crate::source::law_place_order_transitive(k, stop, k);
                        }
                        assert(same_file(stop.0, path@));
                    }
                    assert(ks[t - from] == k);
                }
            }
            assert(lists_run(m, path@, line, ks));
        }
        r
    }
}

/// Putting a function somewhere keeps the two directions in agreement.
pub proof fn law_placed_keeps_inverse(v: MappingView, id: FunctionId, place: crate::source::Place)
    requires
        v.inverse(),
    ensures
        v.placed(id, place).inverse(),
{
}

/// A function that was put somewhere is found there, in both directions. All other functions keep
/// their places, except the one that had this place, which has none any more.
pub proof fn law_placed_is_found(v: MappingView, id: FunctionId, place: crate::source::Place)
    requires
        v.inverse(),
    ensures
        v.placed(id, place).sources.contains_key(id),
        v.placed(id, place).sources[id] == place,
        v.placed(id, place).functions.contains_key(place),
        v.placed(id, place).functions[place] == id,
        forall|f: FunctionId|
            f != id && #[trigger] v.sources.contains_key(f) && v.sources[f] != place ==> v.placed(
                id,
                place,
            ).sources.contains_key(f) && v.placed(id, place).sources[f] == v.sources[f],
        forall|f: FunctionId|
            f != id && #[trigger] v.sources.contains_key(f) && v.sources[f] == place ==> !v.placed(
                id,
                place,
            ).sources.contains_key(f),
{
}

/// The path of a source file is settled when the file is first seen: whatever is added later, the
/// file has this path, whatever other path is reported for it.
pub proof fn law_path_stays(
    v: MappingView,
    first: Addition,
    more: Seq<Addition>,
    later: Seq<char>,
    later_exe: Option<Seq<char>>,
)
    ensures
        v.added(first).added_all(more).paths.contains_key(first.index),
        v.added(first).added_all(more).path_of(first.index, later, later_exe) == v.path_of(
            first.index,
            first.path,
            first.exe,
        ),
    decreases more.len(),
{
    if more.len() > 0 {
        law_path_stays(v, first, more.drop_last(), later, later_exe);
    }
}

/// To work out the path of a source file moves no function.
pub proof fn law_path_moves_nothing(v: MappingView, index: u32, path: Seq<char>)
    ensures
        v.with_path(index, path).functions == v.functions,
        v.with_path(index, path).sources == v.sources,
{
}

/// The function that a line lies in is the first of those that precede the line.
pub proof fn law_function_at_is_first(
    m: Map<crate::source::Place, FunctionId>,
    path: Seq<char>,
    line: u32,
    ks: Seq<crate::source::Place>,
)
    requires
        lists_run(m, path, line, ks),
    ensures
        function_at(m, path, line) == (if ks.len() > 0 {
            Some(m[ks[0]])
        } else {
            None
        }),
{
    let from = search_key(path, line);
    if ks.len() > 0 {
        let k = ks[0];
        assert(ks.contains(k));
        assert forall|j: crate::source::Place|
            #![trigger m.contains_key(j)]
            m.contains_key(j) && !crate::source::place_less(j, from) implies !crate::source::place_less(
            j,
            k,
        ) by {
            if crate::source::place_less(j, k) {
                assert forall|i: crate::source::Place|
                    #![trigger m.contains_key(i)]
                    m.contains_key(i) && !crate::source::place_less(i, from)
                        && !crate::source::place_less(j, i) implies same_file(i.0, path) by {
                    crate::source::law_place_order_total(i, j);
                    if crate::source::place_less(k, i) {
                        crate::source::law_place_order_transitive(j, k, i);
                    }
                }
                assert(in_run(m, path, line, j));
                assert(ks.contains(j));
                let t = choose|t: int| 0 <= t < ks.len() && ks[t] == j;
                crate::source::law_place_order_irreflexive(j);
                if t > 0 {
                    crate::source::law_place_order_transitive(j, k, j);
                }
            }
        }
        crate::source::law_place_order_irreflexive(k);
        assert(is_first_from(m, from, k) && same_file(k.0, path));
        lemma_first_unique(m, from);
    } else {
        assert forall|k: crate::source::Place| !(#[trigger] is_first_from(m, from, k) && same_file(
            k.0,
            path,
        )) by {
            if is_first_from(m, from, k) && same_file(k.0, path) {
                assert forall|i: crate::source::Place|
                    #![trigger m.contains_key(i)]
                    m.contains_key(i) && !crate::source::place_less(i, from)
                        && !crate::source::place_less(k, i) implies same_file(i.0, path) by {
                    crate::source::law_place_order_total(i, k);
                }
                assert(in_run(m, path, line, k));
                assert(ks.contains(k));
            }
        }
    }
}

/// There is at most one first place.
pub proof fn lemma_first_unique(m: Map<crate::source::Place, FunctionId>, from: crate::source::Place)
    ensures
        forall|a: crate::source::Place, b: crate::source::Place| #[trigger]
            is_first_from(m, from, a) && #[trigger] is_first_from(m, from, b) ==> a == b,
{
    assert forall|a: crate::source::Place, b: crate::source::Place| #[trigger]
        is_first_from(m, from, a) && #[trigger] is_first_from(m, from, b) implies a == b by {
        crate::source::law_place_order_total(a, b);
    }
}

/// The search in a file finds exactly the functions of that file that start at the line or above
/// it, whatever the case of the ASCII letters of the path. This is so for every path that differs
/// from its lower case in ASCII letters at most.
pub proof fn law_run_of_file(
    m: Map<crate::source::Place, FunctionId>,
    path: Seq<char>,
    line: u32,
    k: crate::source::Place,
)
    requires
        crate::text::lower(path) == crate::text::ascii_lower(path),
    ensures
        in_run(m, path, line, k) <==> m.contains_key(k) && k.0 == crate::text::ascii_lower(path)
            && k.1 <= line,
{
    let file = crate::text::ascii_lower(path);
    let from = search_key(path, line);
    assert(from == (file, line));
    crate::text::law_ascii_lower_idempotent(path);
    crate::source::law_place_order_irreflexive(from);
    if in_run(m, path, line, k) {
        crate::source::law_place_order_irreflexive(k);
        assert(same_file(k.0, path));
        if k.0 != file {
            crate::source::lemma_not_above_lower(k.0);
            crate::source::law_place_order_total(k, from);
        }
    }
    if m.contains_key(k) && k.0 == file && k.1 <= line {
        assert forall|j: crate::source::Place|
            #![trigger m.contains_key(j)]
            m.contains_key(j) && !crate::source::place_less(j, from) && !crate::source::place_less(
                k,
                j,
            ) implies same_file(j.0, path) by {
            if j.0 != file {
                crate::source::law_place_order_total(j, from);
                crate::source::law_place_order_total(k, j);
            }
        }
        assert(!crate::source::place_less(k, from));
    }
}

/// The function that a line lies in is the one that starts last among those of the file that
/// start at the line or above it. This is so for every path that differs from its lower case in
/// ASCII letters at most.
pub proof fn law_function_at_starts_last(
    m: Map<crate::source::Place, FunctionId>,
    path: Seq<char>,
    line: u32,
)
    requires
        crate::text::lower(path) == crate::text::ascii_lower(path),
    ensures
        match function_at(m, path, line) {
            Some(f) => exists|start: u32|
                start <= line && #[trigger] m.contains_key((crate::text::ascii_lower(path), start))
                    && m[(crate::text::ascii_lower(path), start)] == f && forall|other: u32|
                    start < other <= line ==> !#[trigger] m.contains_key(
                        (crate::text::ascii_lower(path), other),
                    ),
            None => forall|start: u32|
                start <= line ==> !#[trigger] m.contains_key(
                    (crate::text::ascii_lower(path), start),
                ),
        },
{
    let file = crate::text::ascii_lower(path);
    let from = search_key(path, line);
    crate::text::law_ascii_lower_idempotent(path);
    crate::source::law_place_order_irreflexive(from);
    if exists|k: crate::source::Place| #[trigger] is_first_from(m, from, k) && same_file(k.0, path) {
        let k = choose|k: crate::source::Place| #[trigger]
            is_first_from(m, from, k) && same_file(k.0, path);
        assert forall|i: crate::source::Place|
            #![trigger m.contains_key(i)]
            m.contains_key(i) && !crate::source::place_less(i, from) && !crate::source::place_less(
                k,
                i,
            ) implies same_file(i.0, path) by {
            crate::source::law_place_order_total(i, k);
        }
        law_run_of_file(m, path, line, k);
        assert(k == (file, k.1));
        assert forall|other: u32| k.1 < other <= line implies !#[trigger] m.contains_key(
            (file, other),
        ) by {
            assert(crate::source::place_less((file, other), k));
        }
    } else {
        assert forall|start: u32| start <= line implies !#[trigger] m.contains_key((file, start)) by {
            if m.contains_key((file, start)) {
                lemma_first_exists(m, file, line, start);
                let s = choose|s: u32| start <= s <= line && #[trigger] is_first_from(m, from, (file, s));
                assert(same_file((file, s).0, path));
            }
        }
    }
}

proof fn lemma_first_exists(
    m: Map<crate::source::Place, FunctionId>,
    file: Seq<char>,
    line: u32,
    start: u32,
)
    requires
        start <= line,
        m.contains_key((file, start)),
    ensures
        exists|s: u32| start <= s <= line && #[trigger] is_first_from(m, (file, line), (file, s)),
    decreases line - start,
{
    let from = (file, line);
    let k = (file, start);
    crate::source::law_place_order_irreflexive(from);
    if exists|s: u32| start < s <= line && #[trigger] m.contains_key((file, s)) {
        let s = choose|s: u32| start < s <= line && #[trigger] m.contains_key((file, s));
        lemma_first_exists(m, file, line, s);
    } else {
        assert forall|j: crate::source::Place|
            #![trigger m.contains_key(j)]
            m.contains_key(j) && !crate::source::place_less(j, from) implies !crate::source::place_less(
            j,
            k,
        ) by {
            if crate::source::place_less(j, k) {
                if j.0 == file {
                    assert(j == (file, j.1));
                } else {
                    crate::source::law_place_order_total(j, from);
                    crate::source::law_place_order_transitive(j, k, (file, start));
                }
            }
        }
        assert(is_first_from(m, from, k));
    }
}

/// Lookups do not see the case of the ASCII letters of a path. This is so for all paths that
/// differ from their lower case in ASCII letters at most.
pub proof fn law_lookup_ignores_ascii_case(
    m: Map<crate::source::Place, FunctionId>,
    a: Seq<char>,
    b: Seq<char>,
    line: u32,
)
    requires
        crate::text::lower(a) == crate::text::ascii_lower(a),
        crate::text::lower(b) == crate::text::ascii_lower(b),
        crate::text::ascii_lower(a) == crate::text::ascii_lower(b),
    ensures
        function_at(m, a, line) == function_at(m, b, line),
        functions_in(m, a) == functions_in(m, b),
{
    let from = search_key(a, line);
    assert(from == search_key(b, line));
    lemma_first_unique(m, from);
    assert(functions_in(m, a) =~= functions_in(m, b)) by {
        assert forall|f: FunctionId| functions_in(m, a).contains(f) == functions_in(m, b).contains(f) by {
            if functions_in(m, a).contains(f) {
                let k = choose|k: crate::source::Place| #[trigger]
                    in_run(m, a, u32::MAX, k) && m[k] == f;
                assert(in_run(m, b, u32::MAX, k));
            }
            if functions_in(m, b).contains(f) {
                let k = choose|k: crate::source::Place| #[trigger]
                    in_run(m, b, u32::MAX, k) && m[k] == f;
                assert(in_run(m, a, u32::MAX, k));
            }
        }
    }
}

/// The function that a line of a file lies in is one of the functions of the file. This is so for
/// every path that differs from its lower case in ASCII letters at most.
pub proof fn law_function_at_in_file(
    m: Map<crate::source::Place, FunctionId>,
    path: Seq<char>,
    line: u32,
)
    requires
        same_file(crate::text::lower(path), path),
    ensures
        match function_at(m, path, line) {
            Some(f) => functions_in(m, path).contains(f),
            None => true,
        },
{
    let from = search_key(path, line);
    let all = search_key(path, u32::MAX);
    if exists|k: crate::source::Place| #[trigger] is_first_from(m, from, k) && same_file(k.0, path) {
        let k = choose|k: crate::source::Place| #[trigger]
            is_first_from(m, from, k) && same_file(k.0, path);
        if crate::source::place_less(k, all) {
            crate::source::law_place_order_irreflexive(from);
            if all != from {
                crate::source::law_place_order_transitive(k, all, from);
            }
        }
        assert forall|j: crate::source::Place|
            #![trigger m.contains_key(j)]
            m.contains_key(j) && !crate::source::place_less(j, all) && !crate::source::place_less(
                k,
                j,
            ) implies same_file(j.0, path) by {
            if crate::source::place_less(j, from) {
                crate::source::law_place_order_total(j, all);
            } else {
                crate::source::law_place_order_total(j, k);
            }
        }
        assert(in_run(m, path, u32::MAX, k));
    }
}

/// A function that was put at a line of a file is found there by the path of the file, whatever
/// the case of its ASCII letters. This is so for every path that differs from its lower case in
/// ASCII letters at most.
pub proof fn law_added_function_is_found(
    v: MappingView,
    id: FunctionId,
    path: Seq<char>,
    line: u32,
)
    requires
        same_file(crate::text::lower(path), path),
    ensures
        function_at(v.placed(id, (crate::text::lower(path), line)).functions, path, line) == Some(id),
{
    let m = v.placed(id, (crate::text::lower(path), line)).functions;
    let k = search_key(path, line);
    crate::source::law_place_order_irreflexive(k);
    assert(is_first_from(m, k, k));
    lemma_first_unique(m, k);
}

} // verus!
