//! Modules of a multi-file program: import resolution, dependencies and
//! exports.
//!
//! Resolution walks the imports depth first from the entry file.  Reading
//! files and asking the file system about paths is left to the caller: the
//! resolver answers each step with the next thing it needs
//! ([`ResolveAction`]), and the caller answers with what it found.
use vstd::prelude::*;
use crate::ast::{ImportPath, Item, Program};
use crate::error::CompileError;
use crate::parser::{parse, parses_to};
use crate::paths::{
    has_extension, join_path, parent_of, path_has_extension, path_join, path_parent, path_pop,
    path_set_extension, path_strip_prefix, path_without_extension, pop_path, set_extension,
    strip_prefix, without_extension,
};
use crate::prompts::str_eq;
use crate::strutil::{push_char, str_chars};

verus! {

/// A resolved module.
#[derive(Debug, Clone)]
pub struct Module {
    /// The path of the module's file, as it was reached.
    pub path: String,
    /// The module's id: its path relative to the project root, without extension.
    pub id: String,
    /// The ids of the modules it imports, in order.
    pub dependencies: Vec<String>,
    /// The source text.
    pub source: String,
}

/// What a module exports.
#[derive(Debug, Clone)]
pub struct ModuleExports {
    /// The default export: a worker or function declared `export default`.
    pub default: Option<String>,
    /// The other exported workers and functions, in order.
    pub named: Vec<String>,
}

/// The names a list of strings holds.
pub open spec fn strs(v: Seq<String>) -> Seq<Seq<char>> {
    v.map_values(|s: String| s@)
}

/// The exports of the items: the last `export default` declaration, and
/// the other exported workers and functions.
pub open spec fn exports_of(items: Seq<Item>) -> (Option<Seq<char>>, Seq<Seq<char>>)
    decreases items.len(),
{
    if items.len() == 0 {
        (None, Seq::empty())
    } else {
        let (d, named) = exports_of(items.drop_last());
        match items.last() {
            Item::Worker(w) => if w.is_default {
                (Some(w.name@), named)
            } else if w.is_exported {
                (d, named.push(w.name@))
            } else {
                (d, named)
            },
            Item::Function(f) => if f.is_default {
                (Some(f.name@), named)
            } else if f.is_exported {
                (d, named.push(f.name@))
            } else {
                (d, named)
            },
            _ => (d, named),
        }
    }
}

/// The value of a module's exports.
pub open spec fn exports_view(e: ModuleExports) -> (Option<Seq<char>>, Seq<Seq<char>>) {
    (
        match e.default {
            Some(d) => Some(d@),
            None => None,
        },
        strs(e.named@),
    )
}

/// `e` is what the source text `src` exports: the exports of the program
/// that it parses to.
pub open spec fn exports_of_source(src: Seq<char>, e: ModuleExports) -> bool {
    exists|p: Program| parses_to(src, p) && exports_view(e) == exports_of(p.items@)
}

/// The exports of a program.
pub fn extract_exports(program: &Program) -> (r: ModuleExports)
    ensures
        exports_view(r) == exports_of(program.items@),
{
    let items = &program.items;
    let mut default: Option<String> = None;
    let mut named: Vec<String> = Vec::new();
    let mut i: usize = 0;
    while i < items.len()
        invariant
            i <= items.len(),
            items == &program.items,
            exports_view(ModuleExports { default: default, named: named }) == exports_of(
                items@.take(i as int),
            ),
        decreases items.len() - i,
    {
        proof {
            assert(items@.take(i + 1).drop_last() =~= items@.take(i as int));
        }
        let ghost before = named@;
        match &items[i] {
            Item::Worker(w) => {
                if w.is_default {
                    default = Some(w.name.to_owned());
                } else if w.is_exported {
                    named.push(w.name.to_owned());
                    proof {
                        assert(strs(named@) =~= strs(before).push(w.name@));
                    }
                }
            },
            Item::Function(f) => {
                if f.is_default {
                    default = Some(f.name.to_owned());
                } else if f.is_exported {
                    named.push(f.name.to_owned());
                    proof {
                        assert(strs(named@) =~= strs(before).push(f.name@));
                    }
                }
            },
            _ => {},
        }
        i = i + 1;
    }
    proof {
        assert(items@.take(items.len() as int) =~= items@);
    }
    ModuleExports { default, named }
}

/// A path with backslashes made forward slashes.
pub open spec fn slashes(s: Seq<char>) -> Seq<char> {
    s.map_values(|c: char|
        if c == '\\' {
            '/'
        } else {
            c
        })
}

/// The id of the module at canonical path `canon` under the canonical root:
/// the path relative to the root, without extension, with forward slashes;
/// none where the path is not under the root.
pub open spec fn module_id_of(canon: Seq<char>, root: Seq<char>) -> Option<Seq<char>> {
    match path_strip_prefix(canon, root) {
        Some(rel) => Some(slashes(path_without_extension(rel))),
        None => None,
    }
}

/// The message for a path outside the project root.
pub open spec fn outside_root_msg(root: Seq<char>) -> Seq<char> {
    "Path is not relative to root "@ + root
}

/// The id of a module, from its canonical path; `shown` is the path as it
/// was reached, for the error.
pub fn path_to_module_id(canon: &str, root: &str, shown: &str) -> (r: Result<String, CompileError>)
    ensures
        match module_id_of(canon@, root@) {
            Some(id) => r matches Ok(s) && s@ == id,
            None => r matches Err(CompileError::ModuleResolution { path, reason }) && path@
                == shown@ && reason@ == outside_root_msg(root@),
        },
{
    match strip_prefix(canon, root) {
        Some(rel) => {
            let bare = without_extension(rel.as_str());
            let cs = str_chars(bare.as_str());
            let mut out = String::new();
            let mut i: usize = 0;
            while i < cs.len()
                invariant
                    i <= cs.len(),
                    cs@ == bare@,
                    out@ == slashes(cs@.take(i as int)),
                decreases cs.len() - i,
            {
                let c = if cs[i] == '\\' {
                    '/'
                } else {
                    cs[i]
                };
                push_char(&mut out, c);
                proof {
                    assert(out@ =~= slashes(cs@.take(i + 1)));
                }
                i = i + 1;
            }
            proof {
                assert(cs@.take(cs.len() as int) =~= cs@);
            }
            Ok(out)
        },
        None => {
            let mut reason = "Path is not relative to root ".to_owned();
            reason.append(root);
            Err(CompileError::ModuleResolution { path: shown.to_owned(), reason })
        },
    }
}

/// A file a relative import may name, and the name an error reports it by.
#[derive(Debug, Clone)]
pub struct Candidate {
    /// The path of the file.
    pub path: String,
    /// The module as the import wrote it.
    pub name: String,
}

/// The directory `dir` after the segments of an import: `.` stays, `..`
/// goes up, others go down.
pub open spec fn walk_segments(dir: Seq<char>, segs: Seq<Seq<char>>) -> Seq<char>
    decreases segs.len(),
{
    if segs.len() == 0 {
        dir
    } else {
        let d = walk_segments(dir, segs.drop_last());
        let s = segs.last();
        if s == "."@ {
            d
        } else if s == ".."@ {
            path_pop(d)
        } else {
            path_join(d, s)
        }
    }
}

/// Walking an import's segments from a directory goes one segment at a
/// time from the front: `..` first moves to the parent (as `PathBuf::pop`
/// leaves it), `.` stays, and any other segment moves into the directory of
/// that name (as `Path::join` gives it).
pub proof fn law_walk_first_segment(dir: Seq<char>, s: Seq<char>, rest: Seq<Seq<char>>)
    ensures
        s == ".."@ ==> walk_segments(dir, seq![s] + rest) == walk_segments(path_pop(dir), rest),
        s == "."@ ==> walk_segments(dir, seq![s] + rest) == walk_segments(dir, rest),
        s != ".."@ && s != "."@ ==> walk_segments(dir, seq![s] + rest) == walk_segments(
            path_join(dir, s),
            rest,
        ),
    decreases rest.len(),
{
    reveal_strlit("..");
    reveal_strlit(".");
    let full = seq![s] + rest;
    if rest.len() == 0 {
        assert(full =~= seq![s]);
        assert(full.drop_last() =~= Seq::<Seq<char>>::empty());
        assert(full.last() == s);
        assert(walk_segments(dir, full.drop_last()) == dir);
        assert(walk_segments(dir, rest) == dir);
        assert(walk_segments(path_pop(dir), rest) == path_pop(dir));
        assert(walk_segments(path_join(dir, s), rest) == path_join(dir, s));
    } else {
        law_walk_first_segment(dir, s, rest.drop_last());
        assert(full.drop_last() =~= seq![s] + rest.drop_last());
        assert(full.last() == rest.last());
    }
}

/// An import whose path starts with `..` names a file found from the parent
/// of the importing file's directory: `import ../x/y` from a file in `dir`
/// names `y.pw` under `x` under the parent of `dir`.
pub proof fn law_import_goes_up(item: Item, dir: Seq<char>)
    requires
        item matches Item::Import(d) && d.path matches ImportPath::Simple(segs) && segs@.len() > 0
            && segs@[0]@ == ".."@,
    ensures
        ({
            let segs = item->Import_0.path->Simple_0@;
            item_candidates(item, Some(dir)) == Some(
                seq![(with_pw(walk_segments(path_pop(dir), slices(segs).drop_first())), dotted(slices(segs)))],
            )
        }),
{
    let segs = item->Import_0.path->Simple_0@;
    let ss = slices(segs);
    reveal_strlit("..");
    reveal_strlit("std");
    assert(ss[0] == ".."@);
    assert(ss =~= seq![ss[0]] + ss.drop_first());
    law_walk_first_segment(dir, ss[0], ss.drop_first());
}

/// `import ../x` from a file in `dir` names the file `x.pw` in the parent
/// of `dir` (the directory left after `PathBuf::pop`), under the name
/// `...x`.
pub proof fn law_import_from_parent(item: Item, dir: Seq<char>)
    requires
        item matches Item::Import(d) && d.path matches ImportPath::Simple(segs) && segs@.len() == 2
            && segs@[0]@ == ".."@ && segs@[1]@ != "."@ && segs@[1]@ != ".."@,
    ensures
        ({
            let x = item->Import_0.path->Simple_0@[1]@;
            candidates_of(seq![item], Some(dir)) == Some(
                seq![(with_pw(path_join(path_pop(dir), x)), ".."@ + "."@ + x)],
            )
        }),
{
    let segs = item->Import_0.path->Simple_0@;
    let ss = slices(segs);
    let x = segs[1]@;
    law_import_goes_up(item, dir);
    assert(ss.drop_first() =~= seq![x]);
    assert(seq![x].drop_last() =~= Seq::<Seq<char>>::empty());
    assert(seq![x].last() == x);
    assert(walk_segments(path_pop(dir), Seq::<Seq<char>>::empty()) == path_pop(dir));
    assert(walk_segments(path_pop(dir), seq![x]) == path_join(path_pop(dir), x));
    assert(ss.drop_last() =~= seq![ss[0]]);
    assert(dotted(seq![ss[0]]) == ".."@);
    assert(dotted(ss) == ".."@ + "."@ + x);
    assert(seq![item].drop_last() =~= Seq::<Item>::empty());
    let c2 = seq![(with_pw(path_join(path_pop(dir), x)), ".."@ + "."@ + x)];
    assert(item_candidates(item, Some(dir)) == Some(c2));
    assert(candidates_of(Seq::<Item>::empty(), Some(dir)) == Some(Seq::<(Seq<char>, Seq<char>)>::empty()));
    assert(seq![item].last() == item);
    assert(Seq::<(Seq<char>, Seq<char>)>::empty() + c2 =~= c2);
}

/// A path with the extension `pw` where it has none.
pub open spec fn with_pw(p: Seq<char>) -> Seq<char> {
    if path_has_extension(p) {
        p
    } else {
        path_set_extension(p, "pw"@)
    }
}

/// The strings separated by dots.
pub open spec fn dotted(ss: Seq<Seq<char>>) -> Seq<char>
    decreases ss.len(),
{
    if ss.len() == 0 {
        Seq::empty()
    } else if ss.len() == 1 {
        ss[0]
    } else {
        dotted(ss.drop_last()) + "."@ + ss.last()
    }
}

/// The strings of a list of string slices.
pub open spec fn slices(v: Seq<&str>) -> Seq<Seq<char>> {
    v.map_values(|s: &str| s@)
}

/// The files an item imports, given the directory of the importing file
/// (none where it has no parent): `std` imports name no file; a path names
/// one file (with extension `pw` where it has none); `./{a, b}` names
/// `a.pw` and `b.pw`.  `None` where a file is named but there is no
/// directory.
pub open spec fn item_candidates(item: Item, dir: Option<Seq<char>>) -> Option<Seq<(Seq<char>, Seq<char>)>> {
    match item {
        Item::Import(d) => match d.path {
            ImportPath::Simple(segs) => if segs@.len() > 0 && segs@[0]@ == "std"@ {
                Some(Seq::empty())
            } else {
                match dir {
                    Some(dd) => Some(
                        seq![(with_pw(walk_segments(dd, slices(segs@))), dotted(slices(segs@)))],
                    ),
                    None => None,
                }
            },
            ImportPath::RelativeMulti(names) => match dir {
                Some(dd) => Some(
                    slices(names@).map_values(|n: Seq<char>| (path_set_extension(path_join(dd, n), "pw"@), n)),
                ),
                None => None,
            },
        },
        _ => Some(Seq::empty()),
    }
}

/// The files the items import, in order.
pub open spec fn candidates_of(items: Seq<Item>, dir: Option<Seq<char>>) -> Option<Seq<(Seq<char>, Seq<char>)>>
    decreases items.len(),
{
    if items.len() == 0 {
        Some(Seq::empty())
    } else {
        match candidates_of(items.drop_last(), dir) {
            Some(c) => match item_candidates(items.last(), dir) {
                Some(c2) => Some(c + c2),
                None => None,
            },
            None => None,
        }
    }
}

/// The values of candidates.
pub open spec fn candidates_view(v: Seq<Candidate>) -> Seq<(Seq<char>, Seq<char>)> {
    v.map_values(|c: Candidate| (c.path@, c.name@))
}

/// The message for an importing file without a directory.
pub open spec fn no_parent_msg() -> Seq<char> {
    "Cannot get parent directory"@
}

/// The strings separated by dots.
fn join_dotted(ss: &Vec<&str>) -> (r: String)
    ensures
        r@ == dotted(slices(ss@)),
{
    let ghost v = slices(ss@);
    let mut out = String::new();
    let mut i: usize = 0;
    while i < ss.len()
        invariant
            i <= ss.len(),
            v == slices(ss@),
            out@ == dotted(v.take(i as int)),
        decreases ss.len() - i,
    {
        proof {
            assert(v.take(i + 1).drop_last() =~= v.take(i as int));
            assert(v.take(i + 1).last() == ss@[i as int]@);
        }
        if i > 0 {
            out.append(".");
        }
        out.append(ss[i]);
        proof {
            if i == 0 {
                assert(v.take(1)[0] == ss@[0]@);
            }
        }
        i = i + 1;
    }
    proof {
        assert(v.take(ss.len() as int) =~= v);
    }
    out
}

/// The directory reached from `dir` by the segments of an import.
fn walk(dir: &str, segs: &Vec<&str>) -> (r: String)
    ensures
        r@ == walk_segments(dir@, slices(segs@)),
{
    let ghost v = slices(segs@);
    let mut path = dir.to_owned();
    let mut i: usize = 0;
    while i < segs.len()
        invariant
            i <= segs.len(),
            v == slices(segs@),
            path@ == walk_segments(dir@, v.take(i as int)),
        decreases segs.len() - i,
    {
        proof {
            assert(v.take(i + 1).drop_last() =~= v.take(i as int));
            assert(v.take(i + 1).last() == segs@[i as int]@);
        }
        if str_eq(segs[i], ".") {
        } else if str_eq(segs[i], "..") {
            path = pop_path(path.as_str());
        } else {
            path = join_path(path.as_str(), segs[i]);
        }
        i = i + 1;
    }
    proof {
        assert(v.take(segs.len() as int) =~= v);
    }
    path
}

/// The files a program imports, for the file at `current`.
pub fn import_candidates(program: &Program, current: &str) -> (r: Result<
    Vec<Candidate>,
    CompileError,
>)
    ensures
        match candidates_of(program.items@, path_parent(current@)) {
            Some(c) => r matches Ok(v) && candidates_view(v@) == c,
            None => r matches Err(CompileError::ModuleResolution { path, reason }) && path@
                == current@ && reason@ == no_parent_msg(),
        },
{
    let dir = parent_of(current);
    let ghost d = path_parent(current@);
    let items = &program.items;
    let mut out: Vec<Candidate> = Vec::new();
    let mut i: usize = 0;
    while i < items.len()
        invariant
            i <= items.len(),
            items == &program.items,
            d == path_parent(current@),
            match dir {
                Some(x) => d == Some(x@),
                None => d is None,
            },
            candidates_of(items@.take(i as int), d) == Some(candidates_view(out@)),
        decreases items.len() - i,
    {
        proof {
            assert(items@.take(i + 1).drop_last() =~= items@.take(i as int));
        }
        let ghost before = candidates_view(out@);
        match &items[i] {
            Item::Import(decl) => match &decl.path {
                ImportPath::Simple(segs) => {
                    if segs.len() > 0 && str_eq(segs[0], "std") {
                        proof {
                            assert(before + Seq::empty() =~= before);
                        }
                    } else {
                        match &dir {
                            Some(dd) => {
                                let walked = walk(dd.as_str(), segs);
                                let path = if has_extension(walked.as_str()) {
                                    walked
                                } else {
                                    {
                                        proof {
                                            reveal_strlit("pw");
                                        }
                                        set_extension(walked.as_str(), "pw")
                                    }
                                };
                                let name = join_dotted(segs);
                                out.push(Candidate { path, name });
                                proof {
                                    reveal_strlit("pw");
                                    assert(candidates_view(out@) =~= before + seq![
                                        (out@.last().path@, out@.last().name@),
                                    ]);
                                }
                            },
                            None => {
                                proof {
                                    lemma_candidates_none(items@, d, i + 1, items.len() as int);
                                    assert(items@.take(items.len() as int) =~= items@);
                                }
                                return Err(
                                    CompileError::ModuleResolution {
                                        path: current.to_owned(),
                                        reason: "Cannot get parent directory".to_owned(),
                                    },
                                );
                            },
                        }
                    }
                },
                ImportPath::RelativeMulti(names) => {
                    match &dir {
                        Some(dd) => {
                            let ghost added = slices(names@).map_values(
                                |n: Seq<char>| (path_set_extension(path_join(d->Some_0, n), "pw"@), n),
                            );
                            let mut k: usize = 0;
                            while k < names.len()
                                invariant
                                    k <= names.len(),
                                    d == Some(dd@),
                                    added == slices(names@).map_values(
                                        |n: Seq<char>|
                                            (path_set_extension(path_join(d->Some_0, n), "pw"@), n),
                                    ),
                                    candidates_view(out@) == before + added.take(k as int),
                                decreases names.len() - k,
                            {
                                let joined = join_path(dd.as_str(), names[k]);
                                proof {
                                    reveal_strlit("pw");
                                }
                                let path = set_extension(joined.as_str(), "pw");
                                let ghost b2 = candidates_view(out@);
                                out.push(Candidate { path, name: names[k].to_owned() });
                                proof {
                                    reveal_strlit("pw");
                                    assert(candidates_view(out@) =~= b2.push(
                                        (out@.last().path@, out@.last().name@),
                                    ));
                                    assert(added.take(k + 1) =~= added.take(k as int).push(
                                        added[k as int],
                                    ));
                                }
                                k = k + 1;
                            }
                            proof {
                                assert(added.take(names.len() as int) =~= added);
                            }
                        },
                        None => {
                            proof {
                                lemma_candidates_none(items@, d, i + 1, items.len() as int);
                                assert(items@.take(items.len() as int) =~= items@);
                            }
                            return Err(
                                CompileError::ModuleResolution {
                                    path: current.to_owned(),
                                    reason: "Cannot get parent directory".to_owned(),
                                },
                            );
                        },
                    }
                },
            },
            _ => {
                proof {
                    assert(before + Seq::empty() =~= before);
                }
            },
        }
        i = i + 1;
    }
    proof {
        assert(items@.take(items.len() as int) =~= items@);
    }
    Ok(out)
}

/// Once the candidates of a prefix of the items are missing, they are
/// missing for every longer prefix.
proof fn lemma_candidates_none(items: Seq<Item>, d: Option<Seq<char>>, k: int, j: int)
    requires
        0 <= k <= j <= items.len(),
        candidates_of(items.take(k), d) is None,
    ensures
        candidates_of(items.take(j), d) is None,
    decreases j - k,
{
    if j > k {
        lemma_candidates_none(items, d, k, j - 1);
        assert(items.take(j).drop_last() =~= items.take(j - 1));
    }
}

/// What the file system says about a path that an import names.
#[derive(Debug)]
pub enum Location {
    /// No file is there.
    Missing,
    /// The file is there; this is its canonical path.
    Found(String),
    /// The path could not be made canonical; this is the system's message.
    Failed(String),
}

/// What the resolver needs next.
#[derive(Debug)]
pub enum ResolveAction {
    /// The text of this file.
    Read(String),
    /// What is at each of these paths, in order.
    Locate(Vec<String>),
    /// Nothing: resolution is complete.
    Done,
}

/// Where resolution stands.
#[derive(Debug, Clone, Copy, PartialEq, Eq, Structural)]
pub enum ResolvePhase {
    /// No resolution under way.
    Idle,
    /// Waiting for the text of the module being visited.
    Reading,
    /// Waiting for the locations of the files it imports.
    Locating,
}

/// A module being visited.
struct Frame {
    id: String,
    path: String,
    source: String,
    exports: ModuleExports,
    candidates: Vec<Candidate>,
    /// Its dependencies: module id and path.
    deps: Vec<(String, String)>,
    /// How many dependencies have been visited.
    next: usize,
}

/// Resolves the modules of a program and tracks their dependencies.
pub struct ModuleResolver {
    root: String,
    root_canonical: String,
    modules: Vec<Module>,
    exports: Vec<ModuleExports>,
    frames: Vec<Frame>,
    phase: ResolvePhase,
}

/// The ids of some modules.
pub open spec fn ids_of(ms: Seq<Module>) -> Seq<Seq<char>> {
    ms.map_values(|m: Module| m.id@)
}

/// Every dependency of a module is a module that comes before it.
pub open spec fn deps_come_first(ms: Seq<Module>) -> bool {
    forall|i: int, k: int|
        #![trigger ms[i].dependencies@[k]]
        0 <= i < ms.len() && 0 <= k < ms[i].dependencies@.len() ==> ids_of(ms.take(i)).contains(
            ms[i].dependencies@[k]@,
        )
}

impl ModuleResolver {
    /// The resolved modules, in the order in which they were completed.
    pub closed spec fn modules_spec(self) -> Seq<Module> {
        self.modules@
    }

    /// Where resolution stands.
    pub closed spec fn phase_spec(self) -> ResolvePhase {
        self.phase
    }

    /// The ids of the modules being visited, outermost first.
    pub closed spec fn visiting(self) -> Seq<Seq<char>> {
        self.frames@.map_values(|f: Frame| f.id@)
    }

    /// The project root.
    pub closed spec fn root_spec(self) -> Seq<char> {
        self.root@
    }

    /// The files the module being visited imports, while their locations are awaited.
    pub closed spec fn pending_candidates(self) -> Seq<(Seq<char>, Seq<char>)> {
        if self.frames.len() > 0 {
            candidates_view(self.frames@.last().candidates@)
        } else {
            Seq::empty()
        }
    }

    /// The path of the module being visited.
    pub closed spec fn current_path(self) -> Seq<char> {
        if self.frames.len() > 0 {
            self.frames@.last().path@
        } else {
            Seq::empty()
        }
    }

    /// The invariant of resolution (see `frames_ok`).
    pub closed spec fn wf_frames(self) -> bool {
        &&& self.exports@.len() == self.modules@.len()
        &&& frames_ok(self.modules@, self.frames@)
        &&& modules_exports_ok(self.modules@, self.exports@)
        &&& frames_parsed(self.frames@, self.frames.len() - 1)
    }

    /// The invariant, with where resolution stands: idle with no module
    /// being visited, or waiting on the innermost module being visited.
    pub closed spec fn wf(self) -> bool {
        &&& self.wf_frames()
        &&& (self.phase == ResolvePhase::Idle ==> self.frames.len() == 0)
        &&& (self.phase != ResolvePhase::Idle ==> self.frames.len() > 0 && self.frames@.last().next
            == 0 && self.frames@.last().deps.len() == 0)
        &&& (self.phase == ResolvePhase::Locating ==> frames_parsed(self.frames@, self.frames.len() as int))
    }
}

/// Each resolved module has the exports of its source text.
spec fn modules_exports_ok(ms: Seq<Module>, es: Seq<ModuleExports>) -> bool {
    &&& es.len() == ms.len()
    &&& forall|j: int| 0 <= j < ms.len() ==> exports_of_source(#[trigger] ms[j].source@, es[j])
}

/// The first `n` frames have the exports of their source texts.
spec fn frames_parsed(fs: Seq<Frame>, n: int) -> bool {
    forall|k: int| 0 <= k < n ==> exports_of_source(#[trigger] fs[k].source@, fs[k].exports)
}

/// The ids of frames.
spec fn frame_ids(fs: Seq<Frame>) -> Seq<Seq<char>> {
    fs.map_values(|f: Frame| f.id@)
}

/// The dependencies of a frame before `upto` are resolved modules.
spec fn resolved_upto(ms: Seq<Module>, f: Frame, upto: int) -> bool {
    forall|m: int| 0 <= m < upto ==> ids_of(ms).contains(#[trigger] f.deps@[m].0@)
}

/// Each frame but the innermost has resolved the dependencies before the
/// one it visits, which is the next frame.
spec fn chain_ok(ms: Seq<Module>, fs: Seq<Frame>) -> bool {
    forall|k: int|
        0 <= k < fs.len() - 1 ==> {
            let f = #[trigger] fs[k];
            &&& 1 <= f.next <= f.deps.len()
            &&& f.deps@[f.next - 1].0@ == fs[k + 1].id@
            &&& resolved_upto(ms, f, f.next - 1)
        }
}

/// The innermost frame has resolved the dependencies it visited.
spec fn top_ok(ms: Seq<Module>, fs: Seq<Frame>) -> bool {
    fs.len() > 0 ==> fs.last().next <= fs.last().deps.len() && resolved_upto(
        ms,
        fs.last(),
        fs.last().next as int,
    )
}

/// No module being visited is resolved.
spec fn disjoint(ms: Seq<Module>, fs: Seq<Frame>) -> bool {
    forall|k: int| 0 <= k < fs.len() ==> !ids_of(ms).contains(#[trigger] fs[k].id@)
}

/// The invariant of resolution: module ids are distinct, dependencies come
/// first, the modules being visited are distinct, not resolved, and each
/// visits the next.
#[verifier::opaque]
spec fn frames_ok(ms: Seq<Module>, fs: Seq<Frame>) -> bool {
    &&& ids_of(ms).no_duplicates()
    &&& deps_come_first(ms)
    &&& frame_ids(fs).no_duplicates()
    &&& disjoint(ms, fs)
    &&& chain_ok(ms, fs)
    &&& top_ok(ms, fs)
}

/// Adding a module adds its id.
proof fn lemma_ids_push(ms: Seq<Module>, m: Module)
    ensures
        ids_of(ms.push(m)) == ids_of(ms).push(m.id@),
{
    assert(ids_of(ms.push(m)) =~= ids_of(ms).push(m.id@));
}

/// Resolving a module keeps resolved what was resolved.
proof fn lemma_resolved_mono(ms: Seq<Module>, x: Module, f: Frame, upto: int)
    requires
        resolved_upto(ms, f, upto),
    ensures
        resolved_upto(ms.push(x), f, upto),
{
    lemma_ids_push(ms, x);
    assert forall|m: int| 0 <= m < upto implies ids_of(ms.push(x)).contains(#[trigger] f.deps@[m].0@) by {
        let d = f.deps@[m].0@;
        assert(ids_of(ms).contains(d));
        let j = choose|j: int| 0 <= j < ids_of(ms).len() && ids_of(ms)[j] == d;
        assert(ids_of(ms.push(x))[j] == d);
    }
}

/// Completing the innermost frame as module `m`: module ids stay distinct.
proof fn lemma_finish_ids(ms: Seq<Module>, fs: Seq<Frame>, m: Module)
    requires
        frames_ok(ms, fs),
        fs.len() > 0,
        fs.last().next == fs.last().deps.len(),
        m.id@ == fs.last().id@,
        m.dependencies@.len() == fs.last().deps.len(),
        forall|k: int| 0 <= k < m.dependencies@.len() ==> #[trigger] m.dependencies@[k]@ == fs.last().deps@[k].0@,
    ensures
        ids_of(ms.push(m)).no_duplicates(),
{
    reveal(frames_ok);
    lemma_ids_push(ms, m);
    assert(!ids_of(ms).contains(fs[fs.len() - 1].id@));
}

/// Adding a module whose dependencies are resolved: dependencies still come first.
proof fn lemma_finish_deps(ms: Seq<Module>, f: Frame, m: Module)
    requires
        deps_come_first(ms),
        resolved_upto(ms, f, f.deps.len() as int),
        m.dependencies@.len() == f.deps.len(),
        forall|k: int| 0 <= k < m.dependencies@.len() ==> #[trigger] m.dependencies@[k]@ == f.deps@[k].0@,
    ensures
        deps_come_first(ms.push(m)),
{
    let ms1 = ms.push(m);
    let n = ms.len() as int;
    assert forall|i: int, k: int|
        #![trigger ms1[i].dependencies@[k]]
        0 <= i < ms1.len() && 0 <= k < ms1[i].dependencies@.len() implies ids_of(
            ms1.take(i),
        ).contains(ms1[i].dependencies@[k]@) by {
        if i < n {
            assert(ms1[i] == ms[i]);
            assert(ms1.take(i) =~= ms.take(i));
            assert(ids_of(ms.take(i)).contains(ms[i].dependencies@[k]@));
        } else {
            assert(ms1.take(i) =~= ms);
            assert(ids_of(ms).contains(f.deps@[k].0@));
        }
    }
}

/// Completing the innermost frame as module `m`: the frames left are
/// distinct and not resolved.
proof fn lemma_finish_disjoint(ms: Seq<Module>, fs: Seq<Frame>, m: Module)
    requires
        frames_ok(ms, fs),
        fs.len() > 0,
        fs.last().next == fs.last().deps.len(),
        m.id@ == fs.last().id@,
        m.dependencies@.len() == fs.last().deps.len(),
        forall|k: int| 0 <= k < m.dependencies@.len() ==> #[trigger] m.dependencies@[k]@ == fs.last().deps@[k].0@,
    ensures
        frame_ids(fs.drop_last()).no_duplicates(),
        disjoint(ms.push(m), fs.drop_last()),
{
    reveal(frames_ok);
    let ms1 = ms.push(m);
    let fs1 = fs.drop_last();
    lemma_ids_push(ms, m);
    assert(frame_ids(fs1) =~= frame_ids(fs).drop_last());
    assert forall|k: int| 0 <= k < fs1.len() implies !ids_of(ms1).contains(#[trigger] fs1[k].id@) by {
        assert(fs1[k] == fs[k]);
        assert(frame_ids(fs)[k] != frame_ids(fs)[fs.len() - 1]);
        assert(!ids_of(ms).contains(fs[k].id@));
    }
}

/// Completing the innermost frame as module `m`: the chain below is kept,
/// and the frame below has resolved the dependency it visited.
proof fn lemma_finish_chain(ms: Seq<Module>, fs: Seq<Frame>, m: Module)
    requires
        frames_ok(ms, fs),
        fs.len() > 0,
        fs.last().next == fs.last().deps.len(),
        m.id@ == fs.last().id@,
        m.dependencies@.len() == fs.last().deps.len(),
        forall|k: int| 0 <= k < m.dependencies@.len() ==> #[trigger] m.dependencies@[k]@ == fs.last().deps@[k].0@,
    ensures
        chain_ok(ms.push(m), fs.drop_last()),
        top_ok(ms.push(m), fs.drop_last()),
{
    reveal(frames_ok);
    let ms1 = ms.push(m);
    let fs1 = fs.drop_last();
    let n = ms.len() as int;
    lemma_ids_push(ms, m);
    assert forall|k: int| 0 <= k < fs1.len() - 1 implies {
        let f = #[trigger] fs1[k];
        &&& 1 <= f.next <= f.deps.len()
        &&& f.deps@[f.next - 1].0@ == fs1[k + 1].id@
        &&& resolved_upto(ms1, f, f.next - 1)
    } by {
        assert(fs1[k] == fs[k]);
        assert(fs1[k + 1] == fs[k + 1]);
        lemma_resolved_mono(ms, m, fs[k], fs[k].next - 1);
    }
    if fs1.len() > 0 {
        let t = fs1.len() - 1;
        assert(fs1[t] == fs[t]);
        let f = fs[t];
        lemma_resolved_mono(ms, m, f, f.next - 1);
        assert forall|mm: int| 0 <= mm < f.next implies ids_of(ms1).contains(#[trigger] f.deps@[mm].0@) by {
            if mm < f.next - 1 {
            } else {
                assert(ids_of(ms1)[n] == m.id@);
            }
        }
    }
}

/// Completing the innermost frame as module `m` keeps the invariant.
proof fn lemma_finish(ms: Seq<Module>, fs: Seq<Frame>, m: Module)
    requires
        frames_ok(ms, fs),
        fs.len() > 0,
        fs.last().next == fs.last().deps.len(),
        m.id@ == fs.last().id@,
        m.dependencies@.len() == fs.last().deps.len(),
        forall|k: int| 0 <= k < m.dependencies@.len() ==> #[trigger] m.dependencies@[k]@ == fs.last().deps@[k].0@,
    ensures
        frames_ok(ms.push(m), fs.drop_last()),
{
    reveal(frames_ok);
    lemma_finish_ids(ms, fs, m);
    lemma_finish_deps(ms, fs.last(), m);
    lemma_finish_disjoint(ms, fs, m);
    lemma_finish_chain(ms, fs, m);
}

/// The compilation order lists every dependency before the modules that
/// import it.
pub proof fn law_dependencies_first(r: ModuleResolver)
    requires
        r.wf(),
    ensures
        deps_come_first(r.modules_spec()),
{
    reveal(frames_ok);
}

/// The value of a location.
pub enum LocationView {
    Missing,
    Found(Seq<char>),
    Failed(Seq<char>),
}

/// The values of some locations.
pub open spec fn locations_view(v: Seq<Location>) -> Seq<LocationView> {
    v.map_values(|l: Location|
        match l {
            Location::Missing => LocationView::Missing,
            Location::Found(c) => LocationView::Found(c@),
            Location::Failed(m) => LocationView::Failed(m@),
        })
}

/// Why the located imports of a module cannot be used.
pub enum LocateError {
    /// An imported file is missing; the module as the import wrote it.
    NotFound(Seq<char>),
    /// A path could not be made canonical; the system's message.
    Io(Seq<char>),
    /// An imported file is outside the project root; its path.
    Outside(Seq<char>),
}

/// The dependencies (id and path) of a module from the locations of the
/// files it imports, or the first problem with them.
pub open spec fn located_deps(
    locs: Seq<LocationView>,
    cands: Seq<(Seq<char>, Seq<char>)>,
    root: Seq<char>,
) -> Result<Seq<(Seq<char>, Seq<char>)>, LocateError>
    decreases locs.len(),
{
    if locs.len() == 0 {
        Ok(Seq::empty())
    } else {
        let n = (locs.len() - 1) as int;
        match located_deps(locs.drop_last(), cands, root) {
            Err(e) => Err(e),
            Ok(ds) => match locs[n] {
                LocationView::Missing => Err(LocateError::NotFound(cands[n].1)),
                LocationView::Failed(m) => Err(LocateError::Io(m)),
                LocationView::Found(c) => match module_id_of(c, root) {
                    Some(id) => Ok(ds.push((id, cands[n].0))),
                    None => Err(LocateError::Outside(cands[n].0)),
                },
            },
        }
    }
}

/// Whether a compiler error is the given problem with located imports,
/// found while visiting the file at `from`.
pub open spec fn is_locate_error(e: CompileError, le: LocateError, from: Seq<char>, root: Seq<char>) -> bool {
    match le {
        LocateError::NotFound(m) => e matches CompileError::ModuleNotFound { module, from: f }
            && module@ == m && f@ == from,
        LocateError::Io(m) => e matches CompileError::Io(mm) && mm@ == m,
        LocateError::Outside(p) => e matches CompileError::ModuleResolution { path, reason }
            && path@ == p && reason@ == outside_root_msg(root),
    }
}

/// The paths of candidates.
pub open spec fn cand_paths(cs: Seq<(Seq<char>, Seq<char>)>) -> Seq<Seq<char>> {
    cs.map_values(|c: (Seq<char>, Seq<char>)| c.0)
}

/// The values of dependencies: id and path.
pub open spec fn deps_view(v: Seq<(String, String)>) -> Seq<(Seq<char>, Seq<char>)> {
    v.map_values(|d: (String, String)| (d.0@, d.1@))
}

/// What a step of resolution asks for, in agreement with the state it
/// leaves.
pub open spec fn action_ok(r: ModuleResolver, a: ResolveAction) -> bool {
    &&& r.wf()
    &&& match a {
        ResolveAction::Read(p) => r.phase_spec() == ResolvePhase::Reading && r.current_path() == p@,
        ResolveAction::Locate(ps) => r.phase_spec() == ResolvePhase::Locating && strs(ps@)
            == cand_paths(r.pending_candidates()),
        ResolveAction::Done => r.phase_spec() == ResolvePhase::Idle,
    }
}

/// What is left to visit: the unvisited dependencies and the frames.
spec fn work(fs: Seq<Frame>) -> int
    decreases fs.len(),
{
    if fs.len() == 0 {
        0
    } else {
        work(fs.drop_last()) + (fs.last().deps.len() - fs.last().next) + 1
    }
}

impl ModuleResolver {
    /// A resolver for the project at `root`, with no modules.
    pub fn new(root: &str) -> (r: ModuleResolver)
        ensures
            r.wf(),
            r.modules_spec() == Seq::<Module>::empty(),
            r.phase_spec() == ResolvePhase::Idle,
            r.root_spec() == root@,
    {
        let r = ModuleResolver {
            root: root.to_owned(),
            root_canonical: String::new(),
            modules: Vec::new(),
            exports: Vec::new(),
            frames: Vec::new(),
            phase: ResolvePhase::Idle,
        };
        proof {
            reveal(frames_ok);
            assert(ids_of(r.modules@) =~= Seq::<Seq<char>>::empty());
            assert(frame_ids(r.frames@) =~= Seq::<Seq<char>>::empty());
        }
        r
    }

    /// Whether a module id is among the resolved modules.
    fn is_resolved(&self, id: &str) -> (r: bool)
        ensures
            r == ids_of(self.modules@).contains(id@),
    {
        let mut i: usize = 0;
        while i < self.modules.len()
            invariant
                i <= self.modules.len(),
                forall|j: int| 0 <= j < i ==> self.modules@[j].id@ != id@,
            decreases self.modules.len() - i,
        {
            if str_eq(self.modules[i].id.as_str(), id) {
                proof {
                    assert(ids_of(self.modules@)[i as int] == id@);
                }
                return true;
            }
            i = i + 1;
        }
        proof {
            if ids_of(self.modules@).contains(id@) {
                let j = choose|j: int| 0 <= j < ids_of(self.modules@).len() && ids_of(self.modules@)[j] == id@;
                assert(self.modules@[j].id@ == id@);
            }
        }
        false
    }

    /// Whether a module id is among the modules being visited.
    fn is_visiting(&self, id: &str) -> (r: bool)
        ensures
            r == self.visiting().contains(id@),
    {
        let mut i: usize = 0;
        while i < self.frames.len()
            invariant
                i <= self.frames.len(),
                forall|j: int| 0 <= j < i ==> self.frames@[j].id@ != id@,
            decreases self.frames.len() - i,
        {
            if str_eq(self.frames[i].id.as_str(), id) {
                proof {
                    assert(self.visiting()[i as int] == id@);
                }
                return true;
            }
            i = i + 1;
        }
        proof {
            if self.visiting().contains(id@) {
                let j = choose|j: int| 0 <= j < self.visiting().len() && self.visiting()[j] == id@;
                assert(self.frames@[j].id@ == id@);
            }
        }
        false
    }
}

/// `work` of frames with a changed last frame.
proof fn lemma_work_last(fs: Seq<Frame>, f: Frame)
    requires
        fs.len() > 0,
    ensures
        work(fs.drop_last().push(f)) == work(fs.drop_last()) + (f.deps.len() - f.next) + 1,
        work(fs) == work(fs.drop_last()) + (fs.last().deps.len() - fs.last().next) + 1,
{
    assert(fs.drop_last().push(f).drop_last() =~= fs.drop_last());
}

/// `work` is never negative where every frame has visited at most its
/// dependencies.
proof fn lemma_work_nonneg(fs: Seq<Frame>)
    requires
        forall|k: int| 0 <= k < fs.len() ==> #[trigger] fs[k].next <= fs[k].deps.len(),
    ensures
        work(fs) >= 0,
    decreases fs.len(),
{
    if fs.len() > 0 {
        assert(fs.last().next <= fs.last().deps.len());
        lemma_work_nonneg(fs.drop_last());
    }
}

impl ModuleResolver {
    /// Completes the innermost module being visited, whose dependencies are
    /// all resolved.
    fn finish_top(&mut self)
        requires
            old(self).wf_frames(),
            old(self).frames.len() > 0,
            old(self).frames@.last().next == old(self).frames@.last().deps.len(),
            frames_parsed(old(self).frames@, old(self).frames.len() as int),
        ensures
            final(self).wf_frames(),
            frames_parsed(final(self).frames@, final(self).frames.len() as int),
            work(final(self).frames@) < work(old(self).frames@),
            old(self).modules@ == final(self).modules@.take(old(self).modules@.len() as int),
            old(self).modules@.len() < final(self).modules@.len(),
            final(self).visiting() == old(self).visiting().drop_last(),
            ids_of(final(self).modules@) == ids_of(old(self).modules@).push(old(self).visiting().last()),
    {
        let ghost fs0 = self.frames@;
        let ghost ms0 = self.modules@;
        let f = self.frames.pop().unwrap();
        let mut ids: Vec<String> = Vec::new();
        let mut k: usize = 0;
        while k < f.deps.len()
            invariant
                k <= f.deps.len(),
                ids@.len() == k,
                forall|m: int| 0 <= m < k ==> #[trigger] ids@[m]@ == f.deps@[m].0@,
            decreases f.deps.len() - k,
        {
            ids.push(f.deps[k].0.clone());
            k = k + 1;
        }
        let Frame { id, path, source, exports, candidates: _, deps: _, next: _ } = f;
        let m = Module { path, id, dependencies: ids, source };
        proof {
            lemma_finish(ms0, fs0, m);
            assert(self.frames@ =~= fs0.drop_last());
            assert(work(fs0) == work(fs0.drop_last()) + 1);
        }
        let ghost es0 = self.exports@;
        self.modules.push(m);
        self.exports.push(exports);
        proof {
            assert(self.modules@.take(ms0.len() as int) =~= ms0);
            assert(exports_of_source(fs0.last().source@, fs0.last().exports));
            assert forall|j: int| 0 <= j < self.modules@.len() implies exports_of_source(
                #[trigger] self.modules@[j].source@,
                self.exports@[j],
            ) by {
                if j < ms0.len() {
                    assert(self.modules@[j] == ms0[j]);
                    assert(self.exports@[j] == es0[j]);
                }
            }
            assert forall|k: int| 0 <= k < self.frames@.len() implies exports_of_source(
                #[trigger] self.frames@[k].source@,
                self.frames@[k].exports,
            ) by {
                assert(self.frames@[k] == fs0[k]);
            }
        }
    }
}

/// Moving the innermost frame past a dependency that is resolved keeps the
/// invariant.
proof fn lemma_step_resolved(ms: Seq<Module>, fs: Seq<Frame>, t2: Frame)
    requires
        frames_ok(ms, fs),
        fs.len() > 0,
        fs.last().next < fs.last().deps.len(),
        t2.id == fs.last().id,
        t2.deps == fs.last().deps,
        t2.next == fs.last().next + 1,
        ids_of(ms).contains(fs.last().deps@[fs.last().next as int].0@),
    ensures
        frames_ok(ms, fs.drop_last().push(t2)),
{
    reveal(frames_ok);
    let fs1 = fs.drop_last().push(t2);
    let n = fs.len() - 1;
    assert(frame_ids(fs1) =~= frame_ids(fs));
    assert forall|k: int| 0 <= k < fs1.len() implies !ids_of(ms).contains(#[trigger] fs1[k].id@) by {
        if k < n {
            assert(fs1[k] == fs[k]);
        }
    }
    assert forall|k: int| 0 <= k < fs1.len() - 1 implies {
        let f = #[trigger] fs1[k];
        &&& 1 <= f.next <= f.deps.len()
        &&& f.deps@[f.next - 1].0@ == fs1[k + 1].id@
        &&& resolved_upto(ms, f, f.next - 1)
    } by {
        assert(fs1[k] == fs[k]);
        if k + 1 < n {
            assert(fs1[k + 1] == fs[k + 1]);
        }
    }
    assert forall|mm: int| 0 <= mm < t2.next implies ids_of(ms).contains(#[trigger] t2.deps@[mm].0@) by {
        if mm < fs.last().next {
            assert(resolved_upto(ms, fs.last(), fs.last().next as int));
            assert(fs.last().deps@[mm] == t2.deps@[mm]);
        }
    }
}

/// Moving the innermost frame to a dependency that is neither resolved nor
/// being visited, and visiting it in a new frame, keeps the invariant.
proof fn lemma_step_push(ms: Seq<Module>, fs: Seq<Frame>, t2: Frame, g: Frame)
    requires
        frames_ok(ms, fs),
        fs.len() > 0,
        fs.last().next < fs.last().deps.len(),
        t2.id == fs.last().id,
        t2.deps == fs.last().deps,
        t2.next == fs.last().next + 1,
        g.id@ == fs.last().deps@[fs.last().next as int].0@,
        !ids_of(ms).contains(g.id@),
        !frame_ids(fs).contains(g.id@),
        g.next == 0,
        g.deps.len() == 0,
    ensures
        frames_ok(ms, fs.drop_last().push(t2).push(g)),
{
    reveal(frames_ok);
    let fs1 = fs.drop_last().push(t2).push(g);
    let n = fs.len() - 1;
    assert(frame_ids(fs1) =~= frame_ids(fs).push(g.id@));
    assert forall|k: int| 0 <= k < fs1.len() implies !ids_of(ms).contains(#[trigger] fs1[k].id@) by {
        if k < n {
            assert(fs1[k] == fs[k]);
        } else if k == n {
            assert(fs1[k].id == fs[n].id);
        }
    }
    assert forall|k: int| 0 <= k < fs1.len() - 1 implies {
        let f = #[trigger] fs1[k];
        &&& 1 <= f.next <= f.deps.len()
        &&& f.deps@[f.next - 1].0@ == fs1[k + 1].id@
        &&& resolved_upto(ms, f, f.next - 1)
    } by {
        if k < n {
            assert(fs1[k] == fs[k]);
            if k + 1 < n {
                assert(fs1[k + 1] == fs[k + 1]);
            } else {
                assert(fs1[k + 1].id == fs[n].id);
            }
        } else {
            assert(fs1[k] == t2);
            assert(resolved_upto(ms, fs.last(), fs.last().next as int));
            assert forall|mm: int| 0 <= mm < t2.next - 1 implies ids_of(ms).contains(#[trigger] t2.deps@[mm].0@) by {
                assert(fs.last().deps@[mm] == t2.deps@[mm]);
            }
        }
    }
}

impl ModuleResolver {
    /// Moves the innermost module being visited to its next dependency:
    /// none when that one is resolved already, a request for its file when
    /// it is new, and an error when it is being visited (an import cycle).
    fn visit_next(&mut self) -> (r: Option<Result<ResolveAction, CompileError>>)
        requires
            old(self).wf_frames(),
            old(self).frames.len() > 0,
            old(self).frames@.last().next < old(self).frames@.last().deps.len(),
            frames_parsed(old(self).frames@, old(self).frames.len() as int),
        ensures
            r is None ==> final(self).wf_frames() && work(final(self).frames@) < work(
                old(self).frames@,
            ),
            r is None ==> frames_parsed(final(self).frames@, final(self).frames.len() as int),
            r matches Some(Ok(a)) ==> a matches ResolveAction::Read(_) && action_ok(*final(self), a),
            r matches Some(Err(e)) ==> e matches CompileError::CircularDependency(_),
            r matches Some(Err(CompileError::CircularDependency(id))) ==> old(self).visiting().contains(id@),
            r is None ==> final(self).visiting() == old(self).visiting(),
            r matches Some(Ok(_)) ==> final(self).visiting().len() > old(self).visiting().len()
                && final(self).visiting().take(old(self).visiting().len() as int) == old(self).visiting(),
            final(self).modules@ == old(self).modules@,
    {
        let ghost fs0 = self.frames@;
        let mut f = self.frames.pop().unwrap();
        let dep_id = f.deps[f.next].0.clone();
        let dep_path = f.deps[f.next].1.clone();
        f.next = f.next + 1;
        let ghost t2 = f;
        self.frames.push(f);
        proof {
            lemma_work_last(fs0, t2);
            assert(frame_ids(self.frames@) =~= frame_ids(fs0));
            assert(self.visiting() == frame_ids(self.frames@));
            assert forall|k: int| 0 <= k < self.frames@.len() implies exports_of_source(
                #[trigger] self.frames@[k].source@,
                self.frames@[k].exports,
            ) by {
                assert(exports_of_source(fs0[k].source@, fs0[k].exports));
            }
        }
        if self.is_visiting(dep_id.as_str()) {
            return Some(Err(CompileError::CircularDependency(dep_id)));
        }
        if self.is_resolved(dep_id.as_str()) {
            proof {
                lemma_step_resolved(self.modules@, fs0, t2);
                assert(self.frames@ =~= fs0.drop_last().push(t2));
            }
            return None;
        }
        let g = Frame {
            id: dep_id,
            path: dep_path.clone(),
            source: String::new(),
            exports: ModuleExports { default: None, named: Vec::new() },
            candidates: Vec::new(),
            deps: Vec::new(),
            next: 0,
        };
        proof {
            lemma_step_push(self.modules@, fs0, t2, g);
        }
        let ghost fs1 = self.frames@;
        self.frames.push(g);
        proof {
            assert(fs1 =~= fs0.drop_last().push(t2));
            assert(self.frames@ =~= fs0.drop_last().push(t2).push(g));
        }
        self.phase = ResolvePhase::Reading;
        Some(Ok(ResolveAction::Read(dep_path)))
    }

    /// Visits dependencies and completes modules until a file is needed,
    /// resolution is complete, or an import cycle is found.
    fn advance(&mut self) -> (r: Result<ResolveAction, CompileError>)
        requires
            old(self).wf_frames(),
            frames_parsed(old(self).frames@, old(self).frames.len() as int),
        ensures
            r matches Ok(a) ==> action_ok(*final(self), a) && !(a is Locate),
            r is Ok ==> old(self).modules_spec() == final(self).modules_spec().take(
                old(self).modules_spec().len() as int,
            ),
            r matches Err(e) ==> e matches CompileError::CircularDependency(_),
            r matches Err(CompileError::CircularDependency(id)) ==> old(self).visiting().contains(id@),
            r matches Ok(ResolveAction::Done) ==> forall|k: int|
                0 <= k < old(self).visiting().len() ==> ids_of(final(self).modules_spec()).contains(
                    #[trigger] old(self).visiting()[k],
                ),
            r matches Ok(ResolveAction::Read(_)) ==> final(self).visiting().len() > 0 && (old(
                self,
            ).visiting().len() > 0 ==> final(self).visiting()[0] == old(self).visiting()[0]),
    {
        let ghost m0 = self.modules@;
        let ghost v0 = self.visiting();
        loop
            invariant
                forall|k: int|
                    self.visiting().len() <= k < v0.len() ==> ids_of(self.modules@).contains(#[trigger] v0[k]),
                self.visiting().len() <= v0.len(),
                self.visiting() == v0.take(self.visiting().len() as int),
                v0 == old(self).visiting(),
                self.wf_frames(),
                frames_parsed(self.frames@, self.frames.len() as int),
                m0 == old(self).modules@,
                m0 == self.modules@.take(m0.len() as int),
                m0.len() <= self.modules@.len(),
            decreases work(self.frames@),
        {
            proof {
                lemma_work_nonneg_ok(self.modules@, self.frames@);
            }
            let ghost w0 = work(self.frames@);
            if self.frames.len() == 0 {
                self.phase = ResolvePhase::Idle;
                proof {
                    assert(old(self).modules_spec() == m0);
                    assert(self.modules_spec() == self.modules@);
                }
                return Ok(ResolveAction::Done);
            }
            let top = self.frames.len() - 1;
            if self.frames[top].next < self.frames[top].deps.len() {
                let ghost vb = self.visiting();
                match self.visit_next() {
                    Some(res) => {
                        proof {
                            match &res {
                                Err(CompileError::CircularDependency(id)) => {
                                    let k = vb.index_of(id@);
                                    assert(vb[k] == v0[k]);
                                },
                                Ok(_) => {
                                    assert(self.visiting().take(vb.len() as int)[0] == self.visiting()[0]);
                                    assert(vb[0] == v0[0]);
                                },
                                _ => {},
                            }
                        }
                        return res;
                    },
                    None => {
                        proof {
                            lemma_work_nonneg_ok(self.modules@, self.frames@);
                        }
                        assert(work(self.frames@) < w0);
                    },
                }
            } else {
                let ghost ms = self.modules@;
                let ghost vb = self.visiting();
                let ghost mb = self.modules@;
                self.finish_top();
                proof {
                    assert(self.visiting() =~= v0.take(self.visiting().len() as int));
                    assert(vb.last() == v0[self.visiting().len() as int]);
                    assert forall|k: int| self.visiting().len() <= k < v0.len() implies ids_of(
                        self.modules@,
                    ).contains(#[trigger] v0[k]) by {
                        if k == self.visiting().len() {
                            assert(ids_of(self.modules@).last() == v0[k]);
                        } else {
                            let j = ids_of(mb).index_of(v0[k]);
                            assert(ids_of(self.modules@)[j] == v0[k]);
                        }
                    }
                    assert(self.modules@.take(m0.len() as int) =~= ms.take(m0.len() as int));
                    lemma_work_nonneg_ok(self.modules@, self.frames@);
                    assert(work(self.frames@) < w0);
                }
            }
        }
    }
}

/// Under the invariant, `work` is never negative, and the innermost frame
/// has visited at most its dependencies.
proof fn lemma_work_nonneg_ok(ms: Seq<Module>, fs: Seq<Frame>)
    requires
        frames_ok(ms, fs),
    ensures
        work(fs) >= 0,
        fs.len() > 0 ==> fs.last().next <= fs.last().deps.len(),
{
    reveal(frames_ok);
    assert forall|k: int| 0 <= k < fs.len() implies #[trigger] fs[k].next <= fs[k].deps.len() by {
        if k < fs.len() - 1 {
        } else {
            assert(fs[k] == fs.last());
        }
    }
    lemma_work_nonneg(fs);
}

/// Replacing the innermost frame by one with the same id that has resolved
/// what it visited keeps the invariant.
proof fn lemma_new_top(ms: Seq<Module>, fs: Seq<Frame>, t2: Frame)
    requires
        frames_ok(ms, fs),
        fs.len() > 0,
        t2.id == fs.last().id,
        t2.next <= t2.deps.len(),
        resolved_upto(ms, t2, t2.next as int),
    ensures
        frames_ok(ms, fs.drop_last().push(t2)),
{
    reveal(frames_ok);
    let fs1 = fs.drop_last().push(t2);
    let n = fs.len() - 1;
    assert(frame_ids(fs1) =~= frame_ids(fs));
    assert forall|k: int| 0 <= k < fs1.len() implies !ids_of(ms).contains(#[trigger] fs1[k].id@) by {
        if k < n {
            assert(fs1[k] == fs[k]);
        }
    }
    assert forall|k: int| 0 <= k < fs1.len() - 1 implies {
        let f = #[trigger] fs1[k];
        &&& 1 <= f.next <= f.deps.len()
        &&& f.deps@[f.next - 1].0@ == fs1[k + 1].id@
        &&& resolved_upto(ms, f, f.next - 1)
    } by {
        assert(fs1[k] == fs[k]);
        if k + 1 < n {
            assert(fs1[k + 1] == fs[k + 1]);
        }
    }
}

impl ModuleResolver {
    /// The canonical project root, once resolution has started.
    pub closed spec fn root_canonical_spec(self) -> Seq<char> {
        self.root_canonical@
    }

    /// Where resolution stands.
    pub fn phase(&self) -> (r: ResolvePhase)
        ensures
            r == self.phase_spec(),
    {
        self.phase
    }

    /// How many locations the resolver waits for.
    pub fn pending_count(&self) -> (r: usize)
        ensures
            r == self.pending_candidates().len(),
    {
        if self.frames.len() > 0 {
            self.frames[self.frames.len() - 1].candidates.len()
        } else {
            0
        }
    }

    /// Starts resolving from the entry file at `entry_path`, given its
    /// canonical path and that of the project root (or the messages of the
    /// failures to make them canonical).
    pub fn start(
        &mut self,
        entry_path: &str,
        entry_canonical: Result<String, String>,
        root_canonical: Result<String, String>,
    ) -> (r: Result<ResolveAction, CompileError>)
        requires
            old(self).wf(),
            old(self).phase_spec() == ResolvePhase::Idle,
        ensures
            entry_canonical matches Err(m) ==> r matches Err(CompileError::Io(mm)) && mm@ == m@,
            entry_canonical is Ok ==> (root_canonical matches Err(m) ==> r matches Err(
                CompileError::Io(mm),
            ) && mm@ == m@),
            entry_canonical matches Ok(e) ==> root_canonical matches Ok(rc) ==> match module_id_of(
                e@,
                rc@,
            ) {
                None => r matches Err(CompileError::ModuleResolution { path, reason }) && path@
                    == entry_path@ && reason@ == outside_root_msg(rc@),
                Some(id) => r matches Ok(a) && action_ok(*final(self), a)
                    && final(self).modules_spec() == old(self).modules_spec()
                    && final(self).root_canonical_spec() == rc@
                    && (if ids_of(old(self).modules_spec()).contains(id) {
                    a is Done
                } else {
                    a matches ResolveAction::Read(p) && p@ == entry_path@ && final(self).visiting() == seq![id]
                }),
            },
    {
        let e = match entry_canonical {
            Ok(e) => e,
            Err(m) => {
                return Err(CompileError::Io(m));
            },
        };
        let rc = match root_canonical {
            Ok(rc) => rc,
            Err(m) => {
                return Err(CompileError::Io(m));
            },
        };
        let id = match path_to_module_id(e.as_str(), rc.as_str(), entry_path) {
            Ok(id) => id,
            Err(err) => {
                return Err(err);
            },
        };
        self.root_canonical = rc;
        if self.is_resolved(id.as_str()) {
            return Ok(ResolveAction::Done);
        }
        let g = Frame {
            id,
            path: entry_path.to_owned(),
            source: String::new(),
            exports: ModuleExports { default: None, named: Vec::new() },
            candidates: Vec::new(),
            deps: Vec::new(),
            next: 0,
        };
        proof {
            reveal(frames_ok);
            assert(frame_ids(seq![g]) =~= seq![g.id@]);
            assert(self.frames@ =~= Seq::<Frame>::empty());
        }
        self.frames.push(g);
        proof {
            assert(self.frames@ =~= seq![g]);
        }
        self.phase = ResolvePhase::Reading;
        Ok(ResolveAction::Read(entry_path.to_owned()))
    }
}

impl ModuleResolver {
    /// Takes the text of the module being visited (or the message of the
    /// failure to read it), parses it and asks where the files it imports
    /// are.
    #[verifier::rlimit(40)]
    pub fn source_loaded(&mut self, source: Result<String, String>) -> (r: Result<
        ResolveAction,
        CompileError,
    >)
        requires
            old(self).wf(),
            old(self).phase_spec() == ResolvePhase::Reading,
        ensures
            source matches Err(m) ==> r matches Err(CompileError::Io(mm)) && mm@ == m@,
            source is Ok ==> !(r matches Err(CompileError::Io(_))),
            r is Ok ==> final(self).visiting() == old(self).visiting(),
            r matches Err(e) ==> (e is Io || e is Parse || e is ModuleResolution),
            r matches Err(CompileError::Parse { file, message: _ }) ==> file@ == old(self).current_path(),
            r matches Err(CompileError::ModuleResolution { path, reason }) ==> path@ == old(self).current_path() && reason@ == no_parent_msg(),
            r matches Ok(a) ==> a is Locate && action_ok(*final(self), a) && final(self).modules_spec() == old(self).modules_spec() && final(self).current_path() == old(self).current_path() && final(self).root_canonical_spec() == old(self).root_canonical_spec(),
    {
        let src = match source {
            Ok(s) => s,
            Err(m) => {
                return Err(CompileError::Io(m));
            },
        };
        let top = self.frames.len() - 1;
        let top_path = self.frames[top].path.clone();
        let found = {
            match parse(src.as_str()) {
                Err(e) => {
                    let m = e.message();
                    Err(CompileError::parse(top_path.as_str(), m.as_str()))
                },
                Ok(ast) => {
                    match import_candidates(&ast, top_path.as_str()) {
                        Ok(c) => Ok((c, extract_exports(&ast))),
                        Err(e) => Err(e),
                    }
                },
            }
        };
        let (cands, exports) = match found {
            Ok(x) => x,
            Err(e) => {
                return Err(e);
            },
        };
        let mut paths: Vec<String> = Vec::new();
        let mut k: usize = 0;
        while k < cands.len()
            invariant
                k <= cands.len(),
                paths@.len() == k,
                strs(paths@) == cand_paths(candidates_view(cands@).take(k as int)),
            decreases cands.len() - k,
        {
            let ghost before = paths@;
            paths.push(cands[k].path.clone());
            proof {
                let cv = candidates_view(cands@);
                assert(strs(paths@)[k as int] == cands@[k as int].path@);
                assert(cv[k as int].0 == cands@[k as int].path@);
                assert forall|j: int| 0 <= j < k implies strs(paths@)[j] == cand_paths(cv.take(k + 1))[j] by {
                    assert(strs(paths@)[j] == strs(before)[j]);
                    assert(strs(before)[j] == cand_paths(cv.take(k as int))[j]);
                }
                assert(strs(paths@) =~= cand_paths(cv.take(k + 1)));
            }
            k = k + 1;
        }
        proof {
            assert(candidates_view(cands@).take(cands.len() as int) =~= candidates_view(cands@));
            assert(strs(paths@) == cand_paths(candidates_view(cands@)));
        }
        let ghost fs0 = self.frames@;
        let mut f = self.frames.pop().unwrap();
        f.source = src;
        f.exports = exports;
        f.candidates = cands;
        proof {
            lemma_new_top(self.modules@, fs0, f);
        }
        self.frames.push(f);
        proof {
            assert(self.frames@ =~= fs0.drop_last().push(f));
        }
        self.phase = ResolvePhase::Locating;
        Ok(ResolveAction::Locate(paths))
    }

    /// Takes what is at the files the module being visited imports, in the
    /// order asked, and goes on visiting.
    pub fn located(&mut self, locations: Vec<Location>) -> (r: Result<ResolveAction, CompileError>)
        requires
            old(self).wf(),
            old(self).phase_spec() == ResolvePhase::Locating,
            locations@.len() == old(self).pending_candidates().len(),
        ensures
            match located_deps(
                locations_view(locations@),
                old(self).pending_candidates(),
                old(self).root_canonical_spec(),
            ) {
                Err(le) => r matches Err(e) && is_locate_error(
                    e,
                    le,
                    old(self).current_path(),
                    old(self).root_canonical_spec(),
                ),
                Ok(_) => (r matches Err(CompileError::CircularDependency(id)) ==> old(self).visiting().contains(id@))
                    && (r matches Ok(a) ==> action_ok(*final(self), a) && !(a is Locate)
                    && old(self).modules_spec() == final(self).modules_spec().take(
                    old(self).modules_spec().len() as int,
                )) && (r matches Err(e) ==> e matches CompileError::CircularDependency(_)),
            },
            r matches Ok(ResolveAction::Done) ==> forall|k: int|
                0 <= k < old(self).visiting().len() ==> ids_of(final(self).modules_spec()).contains(
                    #[trigger] old(self).visiting()[k],
                ),
            r matches Ok(ResolveAction::Read(_)) ==> final(self).visiting().len() > 0 && (old(
                self,
            ).visiting().len() > 0 ==> final(self).visiting()[0] == old(self).visiting()[0]),
    {
        let top = self.frames.len() - 1;
        let ghost lv = locations_view(locations@);
        let ghost cv = self.pending_candidates();
        let ghost root = self.root_canonical@;
        let mut deps: Vec<(String, String)> = Vec::new();
        let mut k: usize = 0;
        proof {
            assert(lv.take(0) =~= Seq::<LocationView>::empty());
            assert(deps_view(deps@) =~= Seq::<(Seq<char>, Seq<char>)>::empty());
        }
        while k < locations.len()
            invariant
                k <= locations.len(),
                top == self.frames.len() - 1,
                self.frames.len() > 0,
                lv == locations_view(locations@),
                cv == candidates_view(self.frames@[top as int].candidates@),
                lv.len() == cv.len(),
                root == self.root_canonical@,
                located_deps(lv.take(k as int), cv, root) == Ok::<
                    Seq<(Seq<char>, Seq<char>)>,
                    LocateError,
                >(deps_view(deps@)),
            decreases locations.len() - k,
        {
            proof {
                assert(lv.take(k + 1).drop_last() =~= lv.take(k as int));
                assert(lv.take(k + 1)[k as int] == lv[k as int]);
            }
            let cand_path = self.frames[top].candidates[k].path.clone();
            match &locations[k] {
                Location::Missing => {
                    let name = self.frames[top].candidates[k].name.clone();
                    let from = self.frames[top].path.clone();
                    proof {
                        lemma_located_err(lv, cv, root, k as int + 1, lv.len() as int);
                        assert(lv.take(lv.len() as int) =~= lv);
                    }
                    return Err(CompileError::ModuleNotFound { module: name, from });
                },
                Location::Failed(m) => {
                    proof {
                        lemma_located_err(lv, cv, root, k as int + 1, lv.len() as int);
                        assert(lv.take(lv.len() as int) =~= lv);
                    }
                    return Err(CompileError::Io(m.clone()));
                },
                Location::Found(c) => {
                    match path_to_module_id(c.as_str(), self.root_canonical.as_str(), cand_path.as_str()) {
                        Ok(id) => {
                            let ghost before = deps@;
                            deps.push((id, cand_path));
                            proof {
                                assert(deps_view(deps@) =~= deps_view(before).push(
                                    (deps@.last().0@, deps@.last().1@),
                                ));
                            }
                        },
                        Err(e) => {
                            proof {
                                lemma_located_err(lv, cv, root, k as int + 1, lv.len() as int);
                                assert(lv.take(lv.len() as int) =~= lv);
                            }
                            return Err(e);
                        },
                    }
                },
            }
            k = k + 1;
        }
        proof {
            assert(lv.take(lv.len() as int) =~= lv);
        }
        let ghost fs0 = self.frames@;
        let mut f = self.frames.pop().unwrap();
        f.deps = deps;
        f.next = 0;
        proof {
            lemma_new_top(self.modules@, fs0, f);
        }
        self.frames.push(f);
        proof {
            assert(self.frames@ =~= fs0.drop_last().push(f));
            assert(self.visiting() =~= old(self).visiting());
        }
        self.advance()
    }
}

/// Once the located imports of a prefix fail, longer prefixes fail the same way.
proof fn lemma_located_err(
    lv: Seq<LocationView>,
    cv: Seq<(Seq<char>, Seq<char>)>,
    root: Seq<char>,
    k: int,
    j: int,
)
    requires
        0 <= k <= j <= lv.len(),
        located_deps(lv.take(k), cv, root) is Err,
    ensures
        located_deps(lv.take(j), cv, root) == located_deps(lv.take(k), cv, root),
    decreases j - k,
{
    if j > k {
        lemma_located_err(lv, cv, root, k, j - 1);
        assert(lv.take(j).drop_last() =~= lv.take(j - 1));
    }
}

impl ModuleResolver {
    /// The modules in an order in which each comes after the modules it
    /// imports: the order in which they were resolved.
    pub fn compilation_order(&self) -> (r: Vec<&Module>)
        ensures
            r@.len() == self.modules_spec().len(),
            forall|i: int| 0 <= i < r@.len() ==> *r@[i] == #[trigger] self.modules_spec()[i],
    {
        let mut order: Vec<&Module> = Vec::new();
        let mut i: usize = 0;
        while i < self.modules.len()
            invariant
                i <= self.modules.len(),
                order@.len() == i,
                forall|j: int| 0 <= j < i ==> *order@[j] == #[trigger] self.modules@[j],
            decreases self.modules.len() - i,
        {
            order.push(&self.modules[i]);
            i = i + 1;
        }
        order
    }

    /// The position of the module with the given id.
    fn index_of(&self, id: &str) -> (r: Option<usize>)
        ensures
            match r {
                Some(j) => j < self.modules@.len() && self.modules@[j as int].id@ == id@,
                None => !ids_of(self.modules@).contains(id@),
            },
    {
        let mut i: usize = 0;
        while i < self.modules.len()
            invariant
                i <= self.modules.len(),
                forall|j: int| 0 <= j < i ==> self.modules@[j].id@ != id@,
            decreases self.modules.len() - i,
        {
            if str_eq(self.modules[i].id.as_str(), id) {
                return Some(i);
            }
            i = i + 1;
        }
        proof {
            if ids_of(self.modules@).contains(id@) {
                let j = choose|j: int| 0 <= j < ids_of(self.modules@).len() && ids_of(self.modules@)[j] == id@;
                assert(self.modules@[j].id@ == id@);
            }
        }
        None
    }

    /// The module with the given id.
    pub fn get_module(&self, module_id: &str) -> (r: Option<&Module>)
        ensures
            match r {
                Some(m) => self.modules_spec().contains(*m) && m.id@ == module_id@,
                None => !ids_of(self.modules_spec()).contains(module_id@),
            },
    {
        match self.index_of(module_id) {
            Some(j) => Some(&self.modules[j]),
            None => None,
        }
    }

    /// The exports of the module with the given id.
    pub fn get_exports(&self, module_id: &str) -> (r: Option<&ModuleExports>)
        requires
            self.wf(),
        ensures
            r is Some <==> ids_of(self.modules_spec()).contains(module_id@),
            r matches Some(e) ==> exists|j: int|
                0 <= j < self.modules_spec().len() && (#[trigger] self.modules_spec()[j]).id@ == module_id@
                    && exports_of_source(self.modules_spec()[j].source@, *e),
    {
        match self.index_of(module_id) {
            Some(j) => {
                proof {
                    assert(ids_of(self.modules@)[j as int] == module_id@);
                    assert(exports_of_source(self.modules@[j as int].source@, self.exports@[j as int]));
                }
                Some(&self.exports[j])
            },
            None => None,
        }
    }

    /// All resolved modules, in the order in which they were resolved.
    pub fn modules(&self) -> (r: &Vec<Module>)
        ensures
            r@ == self.modules_spec(),
    {
        &self.modules
    }
}

/// The modules of a resolver have distinct ids.
pub proof fn lemma_module_ids_distinct(r: ModuleResolver)
    requires
        r.wf(),
    ensures
        ids_of(r.modules_spec()).no_duplicates(),
{
    reveal(frames_ok);
}

} // verus!
