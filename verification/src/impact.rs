//! Impact analysis: which modules and files depend, directly or through
//! others, on a module or file.

use crate::graph::{CodeGraph, ModuleEntry};
use crate::ordered::{clone_strings, insert_unique, sort_strings, sorted, strictly_sorted};
use crate::str_map::StrMap;
use crate::text::{contains_seq, owned, str_contains};
use vstd::prelude::*;

verus! {

/// What a target of an impact analysis names.
#[derive(Debug, Clone, Copy, PartialEq, Eq, Structural)]
pub enum TargetType {
    Module,
    File,
}

impl TargetType {
    /// The label of the target type.
    pub fn as_str(&self) -> (label: &'static str)
        ensures
            label@ == match *self {
                TargetType::Module => "module"@,
                TargetType::File => "file"@,
            },
    {
        match self {
            TargetType::Module => "module",
            TargetType::File => "file",
        }
    }
}

/// The outcome of an impact analysis.
#[derive(Debug)]
pub struct ImpactResult {
    pub target_type: TargetType,
    pub target_module: String,
    pub direct_dependants: Vec<String>,
    pub transitive_dependants: Vec<String>,
    pub impacted_modules: Vec<String>,
    pub impacted_files: Vec<String>,
}

// ---------------------------------------------------------------------------
// Resolving the target
// ---------------------------------------------------------------------------

/// The first position from `from` on whose key holds `needle`.
pub open spec fn first_holding(keys: Seq<Seq<char>>, needle: Seq<char>, from: int) -> Option<int>
    decreases keys.len() - from,
{
    if from < 0 || from >= keys.len() {
        None
    } else if contains_seq(keys[from], needle) {
        Some(from)
    } else {
        first_holding(keys, needle, from + 1)
    }
}

/// What a target resolves to: a module of that name; else the module of
/// the file of that path; else the module of the first file, in
/// ascending path order, whose path holds the target; else the target
/// itself, taken as a module.
pub open spec fn resolve_target_spec(g: CodeGraph, target: Seq<char>) -> (TargetType, Seq<char>) {
    if g.modules.has(target) {
        (TargetType::Module, target)
    } else if g.files.has(target) {
        (TargetType::File, g.files.value_of(target).module@)
    } else {
        match first_holding(g.files.keys(), target, 0) {
            Some(i) => (TargetType::File, g.files.values()[i].module@),
            None => (TargetType::Module, target),
        }
    }
}

/// Resolves a target to its kind and module.
pub fn resolve_target(graph: &CodeGraph, target: &str) -> (r: (TargetType, String))
    ensures
        (r.0, r.1@) == resolve_target_spec(*graph, target@),
{
    if graph.modules.contains_key(target) {
        return (TargetType::Module, owned(target));
    }
    match graph.files.get(target) {
        Some(file) => {
            return (TargetType::File, file.module.clone());
        },
        None => {},
    }
    let n = graph.files.len();
    let mut i: usize = 0;
    while i < n
        invariant
            i <= n,
            n == graph.files.keys().len(),
            n == graph.files.values().len(),
            !graph.modules.has(target@),
            !graph.files.has(target@),
            first_holding(graph.files.keys(), target@, 0) == first_holding(
                graph.files.keys(),
                target@,
                i as int,
            ),
        decreases n - i,
    {
        if str_contains(graph.files.key_at(i).as_str(), target) {
            return (TargetType::File, graph.files.value_at(i).module.clone());
        }
        i += 1;
    }
    (TargetType::Module, owned(target))
}

// ---------------------------------------------------------------------------
// Walking the reverse edges
// ---------------------------------------------------------------------------

/// The modules that depend on module `m`, as the graph records them.
pub open spec fn dependants(modules: StrMap<ModuleEntry>, m: Seq<char>) -> Seq<Seq<char>> {
    if modules.has(m) {
        modules.value_of(m).depended_by.deep_view()
    } else {
        Seq::empty()
    }
}

/// Whether module `n` is reached from `start` in at most `k` steps along
/// the reverse dependency edges.
pub open spec fn within(modules: StrMap<ModuleEntry>, start: Seq<char>, n: Seq<char>, k: nat) -> bool
    decreases k,
{
    if k == 0 {
        n == start
    } else {
        within(modules, start, n, (k - 1) as nat) || exists|m: Seq<char>|
            within(modules, start, m, (k - 1) as nat) && #[trigger] dependants(
                modules,
                m,
            ).contains(n)
    }
}

/// What is reached in `a` steps is reached in any larger number of
/// steps.
pub proof fn lemma_within_monotone(
    modules: StrMap<ModuleEntry>,
    start: Seq<char>,
    n: Seq<char>,
    a: nat,
    b: nat,
)
    requires
        a <= b,
        within(modules, start, n, a),
    ensures
        within(modules, start, n, b),
    decreases b - a,
{
    if a < b {
        lemma_within_monotone(modules, start, n, a, (b - 1) as nat);
    }
}

/// Once a further step reaches nothing new, no number of steps does.
pub proof fn lemma_within_stable(
    modules: StrMap<ModuleEntry>,
    start: Seq<char>,
    d: nat,
    k: nat,
    n: Seq<char>,
)
    requires
        d <= k,
        forall|x: Seq<char>| within(modules, start, x, d + 1) ==> within(modules, start, x, d),
        within(modules, start, n, k),
    ensures
        within(modules, start, n, d),
    decreases k,
{
    if k > d {
        if within(modules, start, n, (k - 1) as nat) {
            lemma_within_stable(modules, start, d, (k - 1) as nat, n);
        } else {
            let m = choose|m: Seq<char>|
                within(modules, start, m, (k - 1) as nat) && #[trigger] dependants(
                    modules,
                    m,
                ).contains(n);
            lemma_within_stable(modules, start, d, (k - 1) as nat, m);
            assert(within(modules, start, n, d + 1));
        }
    }
}

/// Marks `n` as visited; where it was not visited before it joins the
/// next level and the result.
fn visit(n: &String, visited: &mut Vec<String>, next: &mut Vec<String>, result: &mut Vec<String>)
    requires
        strictly_sorted(old(visited).deep_view()),
        strictly_sorted(old(result).deep_view()),
        forall|x: Seq<char>| #[trigger]
            old(result).deep_view().contains(x) ==> old(visited).deep_view().contains(x),
    ensures
        strictly_sorted(final(visited).deep_view()),
        strictly_sorted(final(result).deep_view()),
        forall|x: Seq<char>| #[trigger]
            final(visited).deep_view().contains(x) <==> (old(visited).deep_view().contains(x) || x
                == n@),
        forall|x: Seq<char>| #[trigger]
            final(result).deep_view().contains(x) <==> (old(result).deep_view().contains(x) || (x
                == n@ && !old(visited).deep_view().contains(x))),
        forall|x: Seq<char>| #[trigger]
            final(next).deep_view().contains(x) <==> (old(next).deep_view().contains(x) || (x == n@
                && !old(visited).deep_view().contains(x))),
{
    let ghost v0 = visited.deep_view();
    let ghost r0 = result.deep_view();
    let ghost n0 = next.deep_view();
    if insert_unique(visited, n.clone()) {
        next.push(n.clone());
        proof {
            assert(next.deep_view() =~= n0.push(n@));
            assert forall|x: Seq<char>| #[trigger]
                next.deep_view().contains(x) <==> (n0.contains(x) || x == n@) by {
                crate::differ::lemma_contains_push(n0, n@, x);
            }
            assert(!r0.contains(n@));
        }
        insert_unique(result, n.clone());
    }
}

/// Visits every module that depends on `m`.
fn expand(
    modules: &StrMap<ModuleEntry>,
    m: &String,
    visited: &mut Vec<String>,
    next: &mut Vec<String>,
    result: &mut Vec<String>,
)
    requires
        strictly_sorted(old(visited).deep_view()),
        strictly_sorted(old(result).deep_view()),
        forall|x: Seq<char>| #[trigger]
            old(result).deep_view().contains(x) ==> old(visited).deep_view().contains(x),
    ensures
        strictly_sorted(final(visited).deep_view()),
        strictly_sorted(final(result).deep_view()),
        forall|x: Seq<char>| #[trigger]
            final(visited).deep_view().contains(x) <==> (old(visited).deep_view().contains(x)
                || dependants(*modules, m@).contains(x)),
        forall|x: Seq<char>| #[trigger]
            final(result).deep_view().contains(x) <==> (old(result).deep_view().contains(x) || (
            dependants(*modules, m@).contains(x) && !old(visited).deep_view().contains(x))),
        forall|x: Seq<char>| #[trigger]
            final(next).deep_view().contains(x) <==> (old(next).deep_view().contains(x) || (
            dependants(*modules, m@).contains(x) && !old(visited).deep_view().contains(x))),
{
    let ghost v0 = visited.deep_view();
    let ghost r0 = result.deep_view();
    let ghost n0 = next.deep_view();
    match modules.get(m.as_str()) {
        Some(entry) => {
            let deps = &entry.depended_by;
            let ghost d = deps.deep_view();
            let mut j: usize = 0;
            proof {
                assert(d == dependants(*modules, m@));
                assert(d.take(0) =~= Seq::<Seq<char>>::empty());
            }
            while j < deps.len()
                invariant
                    j <= deps.len(),
                    d == deps.deep_view(),
                    strictly_sorted(visited.deep_view()),
                    strictly_sorted(result.deep_view()),
                    forall|x: Seq<char>| #[trigger]
                        result.deep_view().contains(x) ==> visited.deep_view().contains(x),
                    forall|x: Seq<char>| #[trigger]
                        visited.deep_view().contains(x) <==> (v0.contains(x) || d.take(
                            j as int,
                        ).contains(x)),
                    forall|x: Seq<char>| #[trigger]
                        result.deep_view().contains(x) <==> (r0.contains(x) || (d.take(
                            j as int,
                        ).contains(x) && !v0.contains(x))),
                    forall|x: Seq<char>| #[trigger]
                        next.deep_view().contains(x) <==> (n0.contains(x) || (d.take(
                            j as int,
                        ).contains(x) && !v0.contains(x))),
                decreases deps.len() - j,
            {
                let ghost v1 = visited.deep_view();
                let ghost r1 = result.deep_view();
                let ghost n1 = next.deep_view();
                visit(&deps[j], visited, next, result);
                proof {
                    assert(d[j as int] == deps@[j as int]@);
                    assert forall|x: Seq<char>| #[trigger]
                        visited.deep_view().contains(x) <==> (v0.contains(x) || d.take(
                            j + 1,
                        ).contains(x)) by {
                        crate::differ::lemma_contains_take_next(d, j as int, x);
                        assert(v1.contains(x) <==> (v0.contains(x) || d.take(j as int).contains(
                            x,
                        )));
                    }
                    assert forall|x: Seq<char>| #[trigger]
                        result.deep_view().contains(x) <==> (r0.contains(x) || (d.take(
                            j + 1,
                        ).contains(x) && !v0.contains(x))) by {
                        crate::differ::lemma_contains_take_next(d, j as int, x);
                        assert(v1.contains(x) <==> (v0.contains(x) || d.take(j as int).contains(
                            x,
                        )));
                        assert(r1.contains(x) <==> (r0.contains(x) || (d.take(j as int).contains(
                            x,
                        ) && !v0.contains(x))));
                    }
                    assert forall|x: Seq<char>| #[trigger]
                        next.deep_view().contains(x) <==> (n0.contains(x) || (d.take(
                            j + 1,
                        ).contains(x) && !v0.contains(x))) by {
                        crate::differ::lemma_contains_take_next(d, j as int, x);
                        assert(v1.contains(x) <==> (v0.contains(x) || d.take(j as int).contains(
                            x,
                        )));
                        assert(n1.contains(x) <==> (n0.contains(x) || (d.take(j as int).contains(
                            x,
                        ) && !v0.contains(x))));
                    }
                }
                j += 1;
            }
            proof {
                assert(d.take(deps@.len() as int) =~= d);
            }
        },
        None => {
            proof {
                assert(dependants(*modules, m@) =~= Seq::<Seq<char>>::empty());
            }
        },
    }
}

/// Whether `x` depends on one of the first `i` modules of `level`.
pub open spec fn depends_on_level(
    modules: StrMap<ModuleEntry>,
    level: Seq<Seq<char>>,
    i: int,
    x: Seq<char>,
) -> bool {
    exists|a: int| 0 <= a < i && #[trigger] dependants(modules, level[a]).contains(x)
}

/// Visits every module that depends on a module of `level`, and returns
/// those that were not visited before.
fn next_level(
    modules: &StrMap<ModuleEntry>,
    level: &Vec<String>,
    visited: &mut Vec<String>,
    result: &mut Vec<String>,
) -> (next: Vec<String>)
    requires
        strictly_sorted(old(visited).deep_view()),
        strictly_sorted(old(result).deep_view()),
        forall|x: Seq<char>| #[trigger]
            old(result).deep_view().contains(x) ==> old(visited).deep_view().contains(x),
    ensures
        strictly_sorted(final(visited).deep_view()),
        strictly_sorted(final(result).deep_view()),
        forall|x: Seq<char>| #[trigger]
            final(visited).deep_view().contains(x) <==> (old(visited).deep_view().contains(x)
                || depends_on_level(*modules, level.deep_view(), level.len() as int, x)),
        forall|x: Seq<char>| #[trigger]
            next.deep_view().contains(x) <==> (final(visited).deep_view().contains(x) && !old(
                visited,
            ).deep_view().contains(x)),
        forall|x: Seq<char>| #[trigger]
            final(result).deep_view().contains(x) <==> (old(result).deep_view().contains(x)
                || next.deep_view().contains(x)),
{
    let ghost v0 = visited.deep_view();
    let ghost r0 = result.deep_view();
    let ghost lv = level.deep_view();
    let mut next: Vec<String> = Vec::new();
    let mut i: usize = 0;
    proof {
        assert(next.deep_view() =~= Seq::<Seq<char>>::empty());
    }
    while i < level.len()
        invariant
            i <= level.len(),
            lv == level.deep_view(),
            strictly_sorted(visited.deep_view()),
            strictly_sorted(result.deep_view()),
            forall|x: Seq<char>| #[trigger]
                result.deep_view().contains(x) ==> visited.deep_view().contains(x),
            forall|x: Seq<char>| #[trigger]
                visited.deep_view().contains(x) <==> (v0.contains(x) || depends_on_level(
                    *modules,
                    lv,
                    i as int,
                    x,
                )),
            forall|x: Seq<char>| #[trigger]
                next.deep_view().contains(x) <==> (visited.deep_view().contains(x) && !v0.contains(
                    x,
                )),
            forall|x: Seq<char>| #[trigger]
                result.deep_view().contains(x) <==> (r0.contains(x) || next.deep_view().contains(
                    x,
                )),
        decreases level.len() - i,
    {
        let ghost v1 = visited.deep_view();
        let ghost r1 = result.deep_view();
        let ghost n1 = next.deep_view();
        expand(modules, &level[i], visited, &mut next, result);
        proof {
            let m = lv[i as int];
            assert(m == level@[i as int]@);
            assert forall|x: Seq<char>| #[trigger]
                visited.deep_view().contains(x) <==> (v0.contains(x) || depends_on_level(
                    *modules,
                    lv,
                    i + 1,
                    x,
                )) by {
                assert(v1.contains(x) <==> (v0.contains(x) || depends_on_level(
                    *modules,
                    lv,
                    i as int,
                    x,
                )));
                if depends_on_level(*modules, lv, i + 1, x) {
                    let a = choose|a: int|
                        0 <= a < i + 1 && #[trigger] dependants(*modules, lv[a]).contains(x);
                    if a < i {
                        assert(depends_on_level(*modules, lv, i as int, x));
                    }
                }
                if depends_on_level(*modules, lv, i as int, x) {
                    let a = choose|a: int|
                        0 <= a < i && #[trigger] dependants(*modules, lv[a]).contains(x);
                    assert(0 <= a < i + 1 && dependants(*modules, lv[a]).contains(x));
                }
                if dependants(*modules, m).contains(x) {
                    assert(0 <= i < i + 1 && dependants(*modules, lv[i as int]).contains(x));
                }
            }
            assert forall|x: Seq<char>| #[trigger]
                next.deep_view().contains(x) <==> (visited.deep_view().contains(x) && !v0.contains(
                    x,
                )) by {
                assert(n1.contains(x) <==> (v1.contains(x) && !v0.contains(x)));
                assert(visited.deep_view().contains(x) <==> (v1.contains(x) || dependants(
                    *modules,
                    m,
                ).contains(x)));
                assert(v1.contains(x) <==> (v0.contains(x) || depends_on_level(
                    *modules,
                    lv,
                    i as int,
                    x,
                )));
            }
            assert forall|x: Seq<char>| #[trigger]
                result.deep_view().contains(x) <==> (r0.contains(x) || next.deep_view().contains(
                    x,
                )) by {
                assert(r1.contains(x) <==> (r0.contains(x) || n1.contains(x)));
                assert(n1.contains(x) <==> (v1.contains(x) && !v0.contains(x)));
                assert(next.deep_view().contains(x) <==> (n1.contains(x) || (dependants(
                    *modules,
                    m,
                ).contains(x) && !v1.contains(x))));
            }
        }
        i += 1;
    }
    next
}

/// Whether `list` holds exactly the modules other than `start` that are
/// reached from it in at most `depth` steps along the reverse
/// dependency edges, in ascending order.
pub open spec fn is_dependants_within(
    list: Seq<Seq<char>>,
    modules: StrMap<ModuleEntry>,
    start: Seq<char>,
    depth: nat,
) -> bool {
    &&& strictly_sorted(list)
    &&& forall|x: Seq<char>| #[trigger]
        list.contains(x) <==> (x != start && within(modules, start, x, depth))
}

/// The modules that depend on `start` directly or through at most
/// `max_depth` steps, without `start` itself, in ascending order.
pub fn bfs_dependants(modules: &StrMap<ModuleEntry>, start: &str, max_depth: u32) -> (result: Vec<
    String,
>)
    ensures
        is_dependants_within(result.deep_view(), *modules, start@, max_depth as nat),
        max_depth == 0 ==> result.deep_view().len() == 0,
{
    let mut visited: Vec<String> = Vec::new();
    let mut result: Vec<String> = Vec::new();
    let mut frontier: Vec<String> = Vec::new();
    proof {
        assert(visited.deep_view() =~= Seq::<Seq<char>>::empty());
        assert(result.deep_view() =~= Seq::<Seq<char>>::empty());
    }
    insert_unique(&mut visited, owned(start));
    frontier.push(owned(start));
    let mut depth: u32 = 0;
    proof {
        assert(frontier.deep_view() =~= seq![start@]);
        assert(frontier.deep_view()[0] == start@);
        assert forall|x: Seq<char>| #[trigger]
            visited.deep_view().contains(x) <==> within(*modules, start@, x, 0) by {}
    }
    let ghost ms = *modules;
    let ghost s = start@;
    while depth < max_depth && frontier.len() > 0
        invariant
            depth <= max_depth,
            ms == *modules,
            s == start@,
            strictly_sorted(visited.deep_view()),
            strictly_sorted(result.deep_view()),
            forall|x: Seq<char>| #[trigger]
                visited.deep_view().contains(x) <==> within(ms, s, x, depth as nat),
            forall|x: Seq<char>| #[trigger]
                result.deep_view().contains(x) <==> (visited.deep_view().contains(x) && x != s),
            forall|x: Seq<char>| #[trigger]
                frontier.deep_view().contains(x) ==> visited.deep_view().contains(x),
            forall|x: Seq<char>|
                within(ms, s, x, depth as nat) && !(#[trigger] frontier.deep_view().contains(x))
                    ==> depth > 0 && within(ms, s, x, (depth - 1) as nat),
        decreases max_depth - depth,
    {
        let ghost v0 = visited.deep_view();
        let ghost r0 = result.deep_view();
        let ghost f0 = frontier.deep_view();
        let ghost d0 = depth as nat;
        let next = next_level(modules, &frontier, &mut visited, &mut result);
        proof {
            assert forall|x: Seq<char>| #[trigger]
                visited.deep_view().contains(x) <==> within(ms, s, x, d0 + 1) by {
                assert(v0.contains(x) <==> within(ms, s, x, d0));
                if depends_on_level(ms, f0, f0.len() as int, x) {
                    let a = choose|a: int|
                        0 <= a < f0.len() && #[trigger] dependants(ms, f0[a]).contains(x);
                    assert(f0.contains(f0[a]));
                    assert(v0.contains(f0[a]));
                    assert(within(ms, s, f0[a], d0));
                    assert(within(ms, s, x, d0 + 1));
                }
                if within(ms, s, x, d0 + 1) && !within(ms, s, x, d0) {
                    let m = choose|m: Seq<char>|
                        within(ms, s, m, d0) && #[trigger] dependants(ms, m).contains(x);
                    if f0.contains(m) {
                        let a = choose|a: int| 0 <= a < f0.len() && f0[a] == m;
                        assert(dependants(ms, f0[a]).contains(x));
                        assert(depends_on_level(ms, f0, f0.len() as int, x));
                    } else {
                        assert(d0 > 0 && within(ms, s, m, (d0 - 1) as nat));
                        assert(within(ms, s, x, d0));
                    }
                }
            }
            assert forall|x: Seq<char>| #[trigger]
                result.deep_view().contains(x) <==> (visited.deep_view().contains(x) && x
                    != s) by {
                assert(r0.contains(x) <==> (v0.contains(x) && x != s));
                assert(next.deep_view().contains(x) <==> (visited.deep_view().contains(x)
                    && !v0.contains(x)));
                assert(within(ms, s, s, 0));
                lemma_within_monotone(ms, s, s, 0, d0);
                assert(v0.contains(s));
            }
            assert forall|x: Seq<char>| #[trigger]
                next.deep_view().contains(x) implies visited.deep_view().contains(x) by {}
            assert forall|x: Seq<char>|
                within(ms, s, x, d0 + 1) && !(#[trigger] next.deep_view().contains(x)) implies d0
                + 1 > 0 && within(ms, s, x, d0) by {
                assert(visited.deep_view().contains(x));
                assert(v0.contains(x));
            }
        }
        frontier = next;
        depth += 1;
    }
    proof {
        let d = depth as nat;
        let k = max_depth as nat;
        assert forall|x: Seq<char>| #[trigger]
            result.deep_view().contains(x) <==> (x != s && within(ms, s, x, k)) by {
            assert(visited.deep_view().contains(x) <==> within(ms, s, x, d));
            if d < k {
                assert(frontier.deep_view().len() == 0);
                assert(d > 0) by {
                    if d == 0 {
                        assert(within(ms, s, s, 0));
                        assert(!frontier.deep_view().contains(s));
                    }
                }
                let e = (d - 1) as nat;
                assert forall|y: Seq<char>| within(ms, s, y, e + 1) implies within(ms, s, y, e) by {
                    assert(!frontier.deep_view().contains(y));
                }
                if within(ms, s, x, k) {
                    lemma_within_stable(ms, s, e, k, x);
                    lemma_within_monotone(ms, s, x, e, d);
                }
                if within(ms, s, x, d) {
                    lemma_within_monotone(ms, s, x, d, k);
                }
            }
        }
        if max_depth == 0 && result.deep_view().len() > 0 {
            let x = result.deep_view()[0];
            assert(result.deep_view().contains(x));
        }
    }
    result
}

// ---------------------------------------------------------------------------
// The analysis
// ---------------------------------------------------------------------------

/// The files of a module, or nothing where the graph has no such
/// module.
pub open spec fn files_of(modules: StrMap<ModuleEntry>, m: Seq<char>) -> Seq<Seq<char>> {
    if modules.has(m) {
        modules.value_of(m).files.deep_view()
    } else {
        Seq::empty()
    }
}

/// The files of the first `n` of `names`, module after module.
pub open spec fn files_of_all(modules: StrMap<ModuleEntry>, names: Seq<Seq<char>>, n: int) -> Seq<
    Seq<char>,
>
    decreases n,
{
    if n <= 0 {
        Seq::empty()
    } else {
        files_of_all(modules, names, n - 1) + files_of(modules, names[n - 1])
    }
}

/// Whether `r` is the impact of changing `target`: the module that the
/// target resolves to; the modules recorded as depending on it; those
/// that depend on it within `max_depth` steps, ascending; the module
/// itself followed by these; and the files of all of them, ascending.
pub open spec fn is_impact_of(r: ImpactResult, g: CodeGraph, target: Seq<char>, max_depth: u32) -> bool {
    let resolved = resolve_target_spec(g, target);
    &&& r.target_type == resolved.0
    &&& r.target_module@ == resolved.1
    &&& r.direct_dependants.deep_view() == dependants(g.modules, resolved.1)
    &&& is_dependants_within(
        r.transitive_dependants.deep_view(),
        g.modules,
        resolved.1,
        max_depth as nat,
    )
    &&& r.impacted_modules.deep_view() == seq![resolved.1] + r.transitive_dependants.deep_view()
    &&& sorted(r.impacted_files.deep_view())
    &&& r.impacted_files.deep_view().to_multiset() == files_of_all(
        g.modules,
        r.impacted_modules.deep_view(),
        r.impacted_modules.deep_view().len() as int,
    ).to_multiset()
}

/// The files of `names`, module after module.
fn collect_files(modules: &StrMap<ModuleEntry>, names: &Vec<String>) -> (out: Vec<String>)
    ensures
        out.deep_view() == files_of_all(*modules, names.deep_view(), names.len() as int),
{
    let mut out: Vec<String> = Vec::new();
    let mut i: usize = 0;
    proof {
        assert(out.deep_view() =~= Seq::<Seq<char>>::empty());
    }
    while i < names.len()
        invariant
            i <= names.len(),
            out.deep_view() == files_of_all(*modules, names.deep_view(), i as int),
        decreases names.len() - i,
    {
        let ghost before = out.deep_view();
        proof {
            assert(names.deep_view()[i as int] == names@[i as int]@);
        }
        match modules.get(names[i].as_str()) {
            Some(entry) => {
                let files = &entry.files;
                let mut j: usize = 0;
                proof {
                    assert(out.deep_view() =~= before + files.deep_view().take(0));
                }
                while j < files.len()
                    invariant
                        j <= files.len(),
                        out.deep_view() == before + files.deep_view().take(j as int),
                    decreases files.len() - j,
                {
                    let ghost cur = out.deep_view();
                    out.push(files[j].clone());
                    proof {
                        assert(out.deep_view() =~= cur.push(files@[j as int]@));
                        assert(files.deep_view().take(j + 1) =~= files.deep_view().take(
                            j as int,
                        ).push(files@[j as int]@));
                        assert(out.deep_view() =~= before + files.deep_view().take(j + 1));
                    }
                    j += 1;
                }
                proof {
                    assert(files.deep_view().take(files@.len() as int) =~= files.deep_view());
                }
            },
            None => {
                proof {
                    assert(out.deep_view() =~= before + Seq::<Seq<char>>::empty());
                }
            },
        }
        i += 1;
    }
    out
}

/// Analyzes what a change of `target` reaches. The target names a
/// module, a file, or a part of a file path; dependants are followed at
/// most `max_depth` steps.
pub fn analyze_impact(graph: &CodeGraph, target: &str, max_depth: u32) -> (r: ImpactResult)
    ensures
        is_impact_of(r, *graph, target@, max_depth),
        max_depth == 0 ==> r.transitive_dependants.deep_view().len() == 0,
{
    let (target_type, target_module) = resolve_target(graph, target);
    let direct_dependants = match graph.modules.get(target_module.as_str()) {
        Some(m) => clone_strings(&m.depended_by),
        None => {
            let v: Vec<String> = Vec::new();
            proof {
                assert(v.deep_view() =~= Seq::<Seq<char>>::empty());
            }
            v
        },
    };
    let transitive_dependants = bfs_dependants(&graph.modules, target_module.as_str(), max_depth);
    let mut impacted_modules: Vec<String> = Vec::new();
    impacted_modules.push(target_module.clone());
    let mut i: usize = 0;
    proof {
        assert(impacted_modules.deep_view() =~= seq![target_module@]
            + transitive_dependants.deep_view().take(0));
    }
    while i < transitive_dependants.len()
        invariant
            i <= transitive_dependants.len(),
            impacted_modules.deep_view() == seq![target_module@]
                + transitive_dependants.deep_view().take(i as int),
        decreases transitive_dependants.len() - i,
    {
        let ghost before = impacted_modules.deep_view();
        impacted_modules.push(transitive_dependants[i].clone());
        proof {
            assert(impacted_modules.deep_view() =~= before.push(transitive_dependants@[i as int]@));
            assert(impacted_modules.deep_view() =~= seq![target_module@]
                + transitive_dependants.deep_view().take(i + 1));
        }
        i += 1;
    }
    proof {
        assert(transitive_dependants.deep_view().take(transitive_dependants@.len() as int)
            =~= transitive_dependants.deep_view());
    }
    let all_files = collect_files(&graph.modules, &impacted_modules);
    let impacted_files = sort_strings(&all_files);
    ImpactResult {
        target_type,
        target_module,
        direct_dependants,
        transitive_dependants,
        impacted_modules,
        impacted_files,
    }
}

} // verus!
