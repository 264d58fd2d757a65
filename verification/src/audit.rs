//! Security audit: backward reachability from a sensitive sink.
//!
//! Given a sink symbol, the engine walks the call graph backward to every
//! entry point, bounding depth, suppressing cycles, classifying each path
//! by trace length and summarizing the result. Each invocation is a pure
//! function of the graph snapshot, the sink name and the configuration.

use crate::graph::{
    graph_wf, node_views, spec_find_by_name, CallGraph, GraphModel, NodeInfo, NodeModel,
};
use crate::text::{spec_contains, spec_ends_with, str_contains, str_ends_with, str_eq};
use vstd::multiset::Multiset;
use vstd::prelude::*;
use vstd::string::StringExecFns;

verus! {

/// Risk tier of an audit finding, derived solely from trace length.
#[derive(Debug, Clone, Copy, PartialEq, Eq, Structural)]
pub enum Severity {
    /// Direct call (trace length up to 2): immediate exposure.
    Critical,
    /// Short path (trace length 3 to 4): high risk.
    High,
    /// Medium path (trace length 5 to 6): moderate risk.
    Medium,
    /// Long path (trace length 7 or more): lower but nonzero risk.
    Low,
}

/// The tier a trace of `depth` nodes falls into.
pub open spec fn severity_of(depth: nat) -> Severity {
    if depth <= 2 {
        Severity::Critical
    } else if depth <= 4 {
        Severity::High
    } else if depth <= 6 {
        Severity::Medium
    } else {
        Severity::Low
    }
}

/// The rank of a tier: `Critical` first.
pub open spec fn severity_rank(s: Severity) -> int {
    match s {
        Severity::Critical => 0,
        Severity::High => 1,
        Severity::Medium => 2,
        Severity::Low => 3,
    }
}

impl Severity {
    /// Classify a trace by its node count.
    pub fn from_depth(depth: usize) -> (s: Severity)
        ensures
            s == severity_of(depth as nat),
    {
        if depth <= 2 {
            Severity::Critical
        } else if depth <= 4 {
            Severity::High
        } else if depth <= 6 {
            Severity::Medium
        } else {
            Severity::Low
        }
    }

    /// The tier's upper-case label.
    pub fn label(&self) -> (r: &'static str)
        ensures
            r@ == match self {
                Severity::Critical => "CRITICAL"@,
                Severity::High => "HIGH"@,
                Severity::Medium => "MEDIUM"@,
                Severity::Low => "LOW"@,
            },
    {
        match self {
            Severity::Critical => "CRITICAL",
            Severity::High => "HIGH",
            Severity::Medium => "MEDIUM",
            Severity::Low => "LOW",
        }
    }

    /// The tier's marker glyph.
    pub fn emoji(&self) -> (r: &'static str)
        ensures
            r@ == match self {
                Severity::Critical => "🔴"@,
                Severity::High => "🟠"@,
                Severity::Medium => "🟡"@,
                Severity::Low => "🟢"@,
            },
    {
        match self {
            Severity::Critical => "🔴",
            Severity::High => "🟠",
            Severity::Medium => "🟡",
            Severity::Low => "🟢",
        }
    }
}

/// What str::to_lowercase returns for a given text: a function of the
/// characters alone.
pub uninterp spec fn lower_of(s: Seq<char>) -> Seq<char>;

/// Relies on str::to_lowercase: the lowercase mapping of the text, which
/// depends on the characters alone.
#[verifier::external_body]
fn lowercase(s: &str) -> (r: String)
    ensures
        r@ == lower_of(s@),
{
    s.to_lowercase()
}

/// A file path that looks like a test file: its lowercase form contains a
/// test marker or ends in a per-language test-file convention.
pub open spec fn is_test_path(f: Seq<char>) -> bool {
    let l = lower_of(f);
    ||| spec_contains(l, "test"@)
    ||| spec_contains(l, "spec"@)
    ||| spec_contains(l, "__tests__"@)
    ||| spec_ends_with(l, "_test.rs"@)
    ||| spec_ends_with(l, "_test.go"@)
    ||| spec_ends_with(l, ".test.ts"@)
    ||| spec_ends_with(l, ".test.js"@)
    ||| spec_ends_with(l, ".spec.ts"@)
    ||| spec_ends_with(l, ".spec.js"@)
}

/// Returns true if the file path looks like a test file.
pub fn is_test_file(file: &str) -> (r: bool)
    ensures
        r == is_test_path(file@),
{
    let lower = lowercase(file);
    let l = lower.as_str();
    str_contains(l, "test") || str_contains(l, "spec") || str_contains(l, "__tests__")
        || str_ends_with(l, "_test.rs") || str_ends_with(l, "_test.go") || str_ends_with(
        l,
        ".test.ts",
    ) || str_ends_with(l, ".test.js") || str_ends_with(l, ".spec.ts") || str_ends_with(
        l,
        ".spec.js",
    )
}

/// A caller survives filtering unless test files are ignored and its file
/// looks like one.
pub open spec fn keep_caller(g: GraphModel, c: usize, ignore_tests: bool) -> bool {
    !(ignore_tests && is_test_path(g.nodes[c as int].file))
}

/// The callers that survive the test-file filter, in stored order.
pub open spec fn filter_callers(g: GraphModel, cs: Seq<usize>, ignore_tests: bool) -> Seq<usize>
    decreases cs.len(),
{
    if cs.len() == 0 {
        Seq::empty()
    } else {
        filter_callers(g, cs.drop_last(), ignore_tests) + (if keep_caller(
            g,
            cs.last(),
            ignore_tests,
        ) {
            seq![cs.last()]
        } else {
            Seq::empty()
        })
    }
}

/// The paths the backward search records from `cur`, given the path walked
/// so far (sink first), the remaining depth budget and the filter flag.
///
/// A node whose filtered caller list is empty is an entry point: the path
/// to it is recorded, except that the sink alone is never a path. A caller
/// already on the path is not followed (cycle suppression), and a path
/// whose budget runs out is discarded silently.
pub open spec fn search(
    g: GraphModel,
    cur: usize,
    path: Seq<usize>,
    budget: nat,
    ignore_tests: bool,
) -> Seq<Seq<usize>>
    decreases budget, 1int, 0int,
{
    let p2 = path.push(cur);
    if budget == 0 {
        Seq::empty()
    } else {
        let cs = filter_callers(g, g.callers[cur as int], ignore_tests);
        if cs.len() == 0 {
            if p2.len() >= 2 {
                seq![p2]
            } else {
                Seq::empty()
            }
        } else {
            search_list(g, cs, p2, budget, ignore_tests)
        }
    }
}

/// The concatenation, in caller order, of the searches into each caller
/// not already on the path.
pub open spec fn search_list(
    g: GraphModel,
    cs: Seq<usize>,
    path: Seq<usize>,
    budget: nat,
    ignore_tests: bool,
) -> Seq<Seq<usize>>
    decreases budget, 0int, cs.len(),
{
    if cs.len() == 0 || budget == 0 {
        Seq::empty()
    } else {
        search_list(g, cs.drop_last(), path, budget, ignore_tests) + (if path.contains(
            cs.last(),
        ) {
            Seq::empty()
        } else {
            search(g, cs.last(), path, (budget - 1) as nat, ignore_tests)
        })
    }
}

/// The views of a collection of raw index paths.
pub open spec fn path_views(rs: Seq<Vec<usize>>) -> Seq<Seq<usize>> {
    rs.map_values(|v: Vec<usize>| v@)
}

fn vec_contains(v: &Vec<usize>, x: usize) -> (r: bool)
    ensures
        r == v@.contains(x),
{
    let mut i: usize = 0;
    while i < v.len()
        invariant
            i <= v@.len(),
            forall|j: int| 0 <= j < i ==> v@[j] != x,
        decreases v@.len() - i,
    {
        if v[i] == x {
            return true;
        }
        i += 1;
    }
    proof {
        assert(forall|j: int| 0 <= j < v@.len() ==> v@[j] != x);
    }
    false
}

fn copy_path(v: &Vec<usize>) -> (r: Vec<usize>)
    ensures
        r@ == v@,
{
    let mut out: Vec<usize> = Vec::new();
    let mut i: usize = 0;
    while i < v.len()
        invariant
            i <= v@.len(),
            out@ == v@.take(i as int),
        decreases v@.len() - i,
    {
        out.push(v[i]);
        proof {
            assert(out@ =~= v@.take(i + 1));
        }
        i += 1;
    }
    proof {
        assert(v@.take(v@.len() as int) =~= v@);
    }
    out
}

/// Depth-first backward traversal: records, in caller order, every path
/// from `current` back to an entry point, exactly as [`search`] describes.
fn find_paths_to_roots(
    g: &CallGraph,
    current: usize,
    path: &mut Vec<usize>,
    results: &mut Vec<Vec<usize>>,
    depth_remaining: usize,
    ignore_tests: bool,
)
    requires
        g.wf(),
        current < g@.nodes.len(),
    ensures
        final(path)@ == old(path)@,
        path_views(final(results)@) == path_views(old(results)@) + search(
            g@,
            current,
            old(path)@,
            depth_remaining as nat,
            ignore_tests,
        ),
    decreases depth_remaining,
{
    path.push(current);
    if depth_remaining == 0 {
        path.pop();
        proof {
            assert(path@ =~= old(path)@);
            assert(path_views(results@) =~= path_views(old(results)@) + search(
                g@,
                current,
                old(path)@,
                0nat,
                ignore_tests,
            ));
        }
        return;
    }
    let ghost p2 = path@;
    let crow = g.callers_of(current);
    let mut cs: Vec<usize> = Vec::new();
    let mut j: usize = 0;
    proof {
        assert(g@.callers[current as int].take(0) =~= Seq::<usize>::empty());
        assert(cs@ =~= filter_callers(g@, g@.callers[current as int].take(0), ignore_tests));
    }
    while j < crow.len()
        invariant
            g.wf(),
            current < g@.nodes.len(),
            crow@ == g@.callers[current as int],
            j <= crow@.len(),
            cs@ == filter_callers(g@, g@.callers[current as int].take(j as int), ignore_tests),
            forall|k: int| 0 <= k < cs@.len() ==> cs@[k] < g@.nodes.len(),
        decreases crow@.len() - j,
    {
        proof {
            assert(g@.callers[current as int].take(j + 1).drop_last() =~= g@.callers[
                current as int
            ].take(j as int));
            assert(g@.callers[current as int].take(j + 1).last() == crow@[j as int]);
        }
        let c = crow[j];
        let keep = if ignore_tests {
            !is_test_file(g.node_at(c).file.as_str())
        } else {
            true
        };
        if keep {
            cs.push(c);
            proof {
                assert(cs@ =~= filter_callers(
                    g@,
                    g@.callers[current as int].take(j + 1),
                    ignore_tests,
                ));
            }
        } else {
            proof {
                assert(cs@ =~= filter_callers(
                    g@,
                    g@.callers[current as int].take(j + 1),
                    ignore_tests,
                ));
            }
        }
        j += 1;
    }
    proof {
        assert(g@.callers[current as int].take(crow@.len() as int) =~= g@.callers[current as int]);
    }
    if cs.len() == 0 {
        if path.len() >= 2 {
            let snapshot = copy_path(path);
            let ghost prev = results@;
            results.push(snapshot);
            proof {
                assert(path_views(prev.push(results@[prev.len() as int])) =~= path_views(
                    prev,
                ).push(p2));
                assert(path_views(results@) =~= path_views(old(results)@) + seq![p2]);
            }
        }
        path.pop();
        proof {
            assert(path@ =~= old(path)@);
            assert(p2 == old(path)@.push(current));
            assert(path_views(results@) =~= path_views(old(results)@) + search(
                g@,
                current,
                old(path)@,
                depth_remaining as nat,
                ignore_tests,
            ));
        }
        return;
    }
    let n = cs.len();
    let mut k: usize = 0;
    proof {
        assert(cs@.take(0) =~= Seq::<usize>::empty());
        assert(path_views(results@) =~= path_views(results@) + search_list(
            g@,
            cs@.take(0),
            p2,
            depth_remaining as nat,
            ignore_tests,
        ));
    }
    while k < n
        invariant
            g.wf(),
            current < g@.nodes.len(),
            n == cs@.len(),
            k <= n,
            depth_remaining >= 1,
            forall|t: int| 0 <= t < cs@.len() ==> cs@[t] < g@.nodes.len(),
            path@ == p2,
            p2 == old(path)@.push(current),
            path_views(results@) == path_views(old(results)@) + search_list(
                g@,
                cs@.take(k as int),
                p2,
                depth_remaining as nat,
                ignore_tests,
            ),
        decreases n - k,
    {
        proof {
            assert(cs@.take(k + 1).drop_last() =~= cs@.take(k as int));
            assert(cs@.take(k + 1).last() == cs@[k as int]);
        }
        let c = cs[k];
        if !vec_contains(path, c) {
            find_paths_to_roots(g, c, path, results, depth_remaining - 1, ignore_tests);
        }
        proof {
            assert(path_views(results@) =~= path_views(old(results)@) + search_list(
                g@,
                cs@.take(k + 1),
                p2,
                depth_remaining as nat,
                ignore_tests,
            ));
        }
        k += 1;
    }
    proof {
        assert(cs@.take(n as int) =~= cs@);
    }
    path.pop();
    proof {
        assert(path@ =~= old(path)@);
    }
}

proof fn lemma_concat_contains<A>(a: Seq<A>, b: Seq<A>)
    ensures
        forall|x: A| #[trigger] (a + b).contains(x) <==> (a.contains(x) || b.contains(x)),
{
    assert forall|x: A| #[trigger] (a + b).contains(x) <==> (a.contains(x) || b.contains(x)) by {
        if a.contains(x) {
            let k = choose|k: int| 0 <= k < a.len() && a[k] == x;
            assert((a + b)[k] == x);
        }
        if b.contains(x) {
            let k = choose|k: int| 0 <= k < b.len() && b[k] == x;
            assert((a + b)[a.len() + k] == x);
        }
        if (a + b).contains(x) {
            let k = choose|k: int| 0 <= k < (a + b).len() && (a + b)[k] == x;
            if k < a.len() {
                assert(a[k] == x);
            } else {
                assert(b[k - a.len()] == x);
            }
        }
    }
}

proof fn lemma_filter_callers_members(g: GraphModel, cs: Seq<usize>, ignore_tests: bool)
    ensures
        forall|i: int|
            0 <= i < filter_callers(g, cs, ignore_tests).len() ==> cs.contains(
                #[trigger] filter_callers(g, cs, ignore_tests)[i],
            ),
    decreases cs.len(),
{
    if cs.len() > 0 {
        lemma_filter_callers_members(g, cs.drop_last(), ignore_tests);
        assert forall|i: int|
            0 <= i < filter_callers(g, cs, ignore_tests).len() implies cs.contains(
            #[trigger] filter_callers(g, cs, ignore_tests)[i],
        ) by {
            let f = filter_callers(g, cs, ignore_tests);
            let fd = filter_callers(g, cs.drop_last(), ignore_tests);
            if i < fd.len() {
                assert(fd[i] == f[i]);
                let k = choose|k: int| 0 <= k < cs.drop_last().len() && cs.drop_last()[k] == fd[i];
                assert(cs[k] == f[i]);
            } else {
                assert(f[i] == cs.last());
                assert(cs[cs.len() - 1] == f[i]);
            }
        }
    }
}

/// Cycle safety and soundness of the backward search: every recorded path
/// extends the walked path, never repeats a node, and stays within the
/// graph — on a graph with a caller cycle the search terminates and no
/// reported path contains a repeated node.
pub proof fn lemma_search_sound(
    g: GraphModel,
    cur: usize,
    path: Seq<usize>,
    budget: nat,
    ignore_tests: bool,
)
    requires
        graph_wf(g),
        cur < g.nodes.len(),
        forall|i: int| 0 <= i < path.len() ==> path[i] < g.nodes.len(),
        !path.contains(cur),
        path.no_duplicates(),
    ensures
        forall|p: Seq<usize>|
            #[trigger] search(g, cur, path, budget, ignore_tests).contains(p) ==> p.len() >= 2
                && p.len() >= path.len() + 1 && p.no_duplicates() && (forall|i: int|
                0 <= i < p.len() ==> p[i] < g.nodes.len()),
    decreases budget, 1int, 0int,
{
    if budget > 0 {
        let p2 = path.push(cur);
        assert(p2.no_duplicates()) by {
            assert(forall|i: int| 0 <= i < path.len() ==> p2[i] == path[i]);
            assert(p2[p2.len() - 1] == cur);
        }
        assert(forall|i: int| 0 <= i < p2.len() ==> p2[i] < g.nodes.len());
        let cs = filter_callers(g, g.callers[cur as int], ignore_tests);
        if cs.len() > 0 {
            lemma_filter_callers_members(g, g.callers[cur as int], ignore_tests);
            assert forall|i: int| 0 <= i < cs.len() implies #[trigger] cs[i] < g.nodes.len() by {
                let k = choose|k: int|
                    0 <= k < g.callers[cur as int].len() && g.callers[cur as int][k] == cs[i];
            }
            lemma_search_list_sound(g, cs, p2, budget, ignore_tests);
        }
        assert forall|p: Seq<usize>|
            #[trigger] search(g, cur, path, budget, ignore_tests).contains(p) implies p.len() >= 2
            && p.len() >= path.len() + 1 && p.no_duplicates() && (forall|i: int|
            0 <= i < p.len() ==> p[i] < g.nodes.len()) by {
            if cs.len() == 0 {
                assert(p == p2);
            } else {
                assert(search_list(g, cs, p2, budget, ignore_tests).contains(p));
            }
        }
    }
}

proof fn lemma_search_list_sound(
    g: GraphModel,
    cs: Seq<usize>,
    path: Seq<usize>,
    budget: nat,
    ignore_tests: bool,
)
    requires
        graph_wf(g),
        path.len() >= 1,
        forall|i: int| 0 <= i < path.len() ==> path[i] < g.nodes.len(),
        path.no_duplicates(),
        forall|i: int| 0 <= i < cs.len() ==> cs[i] < g.nodes.len(),
    ensures
        forall|p: Seq<usize>|
            #[trigger] search_list(g, cs, path, budget, ignore_tests).contains(p) ==> p.len() >= 2
                && p.len() >= path.len() + 1 && p.no_duplicates() && (forall|i: int|
                0 <= i < p.len() ==> p[i] < g.nodes.len()),
    decreases budget, 0int, cs.len(),
{
    if cs.len() > 0 && budget > 0 {
        lemma_search_list_sound(g, cs.drop_last(), path, budget, ignore_tests);
        let a = search_list(g, cs.drop_last(), path, budget, ignore_tests);
        let b = if path.contains(cs.last()) {
            Seq::<Seq<usize>>::empty()
        } else {
            search(g, cs.last(), path, (budget - 1) as nat, ignore_tests)
        };
        if !path.contains(cs.last()) {
            lemma_search_sound(g, cs.last(), path, (budget - 1) as nat, ignore_tests);
        }
        lemma_concat_contains(a, b);
    }
}

proof fn lemma_search_list_depth_monotonic(
    g: GraphModel,
    cs: Seq<usize>,
    path: Seq<usize>,
    d: nat,
    ignore_tests: bool,
)
    ensures
        forall|p: Seq<usize>|
            #[trigger] search_list(g, cs, path, d, ignore_tests).contains(p) ==> search_list(
                g,
                cs,
                path,
                d + 1,
                ignore_tests,
            ).contains(p),
    decreases d, 0int, cs.len(),
{
    if cs.len() > 0 && d > 0 {
        lemma_search_list_depth_monotonic(g, cs.drop_last(), path, d, ignore_tests);
        let a1 = search_list(g, cs.drop_last(), path, d, ignore_tests);
        let a2 = search_list(g, cs.drop_last(), path, d + 1, ignore_tests);
        let b1 = if path.contains(cs.last()) {
            Seq::<Seq<usize>>::empty()
        } else {
            search(g, cs.last(), path, (d - 1) as nat, ignore_tests)
        };
        let b2 = if path.contains(cs.last()) {
            Seq::<Seq<usize>>::empty()
        } else {
            search(g, cs.last(), path, d, ignore_tests)
        };
        if !path.contains(cs.last()) {
            lemma_search_depth_monotonic(g, cs.last(), path, (d - 1) as nat, ignore_tests);
        }
        lemma_concat_contains(a1, b1);
        lemma_concat_contains(a2, b2);
        assert((d - 1) as nat + 1 == d);
    }
}

/// One step of depth monotonicity: every path recorded with depth budget
/// `d` is also recorded with budget `d + 1`.
pub proof fn lemma_search_depth_monotonic(
    g: GraphModel,
    cur: usize,
    path: Seq<usize>,
    d: nat,
    ignore_tests: bool,
)
    ensures
        forall|p: Seq<usize>|
            #[trigger] search(g, cur, path, d, ignore_tests).contains(p) ==> search(
                g,
                cur,
                path,
                d + 1,
                ignore_tests,
            ).contains(p),
    decreases d, 1int, 0int,
{
    if d > 0 {
        let p2 = path.push(cur);
        let cs = filter_callers(g, g.callers[cur as int], ignore_tests);
        if cs.len() > 0 {
            lemma_search_list_depth_monotonic(g, cs, p2, d, ignore_tests);
        }
        assert forall|p: Seq<usize>|
            #[trigger] search(g, cur, path, d, ignore_tests).contains(p) implies search(
            g,
            cur,
            path,
            d + 1,
            ignore_tests,
        ).contains(p) by {
            if cs.len() == 0 {
                assert(search(g, cur, path, d + 1, ignore_tests) == search(
                    g,
                    cur,
                    path,
                    d,
                    ignore_tests,
                ));
            } else {
                assert(search_list(g, cs, p2, d, ignore_tests).contains(p));
                assert(search_list(g, cs, p2, d + 1, ignore_tests).contains(p));
            }
        }
    }
}

/// Depth monotonicity: every path the search records with depth bound `d1`
/// it also records with any bound `d2 >= d1`; the set of entry points
/// found with the smaller bound is therefore a subset of those found with
/// the larger.
pub proof fn lemma_depth_monotonic(
    g: GraphModel,
    cur: usize,
    path: Seq<usize>,
    d1: nat,
    d2: nat,
    ignore_tests: bool,
)
    requires
        d1 <= d2,
    ensures
        forall|p: Seq<usize>|
            #[trigger] search(g, cur, path, d1, ignore_tests).contains(p) ==> search(
                g,
                cur,
                path,
                d2,
                ignore_tests,
            ).contains(p),
    decreases d2 - d1,
{
    if d1 < d2 {
        lemma_depth_monotonic(g, cur, path, d1, (d2 - 1) as nat, ignore_tests);
        lemma_search_depth_monotonic(g, cur, path, (d2 - 1) as nat, ignore_tests);
        assert((d2 - 1) as nat + 1 == d2);
    }
}

/// The set of entry points the audit finds with one depth bound is a
/// subset of the set found with any larger bound: every path recorded at
/// the smaller bound is recorded at the larger one with the same entry
/// point at its end.
pub proof fn lemma_entry_points_monotonic(
    g: GraphModel,
    sink: usize,
    d1: nat,
    d2: nat,
    ignore_tests: bool,
)
    requires
        graph_wf(g),
        sink < g.nodes.len(),
        d1 <= d2,
    ensures
        forall|p: Seq<usize>|
            #[trigger] search(g, sink, Seq::empty(), d1, ignore_tests).contains(p)
                ==> exists|q: Seq<usize>|
                {
                    &&& #[trigger] search(g, sink, Seq::empty(), d2, ignore_tests).contains(q)
                    &&& q.len() >= 1
                    &&& p.len() >= 1
                    &&& q.last() == p.last()
                },
{
    lemma_depth_monotonic(g, sink, Seq::empty(), d1, d2, ignore_tests);
    assert(Seq::<usize>::empty().no_duplicates());
    assert(!Seq::<usize>::empty().contains(sink));
    lemma_search_sound(g, sink, Seq::empty(), d1, ignore_tests);
}

/// A sink with no callers at traversal start yields no paths: the sink
/// alone is never reported as a path.
pub proof fn lemma_callerless_sink_no_paths(
    g: GraphModel,
    sink: usize,
    budget: nat,
    ignore_tests: bool,
)
    requires
        g.callers[sink as int].len() == 0,
    ensures
        search(g, sink, Seq::empty(), budget, ignore_tests) == Seq::<Seq<usize>>::empty(),
{
    if budget > 0 {
        assert(g.callers[sink as int] =~= Seq::<usize>::empty());
        assert(Seq::<usize>::empty().push(sink).len() == 1);
    }
}

proof fn lemma_filter_all_dropped(g: GraphModel, cs: Seq<usize>)
    requires
        forall|j: int| 0 <= j < cs.len() ==> is_test_path(g.nodes[cs[j] as int].file),
    ensures
        filter_callers(g, cs, true) == Seq::<usize>::empty(),
    decreases cs.len(),
{
    if cs.len() > 0 {
        lemma_filter_all_dropped(g, cs.drop_last());
        assert(!keep_caller(g, cs.last(), true));
        assert(filter_callers(g, cs, true) =~= Seq::<usize>::empty());
    }
}

/// With test files ignored, a sink reachable only through callers in
/// test-looking files is unreachable: the search records no paths.
pub proof fn lemma_test_only_callers_no_paths(g: GraphModel, sink: usize, budget: nat)
    requires
        forall|j: int|
            0 <= j < g.callers[sink as int].len() ==> is_test_path(
                g.nodes[g.callers[sink as int][j] as int].file,
            ),
    ensures
        search(g, sink, Seq::empty(), budget, true) == Seq::<Seq<usize>>::empty(),
{
    if budget > 0 {
        lemma_filter_all_dropped(g, g.callers[sink as int]);
        assert(Seq::<usize>::empty().push(sink).len() == 1);
    }
}

/// Configuration for the audit engine.
pub struct AuditConfig {
    /// Maximum search depth: the longest path, in nodes, the search will
    /// follow. Positive.
    pub max_depth: usize,
    /// Drop callers that lie in test-looking files.
    pub ignore_tests: bool,
}

/// Mathematical model of an [`AuditPath`].
pub ghost struct PathModel {
    pub source: NodeModel,
    pub trace: Seq<NodeModel>,
    pub severity: Severity,
    pub uncertainty: Seq<Seq<char>>,
}

/// A single path from a public entry point to the sink.
#[derive(Debug)]
pub struct AuditPath {
    /// The public entry point the path starts from.
    pub source: NodeInfo,
    /// The nodes from the entry point to the sink, inclusive.
    pub trace: Vec<NodeInfo>,
    /// Severity derived from the trace length.
    pub severity: Severity,
    /// Uncertainty annotations; reserved, always empty.
    pub uncertainty: Vec<String>,
}

impl View for AuditPath {
    type V = PathModel;

    open spec fn view(&self) -> PathModel {
        PathModel {
            source: self.source@,
            trace: node_views(self.trace@),
            severity: self.severity,
            uncertainty: self.uncertainty@.map_values(|s: String| s@),
        }
    }
}

/// The models of a sequence of audit paths.
pub open spec fn path_models(s: Seq<AuditPath>) -> Seq<PathModel> {
    s.map_values(|p: AuditPath| p@)
}

/// Statistics summary for the audit.
#[derive(Debug, Clone)]
pub struct AuditSummary {
    pub critical_count: usize,
    pub high_count: usize,
    pub medium_count: usize,
    pub low_count: usize,
    pub unique_entry_points: usize,
    pub unique_files: usize,
}

impl Default for AuditSummary {
    fn default() -> (r: Self)
        ensures
            r.critical_count == 0 && r.high_count == 0 && r.medium_count == 0 && r.low_count == 0
                && r.unique_entry_points == 0 && r.unique_files == 0,
    {
        AuditSummary {
            critical_count: 0,
            high_count: 0,
            medium_count: 0,
            low_count: 0,
            unique_entry_points: 0,
            unique_files: 0,
        }
    }
}

/// Complete result of a security audit against a single sink.
#[derive(Debug)]
pub struct AuditResult {
    /// The resolved sink node.
    pub sink: NodeInfo,
    /// Paths from public entry points to the sink, severity-major,
    /// length-minor order.
    pub paths: Vec<AuditPath>,
    /// Total number of reachable paths found.
    pub path_count: usize,
    /// Summary statistics over the paths.
    pub summary: AuditSummary,
}

/// The audit's one hard failure: the sink name is absent from the graph.
#[derive(Debug, Clone)]
pub enum AuditError {
    SinkNotFound(String),
}

impl AuditError {
    /// A short human-readable description of the failure.
    pub fn message(&self) -> (r: String)
        ensures
            match self {
                AuditError::SinkNotFound(n) => r@ == "sink symbol not found in graph: "@ + n@,
            },
    {
        match self {
            AuditError::SinkNotFound(n) => {
                let mut s = "sink symbol not found in graph: ".to_owned();
                s.append(n.as_str());
                s
            },
        }
    }
}

/// How many of the paths have the given severity.
pub open spec fn count_severity(ps: Seq<PathModel>, s: Severity) -> int
    decreases ps.len(),
{
    if ps.len() == 0 {
        0int
    } else {
        count_severity(ps.drop_last(), s) + (if ps.last().severity == s {
            1int
        } else {
            0int
        })
    }
}

/// The entry-point names of the paths, in path order.
pub open spec fn names_of(ps: Seq<PathModel>) -> Seq<Seq<char>>
    decreases ps.len(),
{
    if ps.len() == 0 {
        Seq::empty()
    } else {
        names_of(ps.drop_last()).push(ps.last().source.name)
    }
}

/// The files of one trace, in trace order.
pub open spec fn files_of_trace(t: Seq<NodeModel>) -> Seq<Seq<char>>
    decreases t.len(),
{
    if t.len() == 0 {
        Seq::empty()
    } else {
        files_of_trace(t.drop_last()).push(t.last().file)
    }
}

/// The files touched by all traces, in path order.
pub open spec fn files_of(ps: Seq<PathModel>) -> Seq<Seq<char>>
    decreases ps.len(),
{
    if ps.len() == 0 {
        Seq::empty()
    } else {
        files_of(ps.drop_last()) + files_of_trace(ps.last().trace)
    }
}

proof fn lemma_contains_push_all<A>(s: Seq<A>, y: A)
    ensures
        forall|x: A| #[trigger] s.push(y).contains(x) <==> (s.contains(x) || x == y),
{
    assert forall|x: A| #[trigger] s.push(y).contains(x) <==> (s.contains(x) || x == y) by {
        if s.contains(x) {
            let k = choose|k: int| 0 <= k < s.len() && s[k] == x;
            assert(s.push(y)[k] == x);
        }
        assert(s.push(y)[s.len() as int] == y);
        if s.push(y).contains(x) {
            let k = choose|k: int| 0 <= k < s.push(y).len() && s.push(y)[k] == x;
            if k < s.len() {
                assert(s[k] == x);
            }
        }
    }
}

proof fn lemma_names_of_len(ps: Seq<PathModel>)
    ensures
        names_of(ps).len() == ps.len(),
        forall|k: int| 0 <= k < ps.len() ==> names_of(ps)[k] == ps[k].source.name,
    decreases ps.len(),
{
    if ps.len() > 0 {
        lemma_names_of_len(ps.drop_last());
    }
}

proof fn lemma_files_of_trace_len(t: Seq<NodeModel>)
    ensures
        files_of_trace(t).len() == t.len(),
        forall|k: int| 0 <= k < t.len() ==> files_of_trace(t)[k] == t[k].file,
    decreases t.len(),
{
    if t.len() > 0 {
        lemma_files_of_trace_len(t.drop_last());
    }
}

/// How many distinct values the sequence holds.
pub open spec fn distinct_count(s: Seq<Seq<char>>) -> int
    decreases s.len(),
{
    if s.len() == 0 {
        0int
    } else {
        distinct_count(s.drop_last()) + (if s.drop_last().contains(s.last()) {
            0int
        } else {
            1int
        })
    }
}

/// `a` may stand before `b`: severity-major (Critical first), trace-length
/// minor.
pub open spec fn path_le(a: PathModel, b: PathModel) -> bool {
    ||| severity_rank(a.severity) < severity_rank(b.severity)
    ||| (severity_rank(a.severity) == severity_rank(b.severity) && a.trace.len() <= b.trace.len())
}

/// The paths stand in severity-major, length-minor order: any critical
/// path precedes any lower-severity path regardless of length, and within
/// one severity shorter traces come first.
pub open spec fn sorted_paths(ps: Seq<PathModel>) -> bool {
    forall|i: int, j: int| 0 <= i < j < ps.len() ==> path_le(#[trigger] ps[i], #[trigger] ps[j])
}

fn severity_rank_exec(s: Severity) -> (r: usize)
    ensures
        r as int == severity_rank(s),
{
    match s {
        Severity::Critical => 0,
        Severity::High => 1,
        Severity::Medium => 2,
        Severity::Low => 3,
    }
}

fn path_le_exec(a: &AuditPath, b: &AuditPath) -> (r: bool)
    ensures
        r == path_le(a@, b@),
{
    let ra = severity_rank_exec(a.severity);
    let rb = severity_rank_exec(b.severity);
    ra < rb || (ra == rb && a.trace.len() <= b.trace.len())
}

/// Sort paths severity-major, length-minor: the result is ordered and
/// holds exactly the given paths.
fn sort_paths(paths: Vec<AuditPath>) -> (r: Vec<AuditPath>)
    ensures
        sorted_paths(path_models(r@)),
        path_models(r@).to_multiset() == path_models(paths@).to_multiset(),
{
    broadcast use vstd::seq_lib::group_to_multiset_ensures;
    broadcast use vstd::multiset::group_multiset_axioms;

    let mut work = paths;
    let mut out: Vec<AuditPath> = Vec::new();
    proof {
        assert(path_models(out@) =~= Seq::<PathModel>::empty());
        assert(path_models(paths@).to_multiset() =~= path_models(out@).to_multiset().add(
            path_models(work@).to_multiset(),
        ));
    }
    while work.len() > 0
        invariant
            path_models(paths@).to_multiset() == path_models(out@).to_multiset().add(
                path_models(work@).to_multiset(),
            ),
            sorted_paths(path_models(out@)),
            forall|a: int, b: int|
                0 <= a < out@.len() && 0 <= b < work@.len() ==> path_le(
                    path_models(out@)[a],
                    path_models(work@)[b],
                ),
        decreases work@.len(),
    {
        let mut m: usize = 0;
        let mut i: usize = 1;
        while i < work.len()
            invariant
                work@.len() > 0,
                m < i,
                i <= work@.len(),
                forall|j: int| 0 <= j < i ==> path_le(work@[m as int]@, #[trigger] work@[j]@),
            decreases work@.len() - i,
        {
            if !path_le_exec(&work[m], &work[i]) {
                proof {
                    assert forall|j: int| 0 <= j < i + 1 implies path_le(
                        work@[i as int]@,
                        #[trigger] work@[j]@,
                    ) by {
                        assert(path_le(work@[m as int]@, work@[j]@) || j == i);
                    }
                }
                m = i;
            }
            i += 1;
        }
        let ghost w0 = work@;
        let ghost outprev = out@;
        let p = work.remove(m);
        let ghost pmod = p@;
        out.push(p);
        proof {
            path_models(w0).to_multiset_ensures();
            path_models(outprev).to_multiset_ensures();
            assert(path_models(w0)[m as int] == pmod);
            assert(path_models(work@) =~= path_models(w0).remove(m as int));
            assert(path_models(w0).remove(m as int).to_multiset() =~= path_models(
                w0,
            ).to_multiset().remove(pmod));
            assert(path_models(out@) =~= path_models(outprev).push(pmod));
            assert(path_models(outprev).push(pmod).to_multiset() =~= path_models(
                outprev,
            ).to_multiset().insert(pmod));
            assert(path_models(out@).to_multiset() =~= path_models(outprev).to_multiset().insert(
                pmod,
            ));
            assert(path_models(w0).to_multiset().count(pmod) >= 1);
            assert(path_models(out@).to_multiset().add(path_models(work@).to_multiset())
                =~= path_models(outprev).to_multiset().add(path_models(w0).to_multiset()));
            assert forall|a: int, b: int|
                0 <= a < out@.len() && 0 <= b < work@.len() implies path_le(
                path_models(out@)[a],
                path_models(work@)[b],
            ) by {
                assert(path_models(work@)[b] == if b < m {
                    path_models(w0)[b]
                } else {
                    path_models(w0)[b + 1]
                });
                if a < outprev.len() {
                    assert(path_le(path_models(outprev)[a], path_models(w0)[if b < m {
                        b
                    } else {
                        b + 1
                    }]));
                } else {
                    assert(path_le(pmod, w0[if b < m {
                        b
                    } else {
                        b + 1
                    }]@));
                }
            }
            assert forall|a: int, b: int|
                0 <= a < b < path_models(out@).len() implies path_le(
                path_models(out@)[a],
                path_models(out@)[b],
            ) by {
                if b < outprev.len() {
                    assert(path_le(path_models(outprev)[a], path_models(outprev)[b]));
                } else {
                    assert(path_le(path_models(outprev)[a], pmod)) by {
                        assert(path_le(path_models(outprev)[a], path_models(w0)[m as int]));
                    }
                }
            }
        }
    }
    proof {
        assert(path_models(work@).to_multiset() =~= Multiset::<PathModel>::empty());
        assert(path_models(out@).to_multiset() =~= path_models(paths@).to_multiset());
    }
    out
}

/// The views of a sequence of strings.
pub open spec fn str_views(s: Seq<String>) -> Seq<Seq<char>> {
    s.map_values(|t: String| t@)
}

fn contains_str(v: &Vec<String>, x: &str) -> (r: bool)
    ensures
        r == str_views(v@).contains(x@),
{
    let mut i: usize = 0;
    while i < v.len()
        invariant
            i <= v@.len(),
            forall|j: int| 0 <= j < i ==> str_views(v@)[j] != x@,
        decreases v@.len() - i,
    {
        if str_eq(v[i].as_str(), x) {
            assert(str_views(v@)[i as int] == x@);
            return true;
        }
        i += 1;
    }
    proof {
        assert(forall|j: int| 0 <= j < str_views(v@).len() ==> str_views(v@)[j] != x@);
    }
    false
}

impl AuditResult {
    fn new(sink: NodeInfo) -> (r: Self)
        ensures
            r.sink@ == sink@,
            r.paths@.len() == 0,
            r.path_count == 0,
            r.summary.critical_count == 0 && r.summary.high_count == 0 && r.summary.medium_count
                == 0 && r.summary.low_count == 0 && r.summary.unique_entry_points == 0
                && r.summary.unique_files == 0,
    {
        AuditResult {
            sink,
            paths: Vec::new(),
            path_count: 0,
            summary: AuditSummary::default(),
        }
    }

    /// Build the summary statistics from the collected paths, in one pass:
    /// per-severity counts, distinct entry-point names, distinct files
    /// across all traces.
    fn compute_summary(&mut self)
        ensures
            final(self).sink == old(self).sink,
            final(self).paths == old(self).paths,
            final(self).path_count == old(self).path_count,
            final(self).summary.critical_count == count_severity(
                path_models(old(self).paths@),
                Severity::Critical,
            ),
            final(self).summary.high_count == count_severity(
                path_models(old(self).paths@),
                Severity::High,
            ),
            final(self).summary.medium_count == count_severity(
                path_models(old(self).paths@),
                Severity::Medium,
            ),
            final(self).summary.low_count == count_severity(
                path_models(old(self).paths@),
                Severity::Low,
            ),
            final(self).summary.unique_entry_points == distinct_count(
                names_of(path_models(old(self).paths@)),
            ),
            final(self).summary.unique_files == distinct_count(
                files_of(path_models(old(self).paths@)),
            ),
    {
        let ghost pm = path_models(self.paths@);
        let n = self.paths.len();
        let mut crit: usize = 0;
        let mut high: usize = 0;
        let mut med: usize = 0;
        let mut low: usize = 0;
        let mut names: Vec<String> = Vec::new();
        let mut files: Vec<String> = Vec::new();
        let mut i: usize = 0;
        proof {
            assert(pm.take(0) =~= Seq::<PathModel>::empty());
            assert(names_of(pm.take(0)) =~= Seq::<Seq<char>>::empty());
            assert(files_of(pm.take(0)) =~= Seq::<Seq<char>>::empty());
            assert(str_views(names@) =~= Seq::<Seq<char>>::empty());
            assert(str_views(files@) =~= Seq::<Seq<char>>::empty());
        }
        while i < n
            invariant
                *self == *old(self),
                pm == path_models(self.paths@),
                n == self.paths@.len(),
                i <= n,
                crit == count_severity(pm.take(i as int), Severity::Critical),
                high == count_severity(pm.take(i as int), Severity::High),
                med == count_severity(pm.take(i as int), Severity::Medium),
                low == count_severity(pm.take(i as int), Severity::Low),
                crit + high + med + low == i,
                names@.len() == distinct_count(names_of(pm.take(i as int))),
                forall|x: Seq<char>|
                    str_views(names@).contains(x) <==> names_of(pm.take(i as int)).contains(x),
                files@.len() == distinct_count(files_of(pm.take(i as int))),
                forall|x: Seq<char>|
                    str_views(files@).contains(x) <==> files_of(pm.take(i as int)).contains(x),
            decreases n - i,
        {
            proof {
                assert(pm.take(i + 1).drop_last() =~= pm.take(i as int));
                assert(pm.take(i + 1).last() == self.paths@[i as int]@);
            }
            let sev = self.paths[i].severity;
            match sev {
                Severity::Critical => {
                    crit += 1;
                },
                Severity::High => {
                    high += 1;
                },
                Severity::Medium => {
                    med += 1;
                },
                Severity::Low => {
                    low += 1;
                },
            }
            proof {
                lemma_names_of_len(pm.take(i + 1));
                lemma_names_of_len(pm.take(i as int));
                assert(names_of(pm.take(i + 1)).drop_last() =~= names_of(pm.take(i as int)));
                assert(names_of(pm.take(i + 1)) =~= names_of(pm.take(i as int)).push(
                    pm.take(i + 1).last().source.name,
                ));
            }
            let nm = self.paths[i].source.name.as_str();
            proof {
                assert(names_of(pm.take(i + 1)) == names_of(pm.take(i as int)).push(nm@));
                lemma_contains_push_all(names_of(pm.take(i as int)), nm@);
            }
            if !contains_str(&names, nm) {
                let ghost prevn = names@;
                names.push(nm.to_owned());
                proof {
                    assert(str_views(names@) =~= str_views(prevn).push(nm@));
                    lemma_contains_push_all(str_views(prevn), nm@);
                    assert forall|x: Seq<char>|
                        str_views(names@).contains(x) <==> names_of(pm.take(i + 1)).contains(
                            x,
                        ) by {
                        assert(str_views(names@).contains(x) == str_views(prevn).push(
                            nm@,
                        ).contains(x));
                    }
                }
            } else {
                proof {
                    assert(str_views(names@).contains(nm@));
                }
            }
            let tn = self.paths[i].trace.len();
            let ghost tv = node_views(self.paths@[i as int].trace@);
            let mut j: usize = 0;
            proof {
                lemma_files_of_trace_len(tv);
                assert(files_of_trace(tv).take(0) =~= Seq::<Seq<char>>::empty());
                assert(files_of(pm.take(i as int)) + files_of_trace(tv).take(0) =~= files_of(
                    pm.take(i as int),
                ));
            }
            while j < tn
                invariant
                    *self == *old(self),
                    pm == path_models(self.paths@),
                    n == self.paths@.len(),
                    i < n,
                    tn == self.paths@[i as int].trace@.len(),
                    tv == node_views(self.paths@[i as int].trace@),
                    j <= tn,
                    files@.len() == distinct_count(
                        files_of(pm.take(i as int)) + files_of_trace(tv).take(j as int),
                    ),
                    forall|x: Seq<char>|
                        str_views(files@).contains(x) <==> (files_of(pm.take(i as int))
                            + files_of_trace(tv).take(j as int)).contains(x),
                decreases tn - j,
            {
                let ghost mid = files_of(pm.take(i as int)) + files_of_trace(tv).take(j as int);
                let ghost mid2 = files_of(pm.take(i as int)) + files_of_trace(tv).take(j + 1);
                proof {
                    lemma_files_of_trace_len(tv);
                    assert(files_of_trace(tv).take(j + 1).drop_last() =~= files_of_trace(
                        tv,
                    ).take(j as int));
                    assert(files_of_trace(tv).take(j + 1) =~= files_of_trace(tv).take(
                        j as int,
                    ).push(tv[j as int].file));
                    assert(mid2.drop_last() =~= mid);
                    assert(mid2.last() == tv[j as int].file);
                    assert(distinct_count(mid2) == distinct_count(mid) + (if mid.contains(
                        tv[j as int].file,
                    ) {
                        0int
                    } else {
                        1int
                    }));
                }
                let fl = self.paths[i].trace[j].file.as_str();
                proof {
                    assert(mid2 == mid.push(fl@));
                    lemma_contains_push_all(mid, fl@);
                }
                if !contains_str(&files, fl) {
                    let ghost prevf = files@;
                    files.push(fl.to_owned());
                    proof {
                        assert(str_views(files@) =~= str_views(prevf).push(fl@));
                        lemma_contains_push_all(str_views(prevf), fl@);
                        assert forall|x: Seq<char>|
                            str_views(files@).contains(x) <==> mid2.contains(x) by {
                            assert(str_views(files@).contains(x) == str_views(prevf).push(
                                fl@,
                            ).contains(x));
                        }
                    }
                } else {
                    proof {
                        assert(str_views(files@).contains(fl@));
                    }
                }
                j += 1;
            }
            proof {
                assert(files_of_trace(tv).take(tn as int) =~= files_of_trace(tv));
                assert(pm.take(i + 1).drop_last() =~= pm.take(i as int));
                assert(files_of(pm.take(i + 1)) =~= files_of(pm.take(i as int)) + files_of_trace(
                    tv,
                ));
            }
            i += 1;
        }
        proof {
            assert(pm.take(n as int) =~= pm);
        }
        self.summary = AuditSummary {
            critical_count: crit,
            high_count: high,
            medium_count: med,
            low_count: low,
            unique_entry_points: names.len(),
            unique_files: files.len(),
        };
    }
}

/// The node snapshots along a raw path, reversed into entry-to-sink order.
pub open spec fn rev_nodes(g: GraphModel, p: Seq<usize>) -> Seq<NodeModel> {
    Seq::new(p.len(), |i: int| g.nodes[p[p.len() - 1 - i] as int])
}

/// The audit path a raw search path becomes: its entry point, its reversed
/// trace, its severity from the trace length, and no uncertainty notes.
pub open spec fn path_model_of(g: GraphModel, p: Seq<usize>) -> PathModel {
    PathModel {
        source: g.nodes[p.last() as int],
        trace: rev_nodes(g, p),
        severity: severity_of(p.len() as nat),
        uncertainty: Seq::empty(),
    }
}

/// Every audit path the search from `sink` produces, in search order.
pub open spec fn audit_paths_of(
    g: GraphModel,
    sink: usize,
    max_depth: nat,
    ignore_tests: bool,
) -> Seq<PathModel> {
    search(g, sink, Seq::empty(), max_depth, ignore_tests).map_values(
        |p: Seq<usize>| path_model_of(g, p),
    )
}

fn build_audit_path(g: &CallGraph, rp: &Vec<usize>) -> (r: AuditPath)
    requires
        g.wf(),
        rp@.len() >= 1,
        forall|i: int| 0 <= i < rp@.len() ==> rp@[i] < g@.nodes.len(),
    ensures
        r@ == path_model_of(g@, rp@),
{
    let n = rp.len();
    let mut trace: Vec<NodeInfo> = Vec::new();
    let mut i: usize = 0;
    proof {
        assert(node_views(trace@) =~= rev_nodes(g@, rp@).take(0));
    }
    while i < n
        invariant
            g.wf(),
            n == rp@.len(),
            n >= 1,
            i <= n,
            forall|k: int| 0 <= k < rp@.len() ==> rp@[k] < g@.nodes.len(),
            node_views(trace@) == rev_nodes(g@, rp@).take(i as int),
        decreases n - i,
    {
        let idx = rp[n - 1 - i];
        let node = g.node_at(idx).clone();
        proof {
            assert(node@ == g@.nodes[idx as int]);
            assert(rev_nodes(g@, rp@)[i as int] == g@.nodes[rp@[n - 1 - i] as int]);
        }
        let ghost prevt = trace@;
        trace.push(node);
        proof {
            assert(node_views(trace@) =~= node_views(prevt).push(node@));
            assert(rev_nodes(g@, rp@).take(i + 1) =~= rev_nodes(g@, rp@).take(i as int).push(
                rev_nodes(g@, rp@)[i as int],
            ));
            assert(node_views(trace@) =~= rev_nodes(g@, rp@).take(i + 1));
        }
        i += 1;
    }
    proof {
        assert(rev_nodes(g@, rp@).take(n as int) =~= rev_nodes(g@, rp@));
    }
    let source = g.node_at(rp[n - 1]).clone();
    let severity = Severity::from_depth(trace.len());
    let r = AuditPath { source, trace, severity, uncertainty: Vec::new() };
    proof {
        assert(r@.uncertainty =~= Seq::<Seq<char>>::empty());
        assert(r@.trace.len() == rp@.len());
    }
    r
}

proof fn lemma_find_by_name_members(nodes: Seq<NodeModel>, name: Seq<char>)
    ensures
        forall|i: int|
            0 <= i < spec_find_by_name(nodes, name).len() ==> (#[trigger] spec_find_by_name(
                nodes,
                name,
            )[i]).name == name && exists|k: int|
                0 <= k < nodes.len() && #[trigger] nodes[k] == spec_find_by_name(nodes, name)[i],
    decreases nodes.len(),
{
    if nodes.len() > 0 {
        lemma_find_by_name_members(nodes.drop_last(), name);
        assert forall|i: int|
            0 <= i < spec_find_by_name(nodes, name).len() implies (#[trigger] spec_find_by_name(
            nodes,
            name,
        )[i]).name == name && exists|k: int|
            0 <= k < nodes.len() && #[trigger] nodes[k] == spec_find_by_name(nodes, name)[i] by {
            let f = spec_find_by_name(nodes, name);
            let fd = spec_find_by_name(nodes.drop_last(), name);
            if i < fd.len() {
                assert(fd[i] == f[i]);
                let k = choose|k: int|
                    0 <= k < nodes.drop_last().len() && #[trigger] nodes.drop_last()[k] == fd[i];
                assert(nodes[k] == f[i]);
            } else {
                assert(f[i] == nodes.last());
                assert(nodes[nodes.len() - 1] == f[i]);
            }
        }
    }
}

/// Run a security audit: find every path from a public entry point back to
/// the named sink, classify each by trace length, and summarize.
///
/// Sink resolution takes the first node returned for the name; a missing
/// name is the one hard failure. A sink with no callers — and, when test
/// files are ignored, one whose callers all lie in test-looking files —
/// yields an empty result: the sink alone is never reported as a path.
pub fn run_audit(graph: &CallGraph, sink_name: &str, config: &AuditConfig) -> (r: Result<
    AuditResult,
    AuditError,
>)
    requires
        graph.wf(),
        config.max_depth >= 1,
    ensures
        match r {
            Err(e) => {
                &&& spec_find_by_name(graph@.nodes, sink_name@).len() == 0
                &&& e matches AuditError::SinkNotFound(n) && n@ == sink_name@
            },
            Ok(res) => {
                let found = spec_find_by_name(graph@.nodes, sink_name@);
                &&& found.len() > 0
                &&& res.sink@ == found[0]
                &&& res.path_count == res.paths@.len()
                &&& sorted_paths(path_models(res.paths@))
                &&& exists|sink: usize|
                    {
                        &&& sink < graph@.nodes.len()
                        &&& graph@.nodes[sink as int].id == found[0].id
                        &&& (forall|j: int|
                            0 <= j < sink ==> (#[trigger] graph@.nodes[j]).id != found[0].id)
                        &&& path_models(res.paths@).to_multiset() == #[trigger] audit_paths_of(
                            graph@,
                            sink,
                            config.max_depth as nat,
                            config.ignore_tests,
                        ).to_multiset()
                    }
                &&& (forall|i: int|
                    0 <= i < res.paths@.len() ==> {
                        let p = (#[trigger] res.paths@[i])@;
                        &&& p.severity == severity_of(p.trace.len() as nat)
                        &&& p.trace.len() >= 2
                        &&& p.uncertainty.len() == 0
                    })
                &&& res.summary.critical_count == count_severity(
                    path_models(res.paths@),
                    Severity::Critical,
                )
                &&& res.summary.high_count == count_severity(
                    path_models(res.paths@),
                    Severity::High,
                )
                &&& res.summary.medium_count == count_severity(
                    path_models(res.paths@),
                    Severity::Medium,
                )
                &&& res.summary.low_count == count_severity(
                    path_models(res.paths@),
                    Severity::Low,
                )
                &&& res.summary.unique_entry_points == distinct_count(
                    names_of(path_models(res.paths@)),
                )
                &&& res.summary.unique_files == distinct_count(files_of(path_models(res.paths@)))
            },
        },
{
    let matches = graph.find_by_name(sink_name);
    let ghost found = spec_find_by_name(graph@.nodes, sink_name@);
    if matches.len() == 0 {
        return Err(AuditError::SinkNotFound(sink_name.to_owned()));
    }
    proof {
        lemma_find_by_name_members(graph@.nodes, sink_name@);
        assert(node_views(matches@)[0] == found[0]);
    }
    let sink_node = matches[0].clone();
    let sink_idx = match graph.get_index(sink_node.id.as_str()) {
        Some(i) => i,
        None => {
            proof {
                let k = choose|k: int|
                    0 <= k < graph@.nodes.len() && #[trigger] graph@.nodes[k] == found[0];
                assert(graph@.nodes[k].id == sink_node.id@);
                assert(false);
            }
            return Err(AuditError::SinkNotFound(sink_name.to_owned()));
        },
    };
    let ghost d = config.max_depth as nat;
    let ghost ig = config.ignore_tests;
    let mut path: Vec<usize> = Vec::new();
    let mut raw: Vec<Vec<usize>> = Vec::new();
    find_paths_to_roots(graph, sink_idx, &mut path, &mut raw, config.max_depth, config.ignore_tests);
    let ghost sr = search(graph@, sink_idx, Seq::empty(), d, ig);
    proof {
        assert(path_views(raw@) =~= sr);
        assert(Seq::<usize>::empty().no_duplicates());
        assert(!Seq::<usize>::empty().contains(sink_idx));
        lemma_search_sound(graph@, sink_idx, Seq::empty(), d, ig);
    }
    let mut paths: Vec<AuditPath> = Vec::new();
    let ghost ap = audit_paths_of(graph@, sink_idx, d, ig);
    let nraw = raw.len();
    let mut i: usize = 0;
    proof {
        assert(path_models(paths@) =~= ap.take(0));
    }
    while i < nraw
        invariant
            graph.wf(),
            nraw == raw@.len(),
            i <= nraw,
            sr == search(graph@, sink_idx, Seq::empty(), d, ig),
            ap == audit_paths_of(graph@, sink_idx, d, ig),
            path_views(raw@) == sr,
            forall|p: Seq<usize>|
                #[trigger] sr.contains(p) ==> p.len() >= 2 && p.no_duplicates() && (forall|k: int|
                    0 <= k < p.len() ==> p[k] < graph@.nodes.len()),
            path_models(paths@) == ap.take(i as int),
        decreases nraw - i,
    {
        proof {
            assert(sr[i as int] == raw@[i as int]@);
            assert(sr.contains(sr[i as int]));
        }
        let apath = build_audit_path(graph, &raw[i]);
        let ghost prevp = paths@;
        paths.push(apath);
        proof {
            assert(ap[i as int] == path_model_of(graph@, sr[i as int]));
            assert(path_models(paths@) =~= path_models(prevp).push(path_model_of(
                graph@,
                sr[i as int],
            )));
            assert(path_models(paths@) =~= ap.take(i + 1));
        }
        i += 1;
    }
    proof {
        assert(ap.take(nraw as int) =~= ap);
    }
    let sorted = sort_paths(paths);
    let count = sorted.len();
    let mut result = AuditResult::new(sink_node);
    result.paths = sorted;
    result.path_count = count;
    result.compute_summary();
    proof {
        assert(path_models(result.paths@).to_multiset() == ap.to_multiset());
        assert forall|i2: int| 0 <= i2 < result.paths@.len() implies {
            let p = (#[trigger] result.paths@[i2])@;
            &&& p.severity == severity_of(p.trace.len() as nat)
            &&& p.trace.len() >= 2
            &&& p.uncertainty.len() == 0
        } by {
            let e = path_models(result.paths@)[i2];
            path_models(result.paths@).to_multiset_ensures();
            ap.to_multiset_ensures();
            assert(path_models(result.paths@)[i2] == e);
            assert(path_models(result.paths@).contains(e));
            assert(ap.to_multiset().count(e) > 0);
            assert(ap.contains(e));
            let k = choose|k: int| 0 <= k < ap.len() && ap[k] == e;
            assert(ap[k] == path_model_of(graph@, sr[k]));
            assert(sr.contains(sr[k]));
            assert(e.trace.len() == sr[k].len());
        }
    }
    Ok(result)
}

} // verus!
