use vstd::prelude::*;

use crate::text::owned;
use super::types::{OpsGraph, OpsList, VarDef, VarInfo};

verus! {

/// The dependencies of each edge of a graph.
pub open spec fn dep_graph(edges: Seq<VarInfo>) -> Seq<Seq<usize>> {
    Seq::new(edges.len(), |i: int| edges[i].deps@)
}

/// Every dependency names an edge of the graph.
pub open spec fn deps_in_range(g: Seq<Seq<usize>>) -> bool {
    forall|i: int, j: int| 0 <= i < g.len() && 0 <= j < g[i].len() ==> #[trigger] g[i][j] < g.len()
}

/// `c` is a cycle of dependencies: each edge depends on the next one and
/// the last edge is the first.
pub open spec fn is_cycle(g: Seq<Seq<usize>>, c: Seq<int>) -> bool {
    &&& c.len() >= 2
    &&& c[0] == c[c.len() - 1]
    &&& forall|i: int| 0 <= i < c.len() - 1 ==> 0 <= #[trigger] c[i] < g.len() && g[c[i]].contains(c[i + 1] as usize)
}

/// Some edges depend on each other in a circle.
pub open spec fn has_cycle(g: Seq<Seq<usize>>) -> bool {
    exists|c: Seq<int>| is_cycle(g, c)
}

/// The edge `x` appears in `perm` before position `k`.
pub open spec fn listed_before(perm: Seq<int>, k: int, x: int) -> bool {
    exists|k2: int| 0 <= k2 < k && perm[k2] == x
}

/// `perm` lists edges of `g` without repetition, each after all the edges
/// it depends on.
pub open spec fn dependency_ordered(g: Seq<Seq<usize>>, perm: Seq<int>) -> bool {
    &&& forall|k: int| 0 <= k < perm.len() ==> 0 <= #[trigger] perm[k] < g.len()
    &&& forall|a: int, b: int| 0 <= a < b < perm.len() ==> perm[a] != perm[b]
    &&& forall|k: int, d: int|
        0 <= k < perm.len() && 0 <= d < g[perm[k]].len() ==> #[trigger] listed_before(perm, k, g[perm[k]][d] as int)
}

/// `perm` lists every edge once, each after all the edges it depends on.
pub open spec fn is_topological(g: Seq<Seq<usize>>, perm: Seq<int>) -> bool {
    &&& perm.len() == g.len()
    &&& dependency_ordered(g, perm)
}

/// `stack` is a path along dependencies.
pub open spec fn dependency_path(g: Seq<Seq<usize>>, stack: Seq<int>) -> bool {
    forall|k: int| 0 <= k < stack.len() - 1 ==> g[#[trigger] stack[k]].contains(stack[k + 1] as usize)
}

/// The operations `ops` are those of `edges`, in the order `perm`.
pub open spec fn ops_in_order(edges: Seq<VarInfo>, perm: Seq<int>, ops: Seq<(usize, VarDef)>) -> bool {
    &&& ops.len() == perm.len()
    &&& forall|k: int|
        0 <= k < ops.len() ==> #[trigger] ops[k].0 == edges[perm[k]].address && ops[k].1 == edges[perm[k]].def
}

enum VisitState {
    /// The address, the dependencies and the definition of an edge that
    /// has not been visited yet.
    NotVisited(usize, Vec<usize>, VarDef),
    InProgress,
    Visited,
}

struct Visitor {
    edges: Vec<VisitState>,
    sorted: Vec<(usize, VarDef)>,
}

spec fn not_visited(states: Seq<VisitState>) -> nat
    decreases states.len(),
{
    if states.len() == 0 {
        0
    } else {
        not_visited(states.drop_last()) + if states.last() is NotVisited {
            1nat
        } else {
            0nat
        }
    }
}

proof fn lemma_not_visited_update(states: Seq<VisitState>, i: int, s: VisitState)
    requires
        0 <= i < states.len(),
    ensures
        not_visited(states.update(i, s)) + (if states[i] is NotVisited {
            1nat
        } else {
            0nat
        }) == not_visited(states) + (if s is NotVisited {
            1nat
        } else {
            0nat
        }),
    decreases states.len(),
{
    if i < states.len() - 1 {
        assert(states.update(i, s).drop_last() == states.drop_last().update(i, s));
        lemma_not_visited_update(states.drop_last(), i, s);
    } else {
        assert(states.update(i, s).drop_last() == states.drop_last());
    }
}

/// The visitor's states agree with the original edges, the sorted
/// operations are those of the visited edges in topological order,
/// and the in-progress edges are exactly those on `stack`.
spec fn visit_inv(states: Seq<VisitState>, sorted: Seq<(usize, VarDef)>, orig: Seq<VarInfo>, perm: Seq<int>, stack: Seq<int>) -> bool {
    let g = dep_graph(orig);
    &&& states.len() == orig.len()
    &&& deps_in_range(g)
    &&& forall|i: int|
        0 <= i < orig.len() ==> match #[trigger] states[i] {
            VisitState::NotVisited(a, d, def) => a == orig[i].address && d@ == orig[i].deps@ && def == orig[i].def,
            VisitState::InProgress => stack.contains(i),
            VisitState::Visited => perm.contains(i),
        }
    &&& forall|k: int| 0 <= k < stack.len() ==> 0 <= #[trigger] stack[k] < orig.len() && states[stack[k]] is InProgress
    &&& dependency_path(g, stack)
    &&& forall|k: int| 0 <= k < perm.len() ==> 0 <= #[trigger] perm[k] < orig.len() && states[perm[k]] is Visited
    &&& dependency_ordered(g, perm)
    &&& ops_in_order(orig, perm, sorted)
}


proof fn lemma_cycle_found(g: Seq<Seq<usize>>, stack: Seq<int>, edge: int)
    requires
        dependency_path(g, stack),
        forall|k: int| 0 <= k < stack.len() ==> 0 <= #[trigger] stack[k] < g.len(),
        stack.contains(edge),
        stack.len() > 0 ==> g[stack.last()].contains(edge as usize),
        0 <= edge <= usize::MAX,
    ensures
        has_cycle(g),
{
    let idx = choose|k: int| 0 <= k < stack.len() && stack[k] == edge;
    let c = stack.subrange(idx, stack.len() as int).push(edge);
    assert forall|i: int| 0 <= i < c.len() - 1 implies 0 <= #[trigger] c[i] < g.len() && g[c[i]].contains(
        c[i + 1] as usize,
    ) by {
        assert(c[i] == stack[idx + i]);
        if i < c.len() - 2 {
            assert(c[i + 1] == stack[idx + i + 1]);
        }
    }
    assert(is_cycle(g, c));
}

proof fn lemma_enter(
    s0: Seq<VisitState>,
    s1: Seq<VisitState>,
    sorted: Seq<(usize, VarDef)>,
    orig: Seq<VarInfo>,
    perm: Seq<int>,
    stack: Seq<int>,
    edge: int,
)
    requires
        visit_inv(s0, sorted, orig, perm, stack),
        0 <= edge < orig.len(),
        s0[edge] is NotVisited,
        s1 == s0.update(edge, VisitState::InProgress),
        stack.len() > 0 ==> dep_graph(orig)[stack.last()].contains(edge as usize),
        edge <= usize::MAX,
    ensures
        visit_inv(s1, sorted, orig, perm, stack.push(edge)),
{
    let stack2 = stack.push(edge);
    assert(stack2[stack.len() as int] == edge);
    assert forall|i: int| 0 <= i < orig.len() implies match #[trigger] s1[i] {
        VisitState::NotVisited(a, d, def) => a == orig[i].address && d@ == orig[i].deps@ && def == orig[i].def,
        VisitState::InProgress => stack2.contains(i),
        VisitState::Visited => perm.contains(i),
    } by {
        if i != edge {
            match s0[i] {
                VisitState::InProgress => {
                    let w = choose|w: int| 0 <= w < stack.len() && stack[w] == i;
                    assert(stack2[w] == i);
                },
                _ => {},
            }
        }
    }
    assert forall|k: int| 0 <= k < perm.len() implies 0 <= #[trigger] perm[k] < orig.len() && s1[perm[k]] is Visited by {
        assert(s0[perm[k]] is Visited);
    }
    assert(dependency_path(dep_graph(orig), stack2)) by {
        assert forall|k: int| 0 <= k < stack2.len() - 1 implies dep_graph(orig)[#[trigger] stack2[k]].contains(
            stack2[k + 1] as usize,
        ) by {
            if k < stack.len() - 1 {
                assert(stack2[k + 1] == stack[k + 1]);
            }
        }
    }
}

proof fn lemma_leave(
    s0: Seq<VisitState>,
    s1: Seq<VisitState>,
    sorted0: Seq<(usize, VarDef)>,
    sorted1: Seq<(usize, VarDef)>,
    orig: Seq<VarInfo>,
    p: Seq<int>,
    stack: Seq<int>,
    edge: int,
)
    requires
        visit_inv(s0, sorted0, orig, p, stack.push(edge)),
        0 <= edge < orig.len(),
        s0[edge] is InProgress,
        s1 == s0.update(edge, VisitState::Visited),
        sorted1 == sorted0.push((orig[edge].address, orig[edge].def)),
        forall|d: int| 0 <= d < orig[edge].deps@.len() ==> p.contains(#[trigger] orig[edge].deps@[d] as int),
        !stack.contains(edge),
    ensures
        visit_inv(s1, sorted1, orig, p.push(edge), stack),
{
    let g = dep_graph(orig);
    let p_new = p.push(edge);
    let stack2 = stack.push(edge);
    assert(!p.contains(edge)) by {
        if p.contains(edge) {
            let w = choose|w: int| 0 <= w < p.len() && p[w] == edge;
            assert(s0[p[w]] is Visited);
        }
    }
    assert forall|k: int, d: int|
        0 <= k < p_new.len() && 0 <= d < g[p_new[k]].len() implies #[trigger] listed_before(
        p_new,
        k,
        g[p_new[k]][d] as int,
    ) by {
        if k < p.len() {
            assert(listed_before(p, k, g[p[k]][d] as int));
            let w = choose|w: int| 0 <= w < k && p[w] == g[p[k]][d] as int;
            assert(p_new[w] == p[w]);
        } else {
            assert(p.contains(orig[edge].deps@[d] as int));
            let w = choose|w: int| 0 <= w < p.len() && p[w] == orig[edge].deps@[d] as int;
            assert(p_new[w] == p[w]);
        }
    }
    assert forall|i: int| 0 <= i < orig.len() implies match #[trigger] s1[i] {
        VisitState::NotVisited(a, d, def) => a == orig[i].address && d@ == orig[i].deps@ && def == orig[i].def,
        VisitState::InProgress => stack.contains(i),
        VisitState::Visited => p_new.contains(i),
    } by {
        if i == edge {
            assert(p_new[p.len() as int] == i);
        } else {
            match s0[i] {
                VisitState::InProgress => {
                    let w = choose|w: int| 0 <= w < stack2.len() && stack2[w] == i;
                    assert(w < stack.len());
                    assert(stack[w] == i);
                },
                VisitState::Visited => {
                    let w = choose|w: int| 0 <= w < p.len() && p[w] == i;
                    assert(p_new[w] == i);
                },
                _ => {},
            }
        }
    }
    assert forall|k: int| 0 <= k < stack.len() implies 0 <= #[trigger] stack[k] < orig.len() && s1[stack[k]] is InProgress by {
        assert(stack2[k] == stack[k]);
        if stack[k] == edge {
            assert(stack.contains(edge));
        }
    }
    assert forall|k: int| 0 <= k < stack.len() - 1 implies g[#[trigger] stack[k]].contains(stack[k + 1] as usize) by {
        assert(stack2[k] == stack[k]);
        assert(stack2[k + 1] == stack[k + 1]);
    }
    assert forall|k: int| 0 <= k < p_new.len() implies 0 <= #[trigger] p_new[k] < orig.len() && s1[p_new[k]] is Visited by {
        if k < p.len() {
            assert(s0[p[k]] is Visited);
        }
    }
    assert(ops_in_order(orig, p_new, sorted1));
}

impl Visitor {
    spec fn inv(&self, orig: Seq<VarInfo>, perm: Seq<int>, stack: Seq<int>) -> bool {
        visit_inv(self.edges@, self.sorted@, orig, perm, stack)
    }

    /// Visits an edge and, first, everything it depends on.
    #[verifier::spinoff_prover]
    #[verifier::rlimit(100)]
    fn visit(&mut self, edge: usize, Ghost(orig): Ghost<Seq<VarInfo>>, Ghost(perm): Ghost<Seq<int>>, Ghost(stack): Ghost<Seq<int>>) -> (r: Result<Ghost<Seq<int>>, ()>)
        requires
            old(self).inv(orig, perm, stack),
            edge < orig.len(),
            stack.len() > 0 ==> dep_graph(orig)[stack.last()].contains(edge),
        ensures
            r is Err ==> has_cycle(dep_graph(orig)),
            r matches Ok(p) ==> {
                &&& final(self).inv(orig, p@, stack)
                &&& p@.len() >= perm.len()
                &&& p@.take(perm.len() as int) == perm
                &&& p@.contains(edge as int)
                &&& not_visited(final(self).edges@) <= not_visited(old(self).edges@)
            },
        decreases not_visited(old(self).edges@),
    {
        let ghost g = dep_graph(orig);
        match self.edges[edge] {
            VisitState::NotVisited(_, _, _) => {},
            VisitState::InProgress => {
                proof {
                    lemma_cycle_found(g, stack, edge as int);
                }
                return Err(());
            },
            VisitState::Visited => {
                return Ok(Ghost(perm));
            },
        }
        let mut state = VisitState::InProgress;
        std::mem::swap(&mut state, &mut self.edges[edge]);
        let (address, deps, def) = match state {
            VisitState::NotVisited(a, d, df) => (a, d, df),
            _ => {
                return Err(());
            },
        };
        let ghost stack2 = stack.push(edge as int);
        proof {
            lemma_not_visited_update(old(self).edges@, edge as int, VisitState::InProgress);
            lemma_enter(old(self).edges@, self.edges@, self.sorted@, orig, perm, stack, edge as int);
        }
        let ghost mut p = perm;
        let mut i: usize = 0;
        while i < deps.len()
            invariant
                self.inv(orig, p, stack2),
                edge < orig.len(),
                stack2 == stack.push(edge as int),
                deps@ == g[edge as int],
                g == dep_graph(orig),
                i <= deps@.len(),
                p.len() >= perm.len(),
                p.take(perm.len() as int) == perm,
                not_visited(self.edges@) < not_visited(old(self).edges@),
                forall|d: int| 0 <= d < i ==> p.contains(#[trigger] deps@[d] as int),
            decreases deps.len() - i,
        {
            let ghost before = self.edges@;
            match self.visit(deps[i], Ghost(orig), Ghost(p), Ghost(stack2)) {
                Ok(p2) => {
                    proof {
                        assert forall|d: int| 0 <= d < i implies p2@.contains(#[trigger] deps@[d] as int) by {
                            assert(p.contains(deps@[d] as int));
                            let w = choose|w: int| 0 <= w < p.len() && p[w] == deps@[d] as int;
                            assert(p2@[w] == p2@.take(p.len() as int)[w]);
                        }
                        assert(p2@.take(perm.len() as int) == p2@.take(p.len() as int).take(perm.len() as int));
                        p = p2@;
                    }
                },
                Err(()) => {
                    return Err(());
                },
            }
            i = i + 1;
        }
        let ghost before_done = self.edges@;
        let ghost old_sorted = self.sorted@;
        assert(before_done[edge as int] is InProgress);
        self.edges[edge] = VisitState::Visited;
        self.sorted.push((address, def));
        let ghost p_new = p.push(edge as int);
        proof {
            lemma_not_visited_update(before_done, edge as int, VisitState::Visited);
            lemma_leave(before_done, self.edges@, old_sorted, self.sorted@, orig, p, stack, edge as int);
            assert(p_new.take(perm.len() as int) == p.take(perm.len() as int));
            assert(p_new[p.len() as int] == edge as int);
        }
        Ok(Ghost(p_new))
    }
}

impl Visitor {
    /// A visitor that has visited nothing yet.
    fn new(edges: Vec<VarInfo>, Ghost(orig): Ghost<Seq<VarInfo>>) -> (r: Visitor)
        requires
            edges@ == orig,
            deps_in_range(dep_graph(orig)),
        ensures
            r.inv(orig, Seq::empty(), Seq::empty()),
    {
        let len = edges.len();
        let mut edges = edges;
        let mut rev: Vec<VarInfo> = Vec::new();
        while edges.len() > 0
            invariant
                edges@ == orig.take(edges@.len() as int),
                edges@.len() + rev@.len() == orig.len(),
                forall|p: int| 0 <= p < rev@.len() ==> #[trigger] rev@[p] == orig[orig.len() - 1 - p],
            decreases edges.len(),
        {
            let e = edges.pop().unwrap();
            rev.push(e);
            assert(edges@ == orig.take(edges@.len() as int));
        }
        let mut states: Vec<VisitState> = Vec::new();
        while rev.len() > 0
            invariant
                rev@.len() + states@.len() == orig.len(),
                forall|p: int| 0 <= p < rev@.len() ==> #[trigger] rev@[p] == orig[orig.len() - 1 - p],
                forall|i: int|
                    0 <= i < states@.len() ==> match #[trigger] states@[i] {
                        VisitState::NotVisited(a, d, def) => a == orig[i].address && d@ == orig[i].deps@ && def
                            == orig[i].def,
                        _ => false,
                    },
            decreases rev.len(),
        {
            let VarInfo { name: _, address, def, deps, len: _ } = rev.pop().unwrap();
            states.push(VisitState::NotVisited(address, deps, def));
        }
        Visitor { edges: states, sorted: Vec::with_capacity(len) }
    }
}

proof fn lemma_topological_acyclic(g: Seq<Seq<usize>>, perm: Seq<int>, c: Seq<int>)
    requires
        is_topological(g, perm),
        g.len() <= usize::MAX,
    ensures
        !is_cycle(g, c),
{
    if !is_cycle(g, c) {
        return;
    }
    let pos = |x: int| choose|k: int| 0 <= k < perm.len() && perm[k] == x;
    assert forall|x: int| 0 <= x < g.len() implies 0 <= #[trigger] pos(x) < perm.len() && perm[pos(x)] == x by {
        let s = perm.to_set();
        assert(perm.no_duplicates()) by {
            assert forall|a: int, b: int| 0 <= a < perm.len() && 0 <= b < perm.len() && a != b implies perm[a] != perm[b] by {
                if a < b {
                } else {
                }
            }
        }
        perm.unique_seq_to_set();
        vstd::set_lib::lemma_int_range(0, g.len() as int);
        assert(s.subset_of(vstd::set_lib::set_int_range(0, g.len() as int)));
        if !s.contains(x) {
            vstd::set_lib::lemma_len_subset(s.insert(x), vstd::set_lib::set_int_range(0, g.len() as int));
        }
        assert(s.contains(x));
        assert(perm.contains(x));
    }
    // Along the cycle, positions strictly decrease.
    assert forall|i: int| 0 <= i < c.len() - 1 implies pos(c[i + 1]) < #[trigger] pos(c[i]) by {
        assert(0 <= c[i] < g.len() && g[c[i]].contains(c[i + 1] as usize));
        let d = choose|d: int| 0 <= d < g[c[i]].len() && g[c[i]][d] == c[i + 1] as usize;
        let k = pos(c[i]);
        assert(0 <= d < g[perm[k]].len());
        assert(listed_before(perm, k, g[perm[k]][d] as int));
        let k2 = choose|k2: int| 0 <= k2 < k && perm[k2] == g[perm[k]][d] as int;
        assert(0 <= c[i + 1] < g.len()) by {
            if i + 1 < c.len() - 1 {
                assert(0 <= c[i + 1] < g.len());
            } else {
                assert(0 <= c[0] < g.len());
            }
        }
        assert(0 <= pos(c[i + 1]) < perm.len() && perm[pos(c[i + 1])] == c[i + 1]);
        assert(pos(c[i + 1]) == k2) by {
            if pos(c[i + 1]) != k2 {
                if pos(c[i + 1]) < k2 {
                } else {
                }
            }
        }
    }
    lemma_decreasing(c, pos, c.len() - 1);
}

proof fn lemma_decreasing(c: Seq<int>, pos: spec_fn(int) -> int, j: int)
    requires
        1 <= j < c.len(),
        forall|i: int| 0 <= i < c.len() - 1 ==> pos(c[i + 1]) < #[trigger] pos(c[i]),
    ensures
        pos(c[j]) < pos(c[0]),
    decreases j,
{
    if j > 1 {
        lemma_decreasing(c, pos, j - 1);
        assert(pos(c[(j - 1) + 1]) < pos(c[j - 1]));
    } else {
        assert(pos(c[1]) < pos(c[0]));
    }
}

/// Orders the operations of a graph so that every variable is computed
/// after the variables it depends on, or reports a circular dependency.
pub fn sort_graph(graph: OpsGraph) -> (r: Result<OpsList, String>)
    requires
        deps_in_range(dep_graph(graph.edges@)),
    ensures
        r is Err <==> has_cycle(dep_graph(graph.edges@)),
        r matches Err(e) ==> e@ == "Circular dependency in variables."@,
        r matches Ok(l) ==> {
            &&& l.mem_size == graph.mem_size
            &&& l.inputs == graph.inputs
            &&& l.outputs == graph.outputs
            &&& l.mems == graph.mems
            &&& l.mem_ops == graph.mem_ops
            &&& exists|perm: Seq<int>|
                is_topological(dep_graph(graph.edges@), perm) && ops_in_order(graph.edges@, perm, l.ops@)
        },
{
    let ghost orig = graph.edges@;
    let ghost g = dep_graph(orig);
    let len = graph.edges.len();
    let OpsGraph { mem_size, inputs, outputs, mems, edges, mem_ops } = graph;
    let mut visitor = Visitor::new(edges, Ghost(orig));
    let ghost mut p: Seq<int> = Seq::empty();
    let mut id: usize = 0;
    while id < len
        invariant
            len == orig.len(),
            orig == graph.edges@,
            g == dep_graph(orig),
            id <= len,
            visitor.inv(orig, p, Seq::empty()),
            forall|j: int| 0 <= j < id ==> #[trigger] p.contains(j),
        decreases len - id,
    {
        match visitor.visit(id, Ghost(orig), Ghost(p), Ghost(Seq::empty())) {
            Ok(p2) => {
                proof {
                    assert forall|j: int| 0 <= j < id + 1 implies p2@.contains(j) by {
                        if j < id {
                            assert(p.contains(j));
                            let w = choose|w: int| 0 <= w < p.len() && p[w] == j;
                            assert(p2@[w] == p2@.take(p.len() as int)[w]);
                        }
                    }
                    p = p2@;
                }
            },
            Err(()) => {
                assert(has_cycle(dep_graph(orig)));
                return Err(owned("Circular dependency in variables."));
            },
        }
        id = id + 1;
    }
    proof {
        assert(p.no_duplicates()) by {
            assert forall|a: int, b: int| 0 <= a < p.len() && 0 <= b < p.len() && a != b implies p[a] != p[b] by {
                if a < b {
                } else {
                }
            }
        }
        p.unique_seq_to_set();
        vstd::set_lib::lemma_int_range(0, len as int);
        assert(p.to_set() =~= vstd::set_lib::set_int_range(0, len as int));
        assert(is_topological(g, p));
        assert(ops_in_order(orig, p, visitor.sorted@));
        if has_cycle(g) {
            let c = choose|c: Seq<int>| is_cycle(g, c);
            lemma_topological_acyclic(g, p, c);
        }
        assert(!has_cycle(g));
    }
    Ok(OpsList { mem_size, inputs, outputs, mems, ops: visitor.sorted, mem_ops })
}

} // verus!
