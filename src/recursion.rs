//! The recursion checker: reports every call edge that lies on a cycle.
use vstd::prelude::*;
use crate::callgraph::{CallGraph, build_call_graph, callees, calls, lemma_callees_are_functions};
use crate::model::{ItemKind, ProgramModel};

verus! {

/// A call from `caller` to `callee` through which `caller` can reach itself.
#[derive(Clone, Copy, Debug, PartialEq, Eq, Structural)]
pub struct Recursion {
    pub callee: usize,
    pub caller: usize,
}

/// `p` is a chain of calls: each entry calls the next.
pub open spec fn is_call_path(m: &ProgramModel, p: Seq<usize>) -> bool {
    &&& p.len() >= 1
    &&& forall|i: int| 0 <= i < p.len() - 1 ==> #[trigger] calls(m, p[i], p[i + 1])
}

/// `b` is reachable from `a` by zero or more calls.
pub open spec fn reaches(m: &ProgramModel, a: usize, b: usize) -> bool {
    exists|p: Seq<usize>| is_call_path(m, p) && p[0] == a && p.last() == b
}

/// The violations among the calls `s` made by `a`, in the order of `s`.
pub open spec fn edge_violations(m: &ProgramModel, a: usize, s: Seq<usize>) -> Seq<Recursion>
    decreases s.len(),
{
    if s.len() == 0 {
        seq![]
    } else {
        let prev = edge_violations(m, a, s.drop_last());
        if reaches(m, s.last(), a) {
            prev.push(Recursion { callee: s.last(), caller: a })
        } else {
            prev
        }
    }
}

/// The violations of the callers `0 .. k`, by caller, then in call order.
pub open spec fn violations_upto(m: &ProgramModel, k: int) -> Seq<Recursion>
    decreases k,
{
    if k <= 0 {
        seq![]
    } else {
        violations_upto(m, k - 1) + edge_violations(m, (k - 1) as usize, callees(m, k - 1))
    }
}

/// Every call edge of the unit that lies on a cycle.
pub open spec fn recursion_violations(m: &ProgramModel) -> Seq<Recursion> {
    violations_upto(m, m.items@.len() as int)
}

/// The outcome of the recursion check.
pub open spec fn recursion_outcome(m: &ProgramModel) -> Result<(), Seq<Recursion>> {
    if recursion_violations(m).len() == 0 {
        Ok(())
    } else {
        Err(recursion_violations(m))
    }
}

pub proof fn lemma_reaches_self(m: &ProgramModel, a: usize)
    ensures
        reaches(m, a, a),
{
    let p = seq![a];
    assert(is_call_path(m, p));
    assert(is_call_path(m, p) && p[0] == a && p.last() == a);
}

pub proof fn lemma_reaches_extend(m: &ProgramModel, a: usize, b: usize, c: usize)
    requires
        reaches(m, a, b),
        calls(m, b, c),
    ensures
        reaches(m, a, c),
{
    let p = choose|p: Seq<usize>| is_call_path(m, p) && p[0] == a && p.last() == b;
    let q = p.push(c);
    assert forall|i: int| 0 <= i < q.len() - 1 implies #[trigger] calls(m, q[i], q[i + 1]) by {
        if i < p.len() - 1 {
            assert(q[i] == p[i] && q[i + 1] == p[i + 1]);
        }
    }
    assert(is_call_path(m, q));
    assert(is_call_path(m, q) && q[0] == a && q.last() == c);
}

/// A set of nodes that holds `a` and is closed under calls holds every node
/// reachable from `a`.
proof fn lemma_closed_holds_reachable(m: &ProgramModel, vis: Seq<bool>, a: usize, b: usize)
    requires
        0 <= a < vis.len(),
        vis[a as int],
        forall|v: usize, c: usize|
            0 <= v < vis.len() && vis[v as int] && #[trigger] calls(m, v, c) ==> c < vis.len()
                && vis[c as int],
        reaches(m, a, b),
    ensures
        b < vis.len() && vis[b as int],
{
    let p = choose|p: Seq<usize>| is_call_path(m, p) && p[0] == a && p.last() == b;
    lemma_closed_holds_path(m, vis, p, p.len() - 1);
}

proof fn lemma_closed_holds_path(m: &ProgramModel, vis: Seq<bool>, p: Seq<usize>, i: int)
    requires
        is_call_path(m, p),
        0 <= i < p.len(),
        p[0] < vis.len() && vis[p[0] as int],
        forall|v: usize, c: usize|
            0 <= v < vis.len() && vis[v as int] && #[trigger] calls(m, v, c) ==> c < vis.len()
                && vis[c as int],
    ensures
        p[i] < vis.len() && vis[p[i] as int],
    decreases i,
{
    if i > 0 {
        lemma_closed_holds_path(m, vis, p, i - 1);
        assert(calls(m, p[i - 1], p[(i - 1) + 1]));
    }
}

/// The number of set flags.
pub open spec fn count_set(s: Seq<bool>) -> nat
    decreases s.len(),
{
    if s.len() == 0 {
        0
    } else {
        count_set(s.drop_last()) + if s.last() {
            1nat
        } else {
            0nat
        }
    }
}

proof fn lemma_count_set_bound(s: Seq<bool>)
    ensures
        count_set(s) <= s.len(),
    decreases s.len(),
{
    if s.len() > 0 {
        lemma_count_set_bound(s.drop_last());
    }
}

proof fn lemma_count_set_update(s: Seq<bool>, i: int)
    requires
        0 <= i < s.len(),
        !s[i],
    ensures
        count_set(s.update(i, true)) == count_set(s) + 1,
    decreases s.len(),
{
    let t = s.update(i, true);
    if i == s.len() - 1 {
        assert(t.drop_last() =~= s.drop_last());
    } else {
        assert(t.drop_last() =~= s.drop_last().update(i, true));
        lemma_count_set_update(s.drop_last(), i);
    }
}

/// Decides whether `to` is reachable from `from`, by a breadth-first walk.
pub fn reachable(m: &ProgramModel, g: &CallGraph, from: usize, to: usize) -> (r: bool)
    requires
        g.of_model(m),
        from < m.items@.len(),
    ensures
        r == reaches(m, from, to),
{
    let n = g.succ.len();
    let mut visited: Vec<bool> = Vec::new();
    let mut i: usize = 0;
    while i < n
        invariant
            i <= n,
            visited@.len() == i,
            forall|j: int| 0 <= j < i ==> !visited@[j],
        decreases n - i,
    {
        visited.push(false);
        i += 1;
    }
    proof {
        assert(count_set(visited@) == 0) by {
            lemma_count_zero(visited@);
        }
        lemma_count_set_update(visited@, from as int);
        lemma_reaches_self(m, from);
    }
    visited.set(from, true);
    let mut queue: Vec<usize> = Vec::new();
    queue.push(from);
    proof {
        assert forall|v: int| 0 <= v < n && #[trigger] visited@[v] implies queue@.contains(v as usize) by {
            if visited@[v] {
                assert(queue@[0] == from);
            }
        }
    }
    let mut head: usize = 0;
    while head < queue.len()
        invariant
            g.of_model(m),
            n == m.items@.len(),
            visited@.len() == n,
            queue@.len() == count_set(visited@),
            head <= queue@.len(),
            from < n,
            visited@[from as int],
            forall|j: int| 0 <= j < queue@.len() ==> #[trigger] queue@[j] < n && visited@[queue@[j] as int],
            forall|v: int| 0 <= v < n && #[trigger] visited@[v] ==> queue@.contains(v as usize),
            forall|v: int| 0 <= v < n && #[trigger] visited@[v] ==> reaches(m, from, v as usize),
            forall|j: int, c: usize|
                0 <= j < head && #[trigger] calls(m, queue@[j], c) ==> c < n && visited@[c as int],
        decreases n - head,
    {
        proof {
            lemma_count_set_bound(visited@);
        }
        let v = queue[head];
        let succ = &g.succ[v];
        proof {
            assert(succ@ == callees(m, v as int));
            lemma_callees_fns(m, v as int);
        }
        let ghost queue0 = queue@;
        let mut k: usize = 0;
        while k < succ.len()
            invariant
                g.of_model(m),
                n == m.items@.len(),
                succ@ == callees(m, v as int),
                forall|j: int| 0 <= j < succ@.len() ==> #[trigger] succ@[j] < n,
                visited@.len() == n,
                queue@.len() == count_set(visited@),
                head < queue@.len(),
                queue@[head as int] == v,
                queue0.len() <= queue@.len(),
                forall|j: int| 0 <= j < queue0.len() ==> queue@[j] == #[trigger] queue0[j],
                from < n,
                visited@[from as int],
                reaches(m, from, v),
                k <= succ@.len(),
                forall|j: int| 0 <= j < queue@.len() ==> #[trigger] queue@[j] < n && visited@[queue@[j] as int],
                forall|x: int| 0 <= x < n && #[trigger] visited@[x] ==> queue@.contains(x as usize),
                forall|x: int| 0 <= x < n && #[trigger] visited@[x] ==> reaches(m, from, x as usize),
                forall|j: int, c: usize|
                    0 <= j < head && #[trigger] calls(m, queue0[j], c) ==> c < n && visited@[c as int],
                forall|j: int| 0 <= j < k ==> visited@[#[trigger] succ@[j] as int],
            decreases succ@.len() - k,
        {
            let c = succ[k];
            if !visited[c] {
                proof {
                    lemma_count_set_update(visited@, c as int);
                    assert(calls(m, v, c));
                    lemma_reaches_extend(m, from, v, c);
                }
                let ghost old_visited = visited@;
                let ghost old_queue = queue@;
                visited.set(c, true);
                queue.push(c);
                proof {
                    assert forall|x: int| 0 <= x < n && #[trigger] visited@[x] implies queue@.contains(x as usize) by {
                        if x != c as int {
                            assert(old_visited[x]);
                            assert(old_queue.contains(x as usize));
                            let w = choose|w: int| 0 <= w < old_queue.len() && old_queue[w] == x as usize;
                            assert(queue@[w] == x as usize);
                        } else {
                            assert(queue@[queue@.len() - 1] == c);
                        }
                    }
                }
            }
            k += 1;
        }
        proof {
            assert forall|j: int, c: usize|
                0 <= j < head + 1 && #[trigger] calls(m, queue@[j], c) implies c < n && visited@[c as int] by {
                if j < head {
                    assert(queue@[j] == queue0[j]);
                    assert(calls(m, queue0[j], c));
                } else {
                    assert(succ@.contains(c));
                    let w = choose|w: int| 0 <= w < succ@.len() && succ@[w] == c;
                    assert(visited@[succ@[w] as int]);
                }
            }
        }
        head += 1;
    }
    proof {
        assert forall|x: usize, c: usize|
            0 <= x < visited@.len() && visited@[x as int] && #[trigger] calls(m, x, c) implies c < visited@.len()
                && visited@[c as int] by {
            assert(queue@.contains(x));
            let w = choose|w: int| 0 <= w < queue@.len() && queue@[w] == x;
            assert(calls(m, queue@[w], c));
        }
        if reaches(m, from, to) {
            lemma_closed_holds_reachable(m, visited@, from, to);
        }
    }
    to < n && visited[to]
}

/// Reports every edge of `g` that lies on a cycle, by caller, then in call order.
pub fn recursions_in(m: &ProgramModel, g: &CallGraph) -> (r: Vec<Recursion>)
    requires
        g.of_model(m),
    ensures
        r@ == recursion_violations(m),
{
    let mut out: Vec<Recursion> = Vec::new();
    let n = g.succ.len();
    let mut a: usize = 0;
    while a < n
        invariant
            g.of_model(m),
            n == m.items@.len(),
            a <= n,
            out@ == violations_upto(m, a as int),
        decreases n - a,
    {
        let succ = &g.succ[a];
        proof {
            assert(succ@ == callees(m, a as int));
            lemma_callees_fns(m, a as int);
        }
        let mut k: usize = 0;
        while k < succ.len()
            invariant
                g.of_model(m),
                n == m.items@.len(),
                a < n,
                succ@ == callees(m, a as int),
                forall|j: int| 0 <= j < succ@.len() ==> #[trigger] succ@[j] < n,
                k <= succ@.len(),
                out@ == violations_upto(m, a as int) + edge_violations(m, a, succ@.take(k as int)),
            decreases succ@.len() - k,
        {
            let b = succ[k];
            proof {
                assert(succ@.take(k as int + 1).drop_last() =~= succ@.take(k as int));
                assert(succ@.take(k as int + 1).last() == b);
            }
            if reachable(m, g, b, a) {
                out.push(Recursion { callee: b, caller: a });
                proof {
                    assert(out@ =~= violations_upto(m, a as int) + edge_violations(
                        m,
                        a,
                        succ@.take(k as int + 1),
                    ));
                }
            }
            k += 1;
        }
        proof {
            assert(succ@.take(succ@.len() as int) =~= succ@);
        }
        a += 1;
    }
    out
}

/// Checks that no function of the unit can call itself, directly or through
/// other functions. Every offending call edge is reported.
pub fn no_recursion(m: &ProgramModel) -> (r: Result<(), Vec<Recursion>>)
    ensures
        match r {
            Ok(()) => recursion_outcome(m) is Ok,
            Err(v) => recursion_outcome(m) == Err::<(), Seq<Recursion>>(v@),
        },
{
    let g = build_call_graph(m);
    let found = recursions_in(m, &g);
    if found.len() == 0 {
        Ok(())
    } else {
        Err(found)
    }
}

proof fn lemma_count_zero(s: Seq<bool>)
    requires
        forall|j: int| 0 <= j < s.len() ==> !s[j],
    ensures
        count_set(s) == 0,
    decreases s.len(),
{
    if s.len() > 0 {
        lemma_count_zero(s.drop_last());
    }
}

/// Every callee of item `a` is an item of the unit.
proof fn lemma_callees_fns(m: &ProgramModel, a: int)
    ensures
        forall|j: int| 0 <= j < callees(m, a).len() ==> #[trigger] callees(m, a)[j] < m.items@.len(),
{
    if m.is_checked_function(a) {
        match m.items@[a].kind {
            ItemKind::Function { body, .. } => {
                lemma_callees_are_functions(m, body, body.nodes@.len() as int);
            },
            _ => {},
        }
    }
}

} // verus!
