//! Properties that hold of the analyses for every program model.
use vstd::prelude::*;
use crate::callgraph::{callees, callees_upto, calls};
use crate::loops::{
    Rule, children_forbidden, first_forbidden_in, is_partition, item_forbidden,
    lemma_children_forbidden_grows, lemma_shard_merge, loop_free, merge_all, node_forbidden,
    shard_results, spec_rule_of,
};
use crate::model::{Body, ExprKind, ItemKind, MatchSource, ProgramModel};
use crate::recursion::{
    Recursion, edge_violations, is_call_path, reaches, recursion_outcome, recursion_violations,
    violations_upto,
};
use crate::registry::{
    CapabilitySetupError, SINK_NAME, SOURCE_NAME, capability_identity, classification_outcome,
    implements, impls_upto, path_view, public_types, without,
};

verus! {

/// Every reported violation is a call edge through which the caller reaches
/// itself again.
pub proof fn lemma_violations_are_cycle_edges(m: &ProgramModel)
    requires
        m.items@.len() <= usize::MAX,
    ensures
        forall|i: int|
            0 <= i < recursion_violations(m).len() ==> {
                let r = #[trigger] recursion_violations(m)[i];
                calls(m, r.caller, r.callee) && reaches(m, r.callee, r.caller)
            },
{
    lemma_violations_upto(m, m.items@.len() as int);
}

proof fn lemma_violations_upto(m: &ProgramModel, k: int)
    requires
        k <= usize::MAX,
    ensures
        forall|i: int|
            0 <= i < violations_upto(m, k).len() ==> {
                let r = #[trigger] violations_upto(m, k)[i];
                calls(m, r.caller, r.callee) && reaches(m, r.callee, r.caller)
            },
    decreases k,
{
    if k > 0 {
        lemma_violations_upto(m, k - 1);
        let a = (k - 1) as usize;
        let s = callees(m, k - 1);
        lemma_edge_violations(m, a, s, s);
        let prev = violations_upto(m, k - 1);
        let cur = violations_upto(m, k);
        assert forall|i: int| 0 <= i < cur.len() implies {
            let r = #[trigger] cur[i];
            calls(m, r.caller, r.callee) && reaches(m, r.callee, r.caller)
        } by {
            if i < prev.len() {
                assert(cur[i] == prev[i]);
            } else {
                assert(cur[i] == edge_violations(m, a, s)[i - prev.len()]);
            }
        }
    }
}

proof fn lemma_edge_violations(m: &ProgramModel, a: usize, s: Seq<usize>, all: Seq<usize>)
    requires
        all == callees(m, a as int),
        forall|j: int| 0 <= j < s.len() ==> all.contains(#[trigger] s[j]),
    ensures
        forall|i: int|
            0 <= i < edge_violations(m, a, s).len() ==> {
                let r = #[trigger] edge_violations(m, a, s)[i];
                r.caller == a && calls(m, r.caller, r.callee) && reaches(m, r.callee, r.caller)
            },
    decreases s.len(),
{
    if s.len() > 0 {
        let t = s.drop_last();
        assert forall|j: int| 0 <= j < t.len() implies all.contains(#[trigger] t[j]) by {
            assert(t[j] == s[j]);
        }
        lemma_edge_violations(m, a, t, all);
        assert(all.contains(s[s.len() - 1]));
        let prev = edge_violations(m, a, t);
        let cur = edge_violations(m, a, s);
        assert forall|i: int| 0 <= i < cur.len() implies {
            let r = #[trigger] cur[i];
            r.caller == a && calls(m, r.caller, r.callee) && reaches(m, r.callee, r.caller)
        } by {
            if i < prev.len() {
                assert(cur[i] == prev[i]);
            }
        }
    }
}

/// Items known to terminate are exempt from both checks: the loop checker
/// accepts them whatever their bodies hold, they have no call edges of their
/// own, and no reported recursion has them as caller or as callee.
pub proof fn lemma_terminating_items_exempt(m: &ProgramModel, id: int)
    requires
        m.items@.len() <= usize::MAX,
        m.has_item(id),
        m.items@[id].kind matches ItemKind::Function { terminating, .. } && terminating,
    ensures
        !item_forbidden(m, id),
        callees(m, id).len() == 0,
        forall|i: int|
            0 <= i < recursion_violations(m).len() ==> (#[trigger] recursion_violations(m)[i]).caller
                != id && recursion_violations(m)[i].callee != id,
{
    lemma_violations_are_cycle_edges(m);
    assert forall|i: int| 0 <= i < recursion_violations(m).len() implies (
    #[trigger] recursion_violations(m)[i]).caller != id && recursion_violations(m)[i].callee
        != id by {
        let r = recursion_violations(m)[i];
        assert(calls(m, r.caller, r.callee));
        assert(callees(m, r.caller as int).len() > 0);
        assert(r.caller != id);
        if r.callee == id {
            let p = choose|p: Seq<usize>|
                is_call_path(m, p) && p[0] == r.callee && p.last() == r.caller;
            assert(p.len() >= 2);
            assert(calls(m, p[0int], p[0int + 1]));
        }
    }
}

/// A rejected node makes every node that holds it rejected as well, as long
/// as that node passes the traversal on to its sub-expressions: a loop, or a
/// lowered `for` loop, anywhere below such nodes rejects the whole body.
pub proof fn lemma_rejection_propagates(body: &Body, parent: int, k: int)
    requires
        body.wf(),
        0 <= parent < body.nodes@.len(),
        spec_rule_of(body.nodes@[parent].kind) == Rule::Descend,
        0 <= k < body.nodes@[parent].children@.len(),
        node_forbidden(body, body.nodes@[parent].children@[k] as int),
    ensures
        node_forbidden(body, parent),
{
    assert(body.nodes@[parent].children@[k] < parent);
    assert(children_forbidden(body, parent, k + 1));
    lemma_children_forbidden_grows(
        body,
        parent,
        k + 1,
        body.nodes@[parent].children@.len() as int,
    );
}

/// `p` leads from the root of `body` down to an unbounded iteration through
/// nodes that pass the traversal on: each step goes to a sub-expression, and
/// every node before the last is neither rejected nor exempt.
pub open spec fn is_path_to_loop(body: &Body, p: Seq<int>) -> bool {
    &&& p.len() >= 1
    &&& p[0] == body.root
    &&& forall|i: int| 0 <= i < p.len() ==> 0 <= #[trigger] p[i] < body.nodes@.len()
    &&& forall|i: int|
        0 <= i < p.len() - 1 ==> spec_rule_of(body.nodes@[#[trigger] p[i]].kind) == Rule::Descend
            && exists|k: int|
            0 <= k < body.nodes@[p[i]].children@.len() && body.nodes@[p[i]].children@[k] == p[i
                + 1]
    &&& (body.nodes@[p.last()].kind == ExprKind::Loop || body.nodes@[p.last()].kind == (
    ExprKind::Match { source: MatchSource::ForLoopDesugar }))
}

/// A function not known to terminate whose body holds an unbounded loop, or
/// a `for` loop lowered into a match, anywhere the traversal reaches (outside
/// constant blocks, terminating closures and leaves) fails the loop check.
pub proof fn lemma_contained_loop_rejected(m: &ProgramModel, id: int, p: Seq<int>)
    requires
        m.wf(),
        m.has_item(id),
        m.items@[id].kind matches ItemKind::Function { body, terminating } && !terminating
            && is_path_to_loop(&body, p),
    ensures
        item_forbidden(m, id),
        !loop_free(m),
{
    match m.items@[id].kind {
        ItemKind::Function { body, .. } => {
            assert(body.wf());
            lemma_path_suffix_rejected(&body, p, 0);
        },
        _ => {},
    }
    assert(item_forbidden(m, id));
}

proof fn lemma_path_suffix_rejected(body: &Body, p: Seq<int>, i: int)
    requires
        body.wf(),
        is_path_to_loop(body, p),
        0 <= i < p.len(),
    ensures
        node_forbidden(body, p[i]),
    decreases p.len() - i,
{
    if i == p.len() - 1 {
        assert(0 <= p[i] < body.nodes@.len());
    } else {
        lemma_path_suffix_rejected(body, p, i + 1);
        assert(0 <= p[i] < body.nodes@.len());
        assert(spec_rule_of(body.nodes@[p[i]].kind) == Rule::Descend);
        let k = choose|k: int|
            0 <= k < body.nodes@[p[i]].children@.len() && body.nodes@[p[i]].children@[k] == p[i
                + 1];
        lemma_rejection_propagates(body, p[i], k);
    }
}

/// Item `a` is a function, terminating or not, whose body calls `b`.
pub open spec fn program_calls(m: &ProgramModel, a: usize, b: usize) -> bool {
    m.is_function(a as int) && match m.items@[a as int].kind {
        ItemKind::Function { body, .. } => callees_upto(m, body, body.nodes@.len() as int).contains(
            b,
        ),
        _ => false,
    }
}

/// `p` is a cycle of calls among the functions of the unit, whether they are
/// known to terminate or not.
pub open spec fn is_program_cycle(m: &ProgramModel, p: Seq<usize>) -> bool {
    &&& p.len() >= 2
    &&& p[0] == p.last()
    &&& forall|i: int| 0 <= i < p.len() - 1 ==> #[trigger] program_calls(m, p[i], p[i + 1])
}

/// When every call cycle of the unit passes through a function known to
/// terminate, the recursion check reports nothing.
pub proof fn lemma_cycles_through_terminating_accepted(m: &ProgramModel)
    requires
        m.items@.len() <= usize::MAX,
        forall|p: Seq<usize>|
            #[trigger] is_program_cycle(m, p) ==> exists|i: int|
                0 <= i < p.len() && !m.is_checked_function(#[trigger] p[i] as int),
    ensures
        recursion_violations(m).len() == 0,
        recursion_outcome(m) is Ok,
{
    if recursion_violations(m).len() > 0 {
        lemma_violations_are_cycle_edges(m);
        let r = recursion_violations(m)[0];
        assert(calls(m, r.caller, r.callee) && reaches(m, r.callee, r.caller));
        let q = choose|q: Seq<usize>| is_call_path(m, q) && q[0] == r.callee && q.last() == r.caller;
        let c = seq![r.caller] + q;
        assert forall|i: int| 0 <= i < c.len() - 1 implies #[trigger] program_calls(m, c[i], c[i + 1])
            && m.is_checked_function(c[i] as int) by {
            if i == 0 {
                assert(c[0] == r.caller && c[1] == q[0]);
                lemma_calls_is_program_call(m, r.caller, r.callee);
            } else {
                assert(c[i] == q[i - 1] && c[i + 1] == q[(i - 1) + 1]);
                assert(calls(m, q[i - 1], q[(i - 1) + 1]));
                lemma_calls_is_program_call(m, q[i - 1], q[(i - 1) + 1]);
            }
        }
        assert(c.last() == r.caller);
        lemma_calls_is_program_call(m, r.caller, r.callee);
        assert(is_program_cycle(m, c));
        assert forall|i: int| 0 <= i < c.len() implies m.is_checked_function(#[trigger] c[i] as int) by {
            if i == 0 {
                assert(c[0] == r.caller);
            } else if i < c.len() - 1 {
                assert(c[i] == q[i - 1] && c[i + 1] == q[(i - 1) + 1]);
                assert(calls(m, q[i - 1], q[(i - 1) + 1]));
                lemma_calls_is_program_call(m, q[i - 1], q[(i - 1) + 1]);
            } else {
                assert(c[i] == r.caller);
            }
        }
        let w = choose|w: int| 0 <= w < c.len() && !m.is_checked_function(#[trigger] c[w] as int);
        assert(m.is_checked_function(c[w] as int));
    }
}

/// A call edge of the graph is a call of the unit, made by a function not
/// known to terminate.
proof fn lemma_calls_is_program_call(m: &ProgramModel, a: usize, b: usize)
    requires
        calls(m, a, b),
    ensures
        program_calls(m, a, b),
        m.is_checked_function(a as int),
{
}

/// The loop check is deterministic under sharding: for any cut of the items
/// into consecutive shards, checking each shard to completion and keeping the
/// finding with the lowest identifier names the same item as one sequential
/// run over all items.
pub proof fn lemma_sharding_matches_sequential(m: &ProgramModel, bounds: Seq<usize>)
    requires
        is_partition(bounds, m.items@.len() as int),
        m.items@.len() <= usize::MAX,
    ensures
        merge_all(shard_results(m, bounds)) == first_forbidden_in(m, 0, m.items@.len() as int),
{
    let n = m.items@.len() as int;
    let rs = shard_results(m, bounds);
    lemma_merge_prefix(m, bounds, bounds.len() - 1);
    assert(rs.take(rs.len() as int) =~= rs);
}

proof fn lemma_merge_prefix(m: &ProgramModel, bounds: Seq<usize>, j: int)
    requires
        is_partition(bounds, m.items@.len() as int),
        m.items@.len() <= usize::MAX,
        0 <= j < bounds.len(),
    ensures
        0 <= bounds[j] <= m.items@.len(),
        merge_all(shard_results(m, bounds).take(j)) == first_forbidden_in(m, 0, bounds[j] as int),
    decreases j,
{
    let rs = shard_results(m, bounds);
    if j == 0 {
        assert(rs.take(0) =~= Seq::<Option<usize>>::empty());
    } else {
        lemma_merge_prefix(m, bounds, j - 1);
        lemma_bound_le_last(m.items@.len() as int, bounds, j);
        assert(bounds[j - 1] <= bounds[(j - 1) + 1]);
        assert(rs.take(j).drop_last() =~= rs.take(j - 1));
        lemma_shard_merge(m, 0, bounds[j - 1] as int, bounds[j] as int);
    }
}

proof fn lemma_bound_le_last(n: int, bounds: Seq<usize>, j: int)
    requires
        is_partition(bounds, n),
        0 <= j < bounds.len(),
    ensures
        bounds[j] <= n,
    decreases bounds.len() - j,
{
    if j < bounds.len() - 1 {
        lemma_bound_le_last(n, bounds, j + 1);
        assert(bounds[j] <= bounds[j + 1]);
    }
}

/// The members of the implementation list of `ident` over the first `k` items.
proof fn lemma_impls_upto_members(m: &ProgramModel, ident: Seq<Seq<char>>, k: int)
    requires
        k <= usize::MAX,
    ensures
        forall|x: usize|
            #[trigger] impls_upto(m, ident, k).contains(x) <==> (x < k && implements(
                m,
                x as int,
                ident,
            )),
    decreases k,
{
    if k > 0 {
        lemma_impls_upto_members(m, ident, k - 1);
        let prev = impls_upto(m, ident, k - 1);
        let cur = impls_upto(m, ident, k);
        assert forall|x: usize| #[trigger] cur.contains(x) <==> (x < k && implements(m, x as int, ident)) by {
            if implements(m, k - 1, ident) {
                assert(cur == prev.push((k - 1) as usize));
                if cur.contains(x) {
                    let w = choose|w: int| 0 <= w < cur.len() && cur[w] == x;
                    if w < prev.len() {
                        assert(prev[w] == x);
                        assert(prev.contains(x));
                    }
                }
                if x < k && implements(m, x as int, ident) {
                    if x < k - 1 {
                        assert(prev.contains(x));
                        let w = choose|w: int| 0 <= w < prev.len() && prev[w] == x;
                        assert(cur[w] == x);
                    } else {
                        assert(cur[cur.len() - 1] == x);
                    }
                }
            }
        }
    }
}

/// The members of `s` without `excluded`.
proof fn lemma_without_members(s: Seq<usize>, excluded: Seq<usize>)
    ensures
        forall|x: usize|
            #[trigger] without(s, excluded).contains(x) <==> (s.contains(x) && !excluded.contains(x)),
    decreases s.len(),
{
    if s.len() > 0 {
        let t = s.drop_last();
        lemma_without_members(t, excluded);
        let cur = without(s, excluded);
        let prev = without(t, excluded);
        assert forall|x: usize| #[trigger] cur.contains(x) <==> (s.contains(x) && !excluded.contains(x)) by {
            if s.contains(x) {
                let w = choose|w: int| 0 <= w < s.len() && s[w] == x;
                if w < t.len() {
                    assert(t[w] == x);
                    assert(t.contains(x));
                }
            }
            if t.contains(x) {
                let w = choose|w: int| 0 <= w < t.len() && t[w] == x;
                assert(s[w] == x);
            }
            if !excluded.contains(s.last()) {
                assert(cur == prev.push(s.last()));
                if cur.contains(x) {
                    let w = choose|w: int| 0 <= w < cur.len() && cur[w] == x;
                    if w < prev.len() {
                        assert(prev[w] == x);
                        assert(prev.contains(x));
                    }
                }
                if prev.contains(x) {
                    let w = choose|w: int| 0 <= w < prev.len() && prev[w] == x;
                    assert(cur[w] == x);
                }
                if x == s.last() {
                    assert(cur[cur.len() - 1] == x);
                }
            }
        }
    }
}

/// Capability paths match segment for segment: an implementation block whose
/// trait path is exactly the source capability's path (with a self type that
/// resolves, and not itself listed as a public type) is classified as a
/// source, while one whose trait path is a proper prefix of the sink
/// capability's path is classified as neither sink nor source, unless that
/// prefix is itself the source capability's path.
pub proof fn lemma_capability_paths_match_exactly(m: &ProgramModel, source: int, partial: int)
    requires
        m.items@.len() <= usize::MAX,
        capability_identity(m, SINK_NAME@) is Some,
        capability_identity(m, SOURCE_NAME@) is Some,
        implements(m, source, capability_identity(m, SOURCE_NAME@).unwrap()),
        !public_types(m).contains(source as usize),
        m.has_item(partial),
        m.items@[partial].kind matches ItemKind::Impl { trait_path: Some(p), .. } && {
            let sink = capability_identity(m, SINK_NAME@).unwrap();
            &&& path_view(p@).len() < sink.len()
            &&& path_view(p@) == sink.take(path_view(p@).len() as int)
            &&& path_view(p@) != capability_identity(m, SOURCE_NAME@).unwrap()
        },
    ensures
        classification_outcome(m) matches Ok((_, sinks, sources)) && sources.contains(
            source as usize,
        ) && !sinks.contains(partial as usize) && !sources.contains(partial as usize),
{
    let n = m.items@.len() as int;
    let sink = capability_identity(m, SINK_NAME@).unwrap();
    let src = capability_identity(m, SOURCE_NAME@).unwrap();
    let pubs = public_types(m);
    lemma_impls_upto_members(m, sink, n);
    lemma_impls_upto_members(m, src, n);
    lemma_without_members(impls_upto(m, sink, n), pubs);
    lemma_without_members(impls_upto(m, src, n), pubs);
    assert(impls_upto(m, src, n).contains(source as usize));
    match m.items@[partial].kind {
        ItemKind::Impl { trait_path: Some(p), .. } => {
            assert(path_view(p@).len() != sink.len());
            assert(!implements(m, partial, sink));
            assert(!implements(m, partial, src));
        },
        _ => {},
    }
}

/// Checking a model twice for loops gives the same finding: any two
/// outcomes that meet the loop checker's contract on one model are equal.
pub proof fn lemma_loop_check_idempotent(m: &ProgramModel, r1: Option<usize>, r2: Option<usize>)
    requires
        r1 == first_forbidden_in(m, 0, m.items@.len() as int),
        r2 == first_forbidden_in(m, 0, m.items@.len() as int),
    ensures
        r1 == r2,
{
}

/// Checking a model twice for recursion reports the same violations, in the
/// same order.
pub proof fn lemma_recursion_check_idempotent(
    m: &ProgramModel,
    r1: Result<(), Seq<Recursion>>,
    r2: Result<(), Seq<Recursion>>,
)
    requires
        match r1 {
            Ok(()) => recursion_outcome(m) is Ok,
            Err(v) => recursion_outcome(m) == Err::<(), Seq<Recursion>>(v),
        },
        match r2 {
            Ok(()) => recursion_outcome(m) is Ok,
            Err(v) => recursion_outcome(m) == Err::<(), Seq<Recursion>>(v),
        },
    ensures
        r1 == r2,
{
    match r1 {
        Ok(u1) => {
            match r2 {
                Ok(u2) => {
                    assert(u1 == u2);
                },
                Err(_) => {},
            }
        },
        Err(v1) => {
            match r2 {
                Ok(_) => {},
                Err(v2) => {
                    assert(v1 == v2);
                },
            }
        },
    }
}

/// Classifying a model twice gives the same three lists, in the same order,
/// or the same setup error.
pub proof fn lemma_classification_idempotent(
    m: &ProgramModel,
    r1: Result<(Seq<usize>, Seq<usize>, Seq<usize>), CapabilitySetupError>,
    r2: Result<(Seq<usize>, Seq<usize>, Seq<usize>), CapabilitySetupError>,
)
    requires
        r1 == classification_outcome(m),
        r2 == classification_outcome(m),
    ensures
        r1 == r2,
{
}

} // verus!
