//! The loop checker: rejects any function that can iterate without bound.
use vstd::prelude::*;
use crate::model::{Body, ExprKind, ItemKind, MatchSource, ProgramModel};

verus! {

/// What the traversal does at a node of a given shape.
#[derive(Clone, Copy, Debug, PartialEq, Eq, Structural)]
pub enum Rule {
    /// The node is an unbounded iteration: the body is rejected.
    Reject,
    /// The node is safe and its sub-expressions are not visited.
    Accept,
    /// The node is safe in itself; its sub-expressions are visited.
    Descend,
}

/// The rule for each node shape.
pub open spec fn spec_rule_of(kind: ExprKind) -> Rule {
    match kind {
        ExprKind::Loop => Rule::Reject,
        ExprKind::Match { source: MatchSource::ForLoopDesugar } => Rule::Reject,
        ExprKind::ConstBlock => Rule::Accept,
        ExprKind::Closure { terminating: true } => Rule::Accept,
        ExprKind::Lit => Rule::Accept,
        ExprKind::Cast => Rule::Accept,
        ExprKind::Type => Rule::Accept,
        ExprKind::InlineAsm => Rule::Accept,
        ExprKind::OffsetOf => Rule::Accept,
        ExprKind::Error => Rule::Accept,
        _ => Rule::Descend,
    }
}

pub fn rule_of(kind: &ExprKind) -> (r: Rule)
    ensures
        r == spec_rule_of(*kind),
{
    match kind {
        ExprKind::Loop => Rule::Reject,
        ExprKind::Match { source: MatchSource::ForLoopDesugar } => Rule::Reject,
        ExprKind::ConstBlock => Rule::Accept,
        ExprKind::Closure { terminating: true } => Rule::Accept,
        ExprKind::Lit => Rule::Accept,
        ExprKind::Cast => Rule::Accept,
        ExprKind::Type => Rule::Accept,
        ExprKind::InlineAsm => Rule::Accept,
        ExprKind::OffsetOf => Rule::Accept,
        ExprKind::Error => Rule::Accept,
        _ => Rule::Descend,
    }
}

/// The traversal from node `i` meets a rejected node.
pub open spec fn node_forbidden(body: &Body, i: int) -> bool
    decreases i, 1int, 0int,
{
    if 0 <= i < body.nodes@.len() {
        match spec_rule_of(body.nodes@[i].kind) {
            Rule::Reject => true,
            Rule::Accept => false,
            Rule::Descend => children_forbidden(body, i, body.nodes@[i].children@.len() as int),
        }
    } else {
        false
    }
}

/// One of the first `k` sub-expressions of node `i` leads to a rejected node.
pub open spec fn children_forbidden(body: &Body, i: int, k: int) -> bool
    decreases i, 0int, k,
{
    if 0 < k && 0 <= i < body.nodes@.len() && k <= body.nodes@[i].children@.len() {
        let c = body.nodes@[i].children@[k - 1] as int;
        children_forbidden(body, i, k - 1) || (c < i && node_forbidden(body, c))
    } else {
        false
    }
}

/// Item `id` is a function, not known to terminate, whose body holds an
/// unbounded iteration.
pub open spec fn item_forbidden(m: &ProgramModel, id: int) -> bool {
    m.has_item(id) && match m.items@[id].kind {
        ItemKind::Function { body, terminating } => !terminating && node_forbidden(
            &body,
            body.root as int,
        ),
        _ => false,
    }
}

/// No item of the unit holds an unbounded iteration.
pub open spec fn loop_free(m: &ProgramModel) -> bool {
    forall|id: int| 0 <= id < m.items@.len() ==> !#[trigger] item_forbidden(m, id)
}

/// The first item in `[lo, hi)` that holds an unbounded iteration.
pub open spec fn first_forbidden_in(m: &ProgramModel, lo: int, hi: int) -> Option<usize>
    decreases hi - lo,
{
    if lo >= hi {
        None
    } else if item_forbidden(m, lo) {
        Some(lo as usize)
    } else {
        first_forbidden_in(m, lo + 1, hi)
    }
}

/// An item that failed the loop check.
#[derive(Clone, Copy, Debug, PartialEq, Eq, Structural)]
pub struct ForbiddenLoop {
    pub item: usize,
}

/// Checks the traversal from node `i`; stops at the first rejected node.
pub fn check_expr(body: &Body, i: usize) -> (r: bool)
    requires
        body.wf(),
        i < body.nodes@.len(),
    ensures
        r == !node_forbidden(body, i as int),
    decreases i,
{
    match rule_of(&body.nodes[i].kind) {
        Rule::Reject => false,
        Rule::Accept => true,
        Rule::Descend => {
            let children = &body.nodes[i].children;
            let mut k: usize = 0;
            while k < children.len()
                invariant
                    body.wf(),
                    i < body.nodes@.len(),
                    children == &body.nodes@[i as int].children,
                    spec_rule_of(body.nodes@[i as int].kind) == Rule::Descend,
                    k <= children@.len(),
                    !children_forbidden(body, i as int, k as int),
                decreases children@.len() - k,
            {
                let c = children[k];
                assert(body.nodes@[i as int].children@[k as int] < i);
                if !check_expr(body, c) {
                    proof {
                        assert(children_forbidden(body, i as int, k as int + 1));
                        lemma_children_forbidden_grows(
                            body,
                            i as int,
                            k as int + 1,
                            children@.len() as int,
                        );
                    }
                    return false;
                }
                k += 1;
            }
            true
        },
    }
}

/// Checks one item: a function not known to terminate must be loop-free.
pub fn check_item(m: &ProgramModel, id: usize) -> (r: bool)
    requires
        m.wf(),
        id < m.items@.len(),
    ensures
        r == !item_forbidden(m, id as int),
{
    match &m.items[id].kind {
        ItemKind::Function { body, terminating } => {
            if *terminating {
                true
            } else {
                assert(body.wf());
                check_expr(body, body.root)
            }
        },
        _ => true,
    }
}

/// The first item in `[lo, hi)` that fails the loop check, if any.
pub fn first_forbidden_loop(m: &ProgramModel, lo: usize, hi: usize) -> (r: Option<usize>)
    requires
        m.wf(),
        lo <= hi <= m.items@.len(),
    ensures
        r == first_forbidden_in(m, lo as int, hi as int),
{
    let mut id = lo;
    while id < hi
        invariant
            m.wf(),
            lo <= id <= hi <= m.items@.len(),
            first_forbidden_in(m, lo as int, hi as int) == first_forbidden_in(
                m,
                id as int,
                hi as int,
            ),
        decreases hi - id,
    {
        if !check_item(m, id) {
            return Some(id);
        }
        id += 1;
    }
    None
}

/// Checks every item; the answer is negative as soon as one item fails.
pub fn no_forbidden_loops(m: &ProgramModel) -> (r: bool)
    requires
        m.wf(),
    ensures
        r == loop_free(m),
{
    let first = first_forbidden_loop(m, 0, m.items.len());
    proof {
        lemma_first_none_iff(m, 0, m.items@.len() as int);
    }
    first.is_none()
}

/// Checks every item and names the first one that fails.
pub fn verify_no_forbidden_loops(m: &ProgramModel) -> (r: Result<(), ForbiddenLoop>)
    requires
        m.wf(),
    ensures
        r == (match first_forbidden_in(m, 0, m.items@.len() as int) {
            None => Ok(()),
            Some(item) => Err(ForbiddenLoop { item }),
        }),
        r is Ok <==> loop_free(m),
{
    let n = m.items.len();
    proof {
        lemma_first_none_iff(m, 0, n as int);
    }
    match first_forbidden_loop(m, 0, n) {
        None => Ok(()),
        Some(item) => Err(ForbiddenLoop { item }),
    }
}

/// The search over `[lo, hi)` finds nothing exactly when no item there fails,
/// and what it finds is the lowest failing item there.
pub proof fn lemma_first_none_iff(m: &ProgramModel, lo: int, hi: int)
    requires
        0 <= lo,
        hi <= m.items@.len(),
        hi <= usize::MAX,
    ensures
        first_forbidden_in(m, lo, hi) is None <==> (forall|id: int|
            lo <= id < hi ==> !#[trigger] item_forbidden(m, id)),
        first_forbidden_in(m, lo, hi) matches Some(x) ==> (lo <= x < hi && item_forbidden(
            m,
            x as int,
        ) && forall|id: int| lo <= id < x ==> !#[trigger] item_forbidden(m, id)),
    decreases hi - lo,
{
    if lo < hi {
        lemma_first_none_iff(m, lo + 1, hi);
        if item_forbidden(m, lo) {
        } else {
            assert(first_forbidden_in(m, lo, hi) == first_forbidden_in(m, lo + 1, hi));
            if let Some(x) = first_forbidden_in(m, lo, hi) {
                assert forall|id: int| lo <= id < x implies !#[trigger] item_forbidden(m, id) by {
                    if id > lo {
                        assert(lo + 1 <= id < x);
                    }
                }
            }
        }
    }
}

/// The lower of two search results; an absent result yields to the other.
pub open spec fn spec_merge_first(a: Option<usize>, b: Option<usize>) -> Option<usize> {
    match (a, b) {
        (None, y) => y,
        (x, None) => x,
        (Some(x), Some(y)) => if x <= y {
            Some(x)
        } else {
            Some(y)
        },
    }
}

pub fn merge_first(a: Option<usize>, b: Option<usize>) -> (r: Option<usize>)
    ensures
        r == spec_merge_first(a, b),
{
    match (a, b) {
        (None, y) => y,
        (x, None) => x,
        (Some(x), Some(y)) => if x <= y {
            Some(x)
        } else {
            Some(y)
        },
    }
}

/// The shard results `rs` merged from the first to the last.
pub open spec fn merge_all(rs: Seq<Option<usize>>) -> Option<usize>
    decreases rs.len(),
{
    if rs.len() == 0 {
        None
    } else {
        spec_merge_first(merge_all(rs.drop_last()), rs.last())
    }
}

/// `bounds` cuts the items `[0, n)` into consecutive shards
/// `[bounds[k], bounds[k + 1])`.
pub open spec fn is_partition(bounds: Seq<usize>, n: int) -> bool {
    &&& bounds.len() >= 1
    &&& bounds[0] == 0
    &&& bounds.last() == n
    &&& forall|k: int| 0 <= k < bounds.len() - 1 ==> #[trigger] bounds[k] <= bounds[k + 1]
}

/// The result of the loop check on each shard of `bounds`.
pub open spec fn shard_results(m: &ProgramModel, bounds: Seq<usize>) -> Seq<Option<usize>> {
    Seq::new(
        (bounds.len() - 1) as nat,
        |k: int| first_forbidden_in(m, bounds[k] as int, bounds[k + 1] as int),
    )
}

/// Searching two adjacent ranges apart and keeping the lower finding gives
/// what one search over their union gives.
pub proof fn lemma_shard_merge(m: &ProgramModel, lo: int, mid: int, hi: int)
    requires
        0 <= lo <= mid <= hi <= m.items@.len(),
        hi <= usize::MAX,
    ensures
        spec_merge_first(first_forbidden_in(m, lo, mid), first_forbidden_in(m, mid, hi))
            == first_forbidden_in(m, lo, hi),
    decreases mid - lo,
{
    lemma_first_none_iff(m, mid, hi);
    if lo < mid {
        if !item_forbidden(m, lo) {
            lemma_shard_merge(m, lo + 1, mid, hi);
        }
    }
}

/// Runs the loop check shard by shard, to completion, and keeps the finding
/// with the lowest identifier.
pub fn first_forbidden_sharded(m: &ProgramModel, bounds: &Vec<usize>) -> (r: Option<usize>)
    requires
        m.wf(),
        is_partition(bounds@, m.items@.len() as int),
    ensures
        r == merge_all(shard_results(m, bounds@)),
        r == first_forbidden_in(m, 0, m.items@.len() as int),
{
    let ghost n = m.items@.len() as int;
    let shards = bounds.len() - 1;
    let mut results: Vec<Option<usize>> = Vec::new();
    let mut k: usize = 0;
    while k < shards
        invariant
            m.wf(),
            shards == bounds@.len() - 1,
            is_partition(bounds@, n),
            n == m.items@.len(),
            k <= shards,
            results@.len() == k,
            forall|i: int|
                0 <= i < k ==> #[trigger] results@[i] == first_forbidden_in(
                    m,
                    bounds@[i] as int,
                    bounds@[i + 1] as int,
                ),
        decreases shards - k,
    {
        proof {
            lemma_partition_bounded(bounds@, n, k as int);
        }
        let found = first_forbidden_loop(m, bounds[k], bounds[k + 1]);
        results.push(found);
        k += 1;
    }
    proof {
        assert(results@ =~= shard_results(m, bounds@));
    }
    let mut acc: Option<usize> = None;
    let mut j: usize = 0;
    while j < results.len()
        invariant
            is_partition(bounds@, n),
            n == m.items@.len(),
            results@ =~= shard_results(m, bounds@),
            j <= results@.len(),
            acc == merge_all(results@.take(j as int)),
            acc == first_forbidden_in(m, 0, bounds@[j as int] as int),
        decreases results@.len() - j,
    {
        proof {
            assert(results@.take(j as int + 1).drop_last() =~= results@.take(j as int));
            lemma_partition_bounded(bounds@, n, j as int);
            lemma_shard_merge(m, 0, bounds@[j as int] as int, bounds@[j as int + 1] as int);
        }
        acc = merge_first(acc, results[j]);
        j += 1;
    }
    proof {
        assert(results@.take(results@.len() as int) =~= results@);
    }
    acc
}

/// Each shard of a partition lies within `[0, n)`.
proof fn lemma_partition_bounded(bounds: Seq<usize>, n: int, k: int)
    requires
        is_partition(bounds, n),
        0 <= k < bounds.len() - 1,
    ensures
        0 <= bounds[k] <= bounds[k + 1] <= n,
    decreases bounds.len() - k,
{
    if k + 1 < bounds.len() - 1 {
        lemma_partition_bounded(bounds, n, k + 1);
    }
}

/// Once one of the first `k1` sub-expressions leads to a rejected node, so
/// does one of the first `k2`, for any larger `k2`.
pub proof fn lemma_children_forbidden_grows(body: &Body, i: int, k1: int, k2: int)
    requires
        0 <= i < body.nodes@.len(),
        k1 <= k2 <= body.nodes@[i].children@.len(),
        children_forbidden(body, i, k1),
    ensures
        children_forbidden(body, i, k2),
    decreases k2 - k1,
{
    if k1 < k2 {
        lemma_children_forbidden_grows(body, i, k1, k2 - 1);
    }
}

} // verus!
