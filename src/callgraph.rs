//! The call graph: for each function not known to terminate, the functions
//! of the unit that its body calls.
use vstd::prelude::*;
use crate::model::{Body, ExprKind, ItemKind, ProgramModel};

verus! {

/// The item a node calls, if it is a call that resolves inside the unit.
pub open spec fn spec_call_target(kind: ExprKind) -> Option<usize> {
    match kind {
        ExprKind::Call { target } => target,
        ExprKind::MethodCall { target } => target,
        _ => None,
    }
}

pub fn call_target(kind: &ExprKind) -> (r: Option<usize>)
    ensures
        r == spec_call_target(*kind),
{
    match kind {
        ExprKind::Call { target } => *target,
        ExprKind::MethodCall { target } => *target,
        _ => None,
    }
}

/// The distinct functions called by the first `k` nodes of `body`, in the
/// order of their first call.
pub open spec fn callees_upto(m: &ProgramModel, body: Body, k: int) -> Seq<usize>
    decreases k,
{
    if k <= 0 || k > body.nodes@.len() {
        seq![]
    } else {
        let prev = callees_upto(m, body, k - 1);
        match spec_call_target(body.nodes@[k - 1].kind) {
            Some(t) => if m.is_function(t as int) && !prev.contains(t) {
                prev.push(t)
            } else {
                prev
            },
            None => prev,
        }
    }
}

/// The distinct functions that item `a` calls; empty unless `a` is a function
/// not known to terminate.
pub open spec fn callees(m: &ProgramModel, a: int) -> Seq<usize> {
    if m.is_checked_function(a) {
        match m.items@[a].kind {
            ItemKind::Function { body, .. } => callees_upto(m, body, body.nodes@.len() as int),
            _ => seq![],
        }
    } else {
        seq![]
    }
}

/// There is an edge `a -> b` in the call graph of the unit.
pub open spec fn calls(m: &ProgramModel, a: usize, b: usize) -> bool {
    callees(m, a as int).contains(b)
}

/// Adjacency lists of the call graph, indexed by definition identifier.
#[derive(Clone, Debug)]
pub struct CallGraph {
    pub succ: Vec<Vec<usize>>,
}

impl CallGraph {
    /// The graph holds, for each item, exactly its callees in the unit.
    pub open spec fn of_model(&self, m: &ProgramModel) -> bool {
        &&& self.succ@.len() == m.items@.len()
        &&& forall|a: int| 0 <= a < self.succ@.len() ==> #[trigger] self.succ@[a]@ == callees(m, a)
    }
}

/// Every callee is a function of the unit.
pub proof fn lemma_callees_are_functions(m: &ProgramModel, body: Body, k: int)
    ensures
        forall|j: int|
            0 <= j < callees_upto(m, body, k).len() ==> m.is_function(
                #[trigger] callees_upto(m, body, k)[j] as int,
            ),
    decreases k,
{
    if 0 < k <= body.nodes@.len() {
        lemma_callees_are_functions(m, body, k - 1);
        let prev = callees_upto(m, body, k - 1);
        let cur = callees_upto(m, body, k);
        assert forall|j: int| 0 <= j < cur.len() implies m.is_function(#[trigger] cur[j] as int) by {
            if j < prev.len() {
                assert(cur[j] == prev[j]);
            }
        }
    }
}

pub fn contains(v: &Vec<usize>, x: usize) -> (r: bool)
    ensures
        r == v@.contains(x),
{
    let mut i: usize = 0;
    while i < v.len()
        invariant
            i <= v@.len(),
            forall|j: int| 0 <= j < i ==> v@[j] != x,
        decreases v@.len() - i,
    {
        if v[i] == x {
            return true;
        }
        i += 1;
    }
    false
}

pub fn is_function(m: &ProgramModel, id: usize) -> (r: bool)
    ensures
        r == m.is_function(id as int),
{
    if id < m.items.len() {
        match &m.items[id].kind {
            ItemKind::Function { .. } => true,
            _ => false,
        }
    } else {
        false
    }
}

/// The distinct functions of the unit that `body` calls, in order of first call.
pub fn body_callees(m: &ProgramModel, body: &Body) -> (r: Vec<usize>)
    ensures
        r@ == callees_upto(m, *body, body.nodes@.len() as int),
{
    let mut out: Vec<usize> = Vec::new();
    let mut k: usize = 0;
    while k < body.nodes.len()
        invariant
            k <= body.nodes@.len(),
            out@ == callees_upto(m, *body, k as int),
        decreases body.nodes@.len() - k,
    {
        match call_target(&body.nodes[k].kind) {
            Some(t) => {
                if is_function(m, t) && !contains(&out, t) {
                    out.push(t);
                }
            },
            None => {},
        }
        k += 1;
    }
    out
}

/// Builds the call graph of the unit.
pub fn build_call_graph(m: &ProgramModel) -> (g: CallGraph)
    ensures
        g.of_model(m),
{
    let mut succ: Vec<Vec<usize>> = Vec::new();
    let mut a: usize = 0;
    while a < m.items.len()
        invariant
            a <= m.items@.len(),
            succ@.len() == a,
            forall|j: int| 0 <= j < a ==> #[trigger] succ@[j]@ == callees(m, j),
        decreases m.items@.len() - a,
    {
        let edges = match &m.items[a].kind {
            ItemKind::Function { body, terminating } => {
                if *terminating {
                    Vec::new()
                } else {
                    body_callees(m, body)
                }
            },
            _ => Vec::new(),
        };
        succ.push(edges);
        a += 1;
    }
    CallGraph { succ }
}

} // verus!
