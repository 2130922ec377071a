//! The program model: an already-resolved view of one compiled unit.
//!
//! Items are addressed by their definition identifier, which is their index
//! in `ProgramModel::items`. A function body is an arena of expression nodes
//! in which every node refers to its sub-expressions by index, and every
//! sub-expression stands before the node that holds it.
use vstd::prelude::*;

verus! {

/// Which construct a pattern-match node was written as.
#[derive(Clone, Copy, Debug, PartialEq, Eq, Structural)]
pub enum MatchSource {
    /// A `match` written by the author.
    Normal,
    /// The match that an iterator-driven `for` loop is lowered into.
    ForLoopDesugar,
    /// Any other lowering (`?`, `.await`, ...).
    OtherDesugar,
}

/// The shape of one expression node.
///
/// Calls carry the definition identifier their target resolves to inside
/// the unit; `None` means the target lies in trusted outside code.
#[derive(Clone, Copy, Debug, PartialEq, Eq, Structural)]
pub enum ExprKind {
    ConstBlock,
    Array,
    Call { target: Option<usize> },
    MethodCall { target: Option<usize> },
    Tup,
    Binary,
    Unary,
    Lit,
    Cast,
    Type,
    DropTemps,
    Let,
    If,
    Loop,
    Match { source: MatchSource },
    Closure { terminating: bool },
    Block,
    Assign,
    AssignOp,
    Field,
    Index,
    Path,
    AddrOf,
    Break,
    Continue,
    Ret,
    Become,
    InlineAsm,
    OffsetOf,
    Struct,
    Repeat,
    Yield,
    Error,
    /// A `let` statement inside a block: its initializer and its `else` block.
    LocalStmt,
    /// An item declared inside a block; the item itself is checked on its own.
    ItemStmt,
}

/// One node of a body: its shape and the indices of its sub-expressions.
#[derive(Clone, Debug)]
pub struct ExprNode {
    pub kind: ExprKind,
    pub children: Vec<usize>,
}

/// A function body: the node arena and the index of its outermost expression.
#[derive(Clone, Debug)]
pub struct Body {
    pub nodes: Vec<ExprNode>,
    pub root: usize,
}

/// How far outside the unit a type declaration is visible.
#[derive(Clone, Copy, Debug, PartialEq, Eq, Structural)]
pub enum Visibility {
    DirectlyPublic,
    Other,
}

/// What an item is.
#[derive(Clone, Debug)]
pub enum ItemKind {
    /// A function; `terminating` marks one known to halt (a `const fn`).
    Function { body: Body, terminating: bool },
    /// A struct, enum or union declaration.
    TypeDecl { visibility: Visibility },
    /// An implementation block: the path of the trait it implements, if any,
    /// and the item its self type resolves to, if it resolves.
    Impl { trait_path: Option<Vec<String>>, target: Option<usize> },
    /// Any other item (a module, a constant, a use declaration).
    Other,
}

/// One item together with its fully qualified path.
#[derive(Clone, Debug)]
pub struct Item {
    pub path: Vec<String>,
    pub kind: ItemKind,
}

/// A compiled unit: its items, and the paths of the traits that the trusted
/// outside namespace provides.
#[derive(Clone, Debug)]
pub struct ProgramModel {
    pub items: Vec<Item>,
    pub trusted_traits: Vec<Vec<String>>,
}

impl Body {
    /// The root exists and every sub-expression stands before its parent.
    pub open spec fn wf(&self) -> bool {
        &&& self.root < self.nodes@.len()
        &&& forall|i: int, j: int|
            0 <= i < self.nodes@.len() && 0 <= j < self.nodes@[i].children@.len()
                ==> #[trigger] self.nodes@[i].children@[j] < i
    }

    pub fn is_well_formed(&self) -> (r: bool)
        ensures
            r == self.wf(),
    {
        if self.root >= self.nodes.len() {
            return false;
        }
        let mut i: usize = 0;
        while i < self.nodes.len()
            invariant
                i <= self.nodes@.len(),
                forall|a: int, j: int|
                    0 <= a < i && 0 <= j < self.nodes@[a].children@.len()
                        ==> #[trigger] self.nodes@[a].children@[j] < a,
            decreases self.nodes@.len() - i,
        {
            let children = &self.nodes[i].children;
            let mut j: usize = 0;
            while j < children.len()
                invariant
                    i < self.nodes@.len(),
                    children == &self.nodes@[i as int].children,
                    j <= children@.len(),
                    forall|k: int| 0 <= k < j ==> #[trigger] children@[k] < i,
                decreases children@.len() - j,
            {
                if children[j] >= i {
                    return false;
                }
                j += 1;
            }
            i += 1;
        }
        true
    }
}

impl ProgramModel {
    /// The identifier `id` names an item of the unit.
    pub open spec fn has_item(&self, id: int) -> bool {
        0 <= id < self.items@.len()
    }

    /// The item `id` is a function.
    pub open spec fn is_function(&self, id: int) -> bool {
        self.has_item(id) && self.items@[id].kind is Function
    }

    /// The item `id` is a function that is not known to terminate.
    pub open spec fn is_checked_function(&self, id: int) -> bool {
        self.has_item(id) && match self.items@[id].kind {
            ItemKind::Function { terminating, .. } => !terminating,
            _ => false,
        }
    }

    /// Every function body is well formed.
    pub open spec fn wf(&self) -> bool {
        forall|i: int|
            0 <= i < self.items@.len() ==> match #[trigger] self.items@[i].kind {
                ItemKind::Function { body, .. } => body.wf(),
                _ => true,
            }
    }

    pub fn is_well_formed(&self) -> (r: bool)
        ensures
            r == self.wf(),
    {
        let mut i: usize = 0;
        while i < self.items.len()
            invariant
                i <= self.items@.len(),
                forall|a: int|
                    0 <= a < i ==> match #[trigger] self.items@[a].kind {
                        ItemKind::Function { body, .. } => body.wf(),
                        _ => true,
                    },
            decreases self.items@.len() - i,
        {
            match &self.items[i].kind {
                ItemKind::Function { body, .. } => {
                    if !body.is_well_formed() {
                        return false;
                    }
                },
                _ => {},
            }
            i += 1;
        }
        true
    }
}

} // verus!
