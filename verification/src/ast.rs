//! The expression tree and its evaluation.
//!
//! The tree keeps every number as it was written. Evaluation folds the tree
//! over an arithmetic that the caller supplies as two functions: `number`
//! reads a literal, `apply` combines two values under an operator.

use vstd::prelude::*;
use crate::token::{Literal, Operator, SpecToken, Token};

verus! {

/// What a node of the tree is.
#[derive(PartialEq, Eq, Debug, Clone, Copy, Structural)]
pub enum NodeKind {
    /// A number; it has no children.
    Operand,
    /// An operator with a left and a right child.
    BinOp,
    /// An operator with a right child only. The builder makes no such node.
    UnaryOp,
    /// No valid node; it is never evaluated.
    Invalid,
}

/// A child slot: empty, or the owner of a subtree.
pub type RefNode = Option<Box<Node>>;

/// A node of the expression tree, the owner of its children.
#[derive(Debug)]
pub struct Node {
    pub kind: NodeKind,
    pub val: Token,
    pub left: RefNode,
    pub right: RefNode,
}

/// The mathematical value of a [`Node`].
pub struct SpecNode {
    pub kind: NodeKind,
    pub val: SpecToken,
    pub left: Option<Box<SpecNode>>,
    pub right: Option<Box<SpecNode>>,
}

/// The mathematical value of a child slot.
pub open spec fn slot_view(slot: RefNode) -> Option<Box<SpecNode>>
    decreases slot,
{
    match slot {
        Some(node) => Some(Box::new(node_view(*node))),
        None => None,
    }
}

/// The mathematical value of a node.
pub open spec fn node_view(node: Node) -> SpecNode
    decreases node,
{
    SpecNode {
        kind: node.kind,
        val: node.val@,
        left: slot_view(node.left),
        right: slot_view(node.right),
    }
}

impl View for Node {
    type V = SpecNode;

    open spec fn view(&self) -> SpecNode {
        node_view(*self)
    }
}

impl Clone for Node {
    fn clone(&self) -> (r: Self)
        ensures
            r@ == self@,
        decreases self,
    {
        let left = match &self.left {
            Some(node) => Some(Box::new((**node).clone())),
            None => None,
        };
        let right = match &self.right {
            Some(node) => Some(Box::new((**node).clone())),
            None => None,
        };
        Node { kind: self.kind, val: self.val.clone(), left, right }
    }
}

impl Node {
    /// A node with the given kind, token and children.
    pub fn new(kind: NodeKind, val: Token, left: RefNode, right: RefNode) -> (r: Self)
        ensures
            r == (Node { kind, val, left, right }),
    {
        Node { kind, val, left, right }
    }
}

/// A leaf that holds the given token.
pub open spec fn leaf(val: SpecToken) -> SpecNode {
    SpecNode { kind: NodeKind::Operand, val, left: None, right: None }
}

/// An operator node over two subtrees.
pub open spec fn branch(val: SpecToken, left: SpecNode, right: SpecNode) -> SpecNode {
    SpecNode {
        kind: NodeKind::BinOp,
        val,
        left: Some(Box::new(left)),
        right: Some(Box::new(right)),
    }
}

/// Whether the tree keeps the shape that each kind of node asks for: an
/// operand has no children, an operator node has both, a unary node has a
/// right child only, and no node is invalid.
pub open spec fn well_formed(tree: SpecNode) -> bool
    decreases tree,
{
    match tree.kind {
        NodeKind::Operand => tree.left is None && tree.right is None,
        NodeKind::BinOp => {
            &&& tree.left matches Some(left) && well_formed(*left)
            &&& tree.right matches Some(right) && well_formed(*right)
        },
        NodeKind::UnaryOp => {
            &&& tree.left is None
            &&& tree.right matches Some(right) && well_formed(*right)
        },
        NodeKind::Invalid => false,
    }
}

/// Whether the tree has a value: every operand holds a number, and every
/// operator node holds one of `+ - * /` and has both children, which have
/// values themselves. No other kind of node has a value.
pub open spec fn evaluable(tree: SpecNode) -> bool
    decreases tree,
{
    match tree.kind {
        NodeKind::Operand => tree.val is Num,
        NodeKind::BinOp => {
            &&& tree.val.operator() is Some
            &&& tree.left matches Some(left) && evaluable(*left)
            &&& tree.right matches Some(right) && evaluable(*right)
        },
        _ => false,
    }
}

/// Whether `number` may return `value` for a literal with the given text.
pub open spec fn reads_as<N, C: Fn(&Literal) -> N>(text: Seq<char>, number: C, value: N) -> bool {
    exists|literal: Literal| literal@ == text && call_ensures(number, (&literal,), value)
}

/// Whether the tree may evaluate to `value` under the given arithmetic: an
/// operand to what `number` reads its literal as, an operator node to what
/// `apply` makes of the values of its left and right subtrees.
pub open spec fn evaluates<N, C: Fn(&Literal) -> N, A: Fn(Operator, N, N) -> N>(
    tree: SpecNode,
    number: C,
    apply: A,
    value: N,
) -> bool
    decreases tree,
{
    match tree.kind {
        NodeKind::Operand => tree.val matches SpecToken::Num(text) && reads_as(text, number, value),
        NodeKind::BinOp => match (tree.val.operator(), tree.left, tree.right) {
            (Some(op), Some(left), Some(right)) => exists|a: N, b: N|
                {
                    &&& evaluates(*left, number, apply, a)
                    &&& evaluates(*right, number, apply, b)
                    &&& call_ensures(apply, (op, a, b), value)
                },
            _ => false,
        },
        _ => false,
    }
}

/// An expression tree.
#[derive(Debug)]
pub struct AST {
    pub root: Box<Node>,
}

impl View for AST {
    type V = SpecNode;

    open spec fn view(&self) -> SpecNode {
        self.root@
    }
}

impl AST {
    /// The value of the tree under the given arithmetic, or `None` if the
    /// tree has no value.
    pub fn eval<N, C: Fn(&Literal) -> N, A: Fn(Operator, N, N) -> N>(
        &self,
        number: &C,
        apply: &A,
    ) -> (r: Option<N>)
        requires
            forall|literal: Literal| call_requires(*number, (&literal,)),
            forall|op: Operator, a: N, b: N| call_requires(*apply, (op, a, b)),
        ensures
            r is Some <==> evaluable(self@),
            r matches Some(value) ==> evaluates(self@, *number, *apply, value),
    {
        Self::compute_tree(Some(&*self.root), number, apply)
    }

    /// Combines two values under the operator that `bin_op` stands for.
    /// `None` if it stands for none.
    pub fn eval_expr<N, A: Fn(Operator, N, N) -> N>(
        left_val: N,
        bin_op: &Token,
        right_val: N,
        apply: &A,
    ) -> (r: Option<N>)
        requires
            forall|op: Operator, a: N, b: N| call_requires(*apply, (op, a, b)),
        ensures
            (match bin_op@.operator() {
                Some(op) => r matches Some(value) && call_ensures(
                    *apply,
                    (op, left_val, right_val),
                    value,
                ),
                None => r is None,
            }),
    {
        match bin_op.operator() {
            Some(op) => Some(apply(op, left_val, right_val)),
            None => None,
        }
    }

    /// Folds the subtree in a child slot, the left subtree before the right
    /// one. `None` for an empty slot and for a subtree that has no value.
    pub fn compute_tree<N, C: Fn(&Literal) -> N, A: Fn(Operator, N, N) -> N>(
        parent: Option<&Node>,
        number: &C,
        apply: &A,
    ) -> (r: Option<N>)
        requires
            forall|literal: Literal| call_requires(*number, (&literal,)),
            forall|op: Operator, a: N, b: N| call_requires(*apply, (op, a, b)),
        ensures
            r is Some <==> (parent matches Some(node) && evaluable(node@)),
            r matches Some(value) ==> (parent matches Some(node) && evaluates(
                node@,
                *number,
                *apply,
                value,
            )),
        decreases parent,
    {
        let node = match parent {
            Some(node) => node,
            None => {
                return None;
            },
        };
        match node.kind {
            NodeKind::BinOp => {
                let left = match &node.left {
                    Some(child) => Self::compute_tree(Some(&**child), number, apply),
                    None => None,
                };
                let left = match left {
                    Some(value) => value,
                    None => {
                        return None;
                    },
                };
                let right = match &node.right {
                    Some(child) => Self::compute_tree(Some(&**child), number, apply),
                    None => None,
                };
                let right = match right {
                    Some(value) => value,
                    None => {
                        return None;
                    },
                };
                Self::eval_expr(left, &node.val, right, apply)
            },
            NodeKind::Operand => match get_node_val(node) {
                Some(literal) => Some(number(literal)),
                None => None,
            },
            _ => None,
        }
    }
}

/// The literal of a node that holds a number.
pub fn get_node_val(n: &Node) -> (r: Option<&Literal>)
    ensures
        (match r {
            Some(literal) => n.val == Token::Num(*literal),
            None => !(n.val is Num),
        }),
{
    match &n.val {
        Token::Num(number) => Some(number),
        _ => None,
    }
}

} // verus!
