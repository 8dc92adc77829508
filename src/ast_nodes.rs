//! The syntax tree: one variant per production of the JSON grammar. Nodes
//! own copies of the tokens they were built from.
use vstd::prelude::*;

use crate::token::{LiteralModel, Token, TokenLiteral, TokenModel};

verus! {

broadcast use vstd::std_specs::vec::group_vec_axioms;

#[derive(Debug, PartialEq)]
pub enum AstNode {
    /// `{`, the members, `}`.
    Object(Token, Vec<AstNode>, Token),
    /// The key, `:`, the value.
    Member(Token, Token, Box<AstNode>),
    /// `[`, the values, `]`.
    Array(Token, Vec<AstNode>, Token),
    /// A string, number, boolean or null.
    Value(TokenLiteral),
}

/// The mathematical value of an `AstNode`.
pub enum Tree {
    Object(TokenModel, Seq<Tree>, TokenModel),
    Member(TokenModel, TokenModel, Box<Tree>),
    Array(TokenModel, Seq<Tree>, TokenModel),
    Value(LiteralModel),
}

/// The model of a node.
pub open spec fn tree_of(n: &AstNode) -> Tree
    decreases n,
{
    match n {
        AstNode::Object(o, ms, c) => Tree::Object(
            o@,
            Seq::new(
                ms.len() as nat,
                |i: int|
                    if 0 <= i < ms.len() {
                        tree_of(&ms[i])
                    } else {
                        Tree::Value(LiteralModel::Null)
                    },
            ),
            c@,
        ),
        AstNode::Member(k, c, v) => Tree::Member(k@, c@, Box::new(tree_of(v))),
        AstNode::Array(o, vs, c) => Tree::Array(
            o@,
            Seq::new(
                vs.len() as nat,
                |i: int|
                    if 0 <= i < vs.len() {
                        tree_of(&vs[i])
                    } else {
                        Tree::Value(LiteralModel::Null)
                    },
            ),
            c@,
        ),
        AstNode::Value(l) => Tree::Value(l@),
    }
}

/// The models of a sequence of nodes.
pub open spec fn trees_of(v: Seq<AstNode>) -> Seq<Tree> {
    Seq::new(v.len(), |i: int| tree_of(&v[i]))
}

impl View for AstNode {
    type V = Tree;

    open spec fn view(&self) -> Tree {
        tree_of(self)
    }
}

} // verus!
