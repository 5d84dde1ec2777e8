//! The shapes of expression trees built from tokens.

use vstd::prelude::*;

use crate::token::Token;
use crate::visitors::Visitor;

verus! {

pub enum Expression {
    Literal(Literal),
    Unary(Box<Unary>),
    Binary(Box<Binary>),
    Grouping(Box<Grouping>),
}

impl Expression {
    /// Hands the node to the visitor method for its shape, and returns what
    /// that method returns.
    pub fn accept<R, V: Visitor<R>>(&self, visitor: &V) -> (r: R)
        ensures
            match *self {
                Expression::Literal(l) => visitor.literal_result(l, r),
                Expression::Unary(u) => visitor.unary_result(*u, r),
                Expression::Binary(b) => visitor.binary_result(*b, r),
                Expression::Grouping(g) => visitor.grouping_result(*g, r),
            },
    {
        match self {
            Expression::Literal(literal) => visitor.visit_literal(literal),
            Expression::Unary(unary) => visitor.visit_unary(unary),
            Expression::Binary(binary) => visitor.visit_binary(binary),
            Expression::Grouping(grouping) => visitor.visit_grouping(grouping),
        }
    }
}

pub struct Literal {
    pub value: Value,
}

pub struct Unary {
    pub operator: Token,
    pub right: Expression,
}

pub struct Binary {
    pub left: Expression,
    pub operator: Token,
    pub right: Expression,
}

pub struct Grouping {
    pub expression: Expression,
}

/// A literal value; a number is kept as the decimal numeral it was written as.
pub enum Value {
    Number(String),
    String(String),
    True,
    False,
    Nil,
}

} // verus!
