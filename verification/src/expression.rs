//! Expression AST produced by the parser, and its textual rendering.
use vstd::prelude::*;
use vstd::string::StringExecFns;
use crate::scanner::Token;

verus! {

/// Literal value held by a leaf of the AST. Numbers keep their exact decimal
/// text; booleans and nil come from the `true` / `false` / `nil` keywords.
#[derive(Debug)]
pub enum LiteralValue {
    Number(String),
    StringValue(String),
    True,
    False,
    Nil,
}

/// Canonical textual form of a literal: `nil`, `true`, `false`, or the
/// literal's own text.
pub open spec fn literal_text(v: LiteralValue) -> Seq<char> {
    match v {
        LiteralValue::Number(s) => s@,
        LiteralValue::StringValue(s) => s@,
        LiteralValue::True => "true"@,
        LiteralValue::False => "false"@,
        LiteralValue::Nil => "nil"@,
    }
}

impl LiteralValue {
    pub fn to_string(&self) -> (r: String)
        ensures
            r@ == literal_text(*self),
    {
        match self {
            LiteralValue::Number(s) => s.clone(),
            LiteralValue::StringValue(s) => s.clone(),
            LiteralValue::True => "true".to_owned(),
            LiteralValue::False => "false".to_owned(),
            LiteralValue::Nil => "nil".to_owned(),
        }
    }
}

/// An expression tree: each non-leaf node exclusively owns its children.
#[derive(Debug)]
pub enum Expression {
    Binary { left: Box<Expression>, operator: Token, right: Box<Expression> },
    Grouping { expr: Box<Expression> },
    Literal { value: LiteralValue },
    Unary { operator: Token, right: Box<Expression> },
}

/// Rendering of an expression in prefix notation: a binary or unary node as
/// its operator's lexeme followed by its children, a grouping as
/// `(group inner)`, a literal as its canonical text.
pub open spec fn expr_text(e: Expression) -> Seq<char>
    decreases e,
{
    match e {
        Expression::Binary { left, operator, right } => operator.lexeme@ + " "@ + expr_text(*left) + " "@
            + expr_text(*right),
        Expression::Grouping { expr } => "(group "@ + expr_text(*expr) + ")"@,
        Expression::Literal { value } => literal_text(value),
        Expression::Unary { operator, right } => operator.lexeme@ + " "@ + expr_text(*right),
    }
}

impl Expression {
    /// Pure fold over the tree producing its textual rendering.
    pub fn to_string(&self) -> (r: String)
        ensures
            r@ == expr_text(*self),
        decreases *self,
    {
        match self {
            Expression::Binary { left, operator, right } => {
                let mut s = operator.lexeme.clone();
                s.append(" ");
                let l = left.to_string();
                s.append(l.as_str());
                s.append(" ");
                let rt = right.to_string();
                s.append(rt.as_str());
                s
            },
            Expression::Grouping { expr } => {
                let mut s = "(group ".to_owned();
                let inner = expr.to_string();
                s.append(inner.as_str());
                s.append(")");
                s
            },
            Expression::Literal { value } => value.to_string(),
            Expression::Unary { operator, right } => {
                let mut s = operator.lexeme.clone();
                s.append(" ");
                let rt = right.to_string();
                s.append(rt.as_str());
                s
            },
        }
    }
}

} // verus!
