//! Recursive-descent parser: consumes a token sequence and builds an
//! expression tree under a fixed operator-precedence grammar, lowest to
//! highest binding power:
//!
//! expression  -> equality
//! equality    -> comparison ( ( "!=" | "==" ) comparison )*
//! comparison  -> term ( ( ">" | ">=" | "<" | "<=" ) term )*
//! term        -> factor ( ( "-" | "+" ) factor )*
//! factor      -> unary ( ( "/" | "*" ) unary )*
//! unary       -> ( "!" | "-" ) unary | primary
//! primary     -> NUMBER | STRING | "true" | "false" | "nil" | "(" expression ")"
//!
//! Each binary level folds a left-associative node per operator; `unary` is
//! right-associative. On a parse error the parser synchronizes to the next
//! statement boundary and resumes, so one invocation can report several
//! independent faults.
use vstd::prelude::*;
use crate::expression::Expression;
use crate::expression::LiteralValue as AstLiteral;
use crate::scanner::LiteralValue;
use crate::scanner::Token;
use crate::scanner::TokenType;

verus! {

/// A syntax diagnostic.
#[derive(Debug)]
pub enum ParseError {
    /// A token that cannot start an expression stood where one was needed.
    ExpectedExpression { found: Token },
    /// A `(` group was not closed by `)`.
    UnmatchedParenthesis { line: usize },
}

/// Operators of the `equality` level.
pub open spec fn equality_op(t: TokenType) -> bool {
    t == TokenType::BangEqual || t == TokenType::EqualEqual
}

/// Operators of the `comparison` level.
pub open spec fn comparison_op(t: TokenType) -> bool {
    t == TokenType::Greater || t == TokenType::GreaterEqual || t == TokenType::Less || t == TokenType::LessEqual
}

/// Operators of the `term` level.
pub open spec fn term_op(t: TokenType) -> bool {
    t == TokenType::Minus || t == TokenType::Plus
}

/// Operators of the `factor` level.
pub open spec fn factor_op(t: TokenType) -> bool {
    t == TokenType::Slash || t == TokenType::Star
}

/// Clamps a successor position into `[lo, toks.len()]`. The parsing model
/// below only moves forward and stays within bounds, so every use is the
/// identity; the clamp lets each recursion measure decrease on its own.
pub open spec fn clip_pos(toks: Seq<Token>, lo: int, j: int) -> int {
    if j < lo {
        lo
    } else if j > toks.len() {
        toks.len() as int
    } else {
        j
    }
}

/// The payload of a number token: its literal text, or its lexeme for a
/// token built without a payload.
pub open spec fn number_payload(t: Token) -> String {
    match t.literal {
        Some(LiteralValue::NumberValue(s)) => s,
        _ => t.lexeme,
    }
}

/// The payload of a string token: its literal text (quotes stripped), or its
/// lexeme for a token built without a payload.
pub open spec fn string_payload(t: Token) -> String {
    match t.literal {
        Some(LiteralValue::StringValue(s)) => s,
        _ => t.lexeme,
    }
}

/// The line of the token at `j`, for a diagnostic.
pub open spec fn error_line(toks: Seq<Token>, j: int) -> usize {
    if 0 <= j < toks.len() {
        toks[j].line_number
    } else {
        0
    }
}

/// Result of one grammar level at one position: the expression built or the
/// diagnostic raised, and the position reached.
pub open spec fn parse_expression_at(toks: Seq<Token>, i: int) -> (Result<Expression, ParseError>, int)
    decreases toks.len() - i, 12int,
{
    if !(0 <= i < toks.len()) {
        (Err(ParseError::UnmatchedParenthesis { line: 0 }), i)
    } else {
        parse_equality_at(toks, i)
    }
}

pub open spec fn parse_equality_at(toks: Seq<Token>, i: int) -> (Result<Expression, ParseError>, int)
    decreases toks.len() - i, 11int,
{
    if !(0 <= i < toks.len()) {
        (Err(ParseError::UnmatchedParenthesis { line: 0 }), i)
    } else {
        let pr = parse_comparison_at(toks, i);
        match pr.0 {
            Ok(e) => parse_equality_more(toks, clip_pos(toks, i, pr.1), e),
            Err(e) => (Err(e), pr.1),
        }
    }
}

/// Folds further `!=` / `==` operands onto `acc`, left-associatively.
pub open spec fn parse_equality_more(toks: Seq<Token>, i: int, acc: Expression) -> (Result<
    Expression,
    ParseError,
>, int)
    decreases toks.len() - i, 10int,
{
    if !(0 <= i < toks.len()) {
        (Ok(acc), i)
    } else if equality_op(toks[i].token_type) {
        let op = toks[i];
        let pr = parse_comparison_at(toks, i + 1);
        match pr.0 {
            Ok(right) => parse_equality_more(
                toks,
                clip_pos(toks, i + 1, pr.1),
                Expression::Binary { left: Box::new(acc), operator: op, right: Box::new(right) },
            ),
            Err(e) => (Err(e), pr.1),
        }
    } else {
        (Ok(acc), i)
    }
}

pub open spec fn parse_comparison_at(toks: Seq<Token>, i: int) -> (Result<Expression, ParseError>, int)
    decreases toks.len() - i, 9int,
{
    if !(0 <= i < toks.len()) {
        (Err(ParseError::UnmatchedParenthesis { line: 0 }), i)
    } else {
        let pr = parse_term_at(toks, i);
        match pr.0 {
            Ok(e) => parse_comparison_more(toks, clip_pos(toks, i, pr.1), e),
            Err(e) => (Err(e), pr.1),
        }
    }
}

/// Folds further `>` / `>=` / `<` / `<=` operands onto `acc`.
pub open spec fn parse_comparison_more(toks: Seq<Token>, i: int, acc: Expression) -> (Result<
    Expression,
    ParseError,
>, int)
    decreases toks.len() - i, 8int,
{
    if !(0 <= i < toks.len()) {
        (Ok(acc), i)
    } else if comparison_op(toks[i].token_type) {
        let op = toks[i];
        let pr = parse_term_at(toks, i + 1);
        match pr.0 {
            Ok(right) => parse_comparison_more(
                toks,
                clip_pos(toks, i + 1, pr.1),
                Expression::Binary { left: Box::new(acc), operator: op, right: Box::new(right) },
            ),
            Err(e) => (Err(e), pr.1),
        }
    } else {
        (Ok(acc), i)
    }
}

pub open spec fn parse_term_at(toks: Seq<Token>, i: int) -> (Result<Expression, ParseError>, int)
    decreases toks.len() - i, 7int,
{
    if !(0 <= i < toks.len()) {
        (Err(ParseError::UnmatchedParenthesis { line: 0 }), i)
    } else {
        let pr = parse_factor_at(toks, i);
        match pr.0 {
            Ok(e) => parse_term_more(toks, clip_pos(toks, i, pr.1), e),
            Err(e) => (Err(e), pr.1),
        }
    }
}

/// Folds further `-` / `+` operands onto `acc`.
pub open spec fn parse_term_more(toks: Seq<Token>, i: int, acc: Expression) -> (Result<Expression, ParseError>, int)
    decreases toks.len() - i, 6int,
{
    if !(0 <= i < toks.len()) {
        (Ok(acc), i)
    } else if term_op(toks[i].token_type) {
        let op = toks[i];
        let pr = parse_factor_at(toks, i + 1);
        match pr.0 {
            Ok(right) => parse_term_more(
                toks,
                clip_pos(toks, i + 1, pr.1),
                Expression::Binary { left: Box::new(acc), operator: op, right: Box::new(right) },
            ),
            Err(e) => (Err(e), pr.1),
        }
    } else {
        (Ok(acc), i)
    }
}

pub open spec fn parse_factor_at(toks: Seq<Token>, i: int) -> (Result<Expression, ParseError>, int)
    decreases toks.len() - i, 5int,
{
    if !(0 <= i < toks.len()) {
        (Err(ParseError::UnmatchedParenthesis { line: 0 }), i)
    } else {
        let pr = parse_unary_at(toks, i);
        match pr.0 {
            Ok(e) => parse_factor_more(toks, clip_pos(toks, i, pr.1), e),
            Err(e) => (Err(e), pr.1),
        }
    }
}

/// Folds further `/` / `*` operands onto `acc`.
pub open spec fn parse_factor_more(toks: Seq<Token>, i: int, acc: Expression) -> (Result<
    Expression,
    ParseError,
>, int)
    decreases toks.len() - i, 4int,
{
    if !(0 <= i < toks.len()) {
        (Ok(acc), i)
    } else if factor_op(toks[i].token_type) {
        let op = toks[i];
        let pr = parse_unary_at(toks, i + 1);
        match pr.0 {
            Ok(right) => parse_factor_more(
                toks,
                clip_pos(toks, i + 1, pr.1),
                Expression::Binary { left: Box::new(acc), operator: op, right: Box::new(right) },
            ),
            Err(e) => (Err(e), pr.1),
        }
    } else {
        (Ok(acc), i)
    }
}

/// `unary` is right-associative: a leading `!` or `-` recurses into itself.
pub open spec fn parse_unary_at(toks: Seq<Token>, i: int) -> (Result<Expression, ParseError>, int)
    decreases toks.len() - i, 3int,
{
    if !(0 <= i < toks.len()) {
        (Err(ParseError::UnmatchedParenthesis { line: 0 }), i)
    } else if toks[i].token_type == TokenType::Bang || toks[i].token_type == TokenType::Minus {
        let op = toks[i];
        let pr = parse_unary_at(toks, i + 1);
        match pr.0 {
            Ok(right) => (Ok(Expression::Unary { operator: op, right: Box::new(right) }), pr.1),
            Err(e) => (Err(e), pr.1),
        }
    } else {
        parse_primary_at(toks, i)
    }
}

/// The only level that can fail on a single token: a literal, a boolean or
/// nil keyword, or a parenthesized subexpression that must be closed.
pub open spec fn parse_primary_at(toks: Seq<Token>, i: int) -> (Result<Expression, ParseError>, int)
    decreases toks.len() - i, 2int,
{
    if !(0 <= i < toks.len()) {
        (Err(ParseError::UnmatchedParenthesis { line: 0 }), i)
    } else {
        let t = toks[i];
        match t.token_type {
            TokenType::False => (Ok(Expression::Literal { value: AstLiteral::False }), i + 1),
            TokenType::True => (Ok(Expression::Literal { value: AstLiteral::True }), i + 1),
            TokenType::Nil => (Ok(Expression::Literal { value: AstLiteral::Nil }), i + 1),
            TokenType::Number => (
                Ok(Expression::Literal { value: AstLiteral::Number(number_payload(t)) }),
                i + 1,
            ),
            TokenType::StringLit => (
                Ok(Expression::Literal { value: AstLiteral::StringValue(string_payload(t)) }),
                i + 1,
            ),
            TokenType::LeftParen => {
                let pr = parse_expression_at(toks, i + 1);
                match pr.0 {
                    Ok(inner) => if 0 <= pr.1 < toks.len() && toks[pr.1].token_type == TokenType::RightParen {
                        (Ok(Expression::Grouping { expr: Box::new(inner) }), pr.1 + 1)
                    } else {
                        (Err(ParseError::UnmatchedParenthesis { line: error_line(toks, pr.1) }), pr.1)
                    },
                    Err(e) => (Err(e), pr.1),
                }
            },
            _ => (Err(ParseError::ExpectedExpression { found: t }), i),
        }
    }
}

/// A token kind that can start a new construct: a safe place to resume after
/// a parse fault.
pub open spec fn statement_start(t: TokenType) -> bool {
    ||| t == TokenType::Class
    ||| t == TokenType::Fun
    ||| t == TokenType::Var
    ||| t == TokenType::For
    ||| t == TokenType::If
    ||| t == TokenType::While
    ||| t == TokenType::Print
    ||| t == TokenType::Return
}

/// A position at which synchronization stops: just past a `;`, at a keyword
/// that can start a construct, or at end of input.
pub open spec fn sync_stop(toks: Seq<Token>, k: int) -> bool {
    ||| (k >= 1 && 0 <= k - 1 < toks.len() && toks[k - 1].token_type == TokenType::Semicolon)
    ||| (0 <= k < toks.len() && statement_start(toks[k].token_type))
    ||| (0 <= k < toks.len() && toks[k].token_type == TokenType::Eof)
}

pub open spec fn sync_from(toks: Seq<Token>, k: int) -> int
    decreases toks.len() - k,
{
    if !(0 <= k < toks.len()) {
        toks.len() as int
    } else if sync_stop(toks, k) {
        k
    } else {
        sync_from(toks, k + 1)
    }
}

/// Synchronization from `i`: stays put at end of input, otherwise discards
/// at least one token and stops at the next statement boundary.
pub open spec fn sync_pos(toks: Seq<Token>, i: int) -> int {
    if !(0 <= i < toks.len()) {
        i
    } else if toks[i].token_type == TokenType::Eof {
        i
    } else {
        sync_from(toks, i + 1)
    }
}

/// Diagnostics produced by recovery rounds after a first fault at `i`:
/// synchronize, then re-parse, until end of input.
pub open spec fn recover_errors(toks: Seq<Token>, i: int) -> Seq<ParseError>
    decreases toks.len() - i,
{
    if !(0 <= i < toks.len()) {
        Seq::empty()
    } else if toks[i].token_type == TokenType::Eof {
        Seq::empty()
    } else {
        let s = clip_pos(toks, i + 1, sync_pos(toks, i));
        if !(0 <= s < toks.len()) {
            Seq::empty()
        } else if toks[s].token_type == TokenType::Eof {
            Seq::empty()
        } else {
            let pr = parse_expression_at(toks, s);
            let nxt = clip_pos(toks, s, pr.1);
            match pr.0 {
                Ok(_) => recover_errors(toks, nxt),
                Err(e) => seq![e] + recover_errors(toks, nxt),
            }
        }
    }
}

/// The parser's overall outcome at `i`: the expression, or every diagnostic
/// the parse and its recovery rounds raised, in order.
pub open spec fn parse_outcome(toks: Seq<Token>, i: int) -> Result<Expression, Seq<ParseError>> {
    let pr = parse_expression_at(toks, i);
    match pr.0 {
        Ok(e) => Ok(e),
        Err(e) => Err(seq![e] + recover_errors(toks, clip_pos(toks, i, pr.1))),
    }
}

/// Every operator held by a node of the tree is one that the grammar rule
/// building such nodes recognizes: a binary node carries an equality,
/// comparison, term or factor operator, a unary node carries `!` or `-`.
pub open spec fn operators_well_formed(e: Expression) -> bool
    decreases e,
{
    match e {
        Expression::Binary { left, operator, right } => {
            &&& (equality_op(operator.token_type) || comparison_op(operator.token_type) || term_op(
                operator.token_type,
            ) || factor_op(operator.token_type))
            &&& operators_well_formed(*left)
            &&& operators_well_formed(*right)
        },
        Expression::Grouping { expr } => operators_well_formed(*expr),
        Expression::Literal { value } => true,
        Expression::Unary { operator, right } => {
            &&& (operator.token_type == TokenType::Bang || operator.token_type == TokenType::Minus)
            &&& operators_well_formed(*right)
        },
    }
}

proof fn lemma_expression_operators(toks: Seq<Token>, i: int)
    ensures
        match parse_expression_at(toks, i).0 {
            Ok(e) => operators_well_formed(e),
            Err(_) => true,
        },
    decreases toks.len() - i, 12int,
{
    if 0 <= i < toks.len() {
        lemma_equality_operators(toks, i);
    }
}

proof fn lemma_equality_operators(toks: Seq<Token>, i: int)
    ensures
        match parse_equality_at(toks, i).0 {
            Ok(e) => operators_well_formed(e),
            Err(_) => true,
        },
    decreases toks.len() - i, 11int,
{
    if 0 <= i < toks.len() {
        lemma_comparison_operators(toks, i);
        let pr = parse_comparison_at(toks, i);
        match pr.0 {
            Ok(e) => {
                lemma_equality_more_operators(toks, clip_pos(toks, i, pr.1), e);
            },
            Err(_) => {},
        }
    }
}

proof fn lemma_equality_more_operators(toks: Seq<Token>, i: int, acc: Expression)
    requires
        operators_well_formed(acc),
    ensures
        match parse_equality_more(toks, i, acc).0 {
            Ok(e) => operators_well_formed(e),
            Err(_) => true,
        },
    decreases toks.len() - i, 10int,
{
    if 0 <= i < toks.len() && equality_op(toks[i].token_type) {
        lemma_comparison_operators(toks, i + 1);
        let pr = parse_comparison_at(toks, i + 1);
        match pr.0 {
            Ok(right) => {
                let acc2 = Expression::Binary {
                    left: Box::new(acc),
                    operator: toks[i],
                    right: Box::new(right),
                };
                lemma_equality_more_operators(toks, clip_pos(toks, i + 1, pr.1), acc2);
            },
            Err(_) => {},
        }
    }
}

proof fn lemma_comparison_operators(toks: Seq<Token>, i: int)
    ensures
        match parse_comparison_at(toks, i).0 {
            Ok(e) => operators_well_formed(e),
            Err(_) => true,
        },
    decreases toks.len() - i, 9int,
{
    if 0 <= i < toks.len() {
        lemma_term_operators(toks, i);
        let pr = parse_term_at(toks, i);
        match pr.0 {
            Ok(e) => {
                lemma_comparison_more_operators(toks, clip_pos(toks, i, pr.1), e);
            },
            Err(_) => {},
        }
    }
}

proof fn lemma_comparison_more_operators(toks: Seq<Token>, i: int, acc: Expression)
    requires
        operators_well_formed(acc),
    ensures
        match parse_comparison_more(toks, i, acc).0 {
            Ok(e) => operators_well_formed(e),
            Err(_) => true,
        },
    decreases toks.len() - i, 8int,
{
    if 0 <= i < toks.len() && comparison_op(toks[i].token_type) {
        lemma_term_operators(toks, i + 1);
        let pr = parse_term_at(toks, i + 1);
        match pr.0 {
            Ok(right) => {
                let acc2 = Expression::Binary {
                    left: Box::new(acc),
                    operator: toks[i],
                    right: Box::new(right),
                };
                lemma_comparison_more_operators(toks, clip_pos(toks, i + 1, pr.1), acc2);
            },
            Err(_) => {},
        }
    }
}

proof fn lemma_term_operators(toks: Seq<Token>, i: int)
    ensures
        match parse_term_at(toks, i).0 {
            Ok(e) => operators_well_formed(e),
            Err(_) => true,
        },
    decreases toks.len() - i, 7int,
{
    if 0 <= i < toks.len() {
        lemma_factor_operators(toks, i);
        let pr = parse_factor_at(toks, i);
        match pr.0 {
            Ok(e) => {
                lemma_term_more_operators(toks, clip_pos(toks, i, pr.1), e);
            },
            Err(_) => {},
        }
    }
}

proof fn lemma_term_more_operators(toks: Seq<Token>, i: int, acc: Expression)
    requires
        operators_well_formed(acc),
    ensures
        match parse_term_more(toks, i, acc).0 {
            Ok(e) => operators_well_formed(e),
            Err(_) => true,
        },
    decreases toks.len() - i, 6int,
{
    if 0 <= i < toks.len() && term_op(toks[i].token_type) {
        lemma_factor_operators(toks, i + 1);
        let pr = parse_factor_at(toks, i + 1);
        match pr.0 {
            Ok(right) => {
                let acc2 = Expression::Binary {
                    left: Box::new(acc),
                    operator: toks[i],
                    right: Box::new(right),
                };
                lemma_term_more_operators(toks, clip_pos(toks, i + 1, pr.1), acc2);
            },
            Err(_) => {},
        }
    }
}

proof fn lemma_factor_operators(toks: Seq<Token>, i: int)
    ensures
        match parse_factor_at(toks, i).0 {
            Ok(e) => operators_well_formed(e),
            Err(_) => true,
        },
    decreases toks.len() - i, 5int,
{
    if 0 <= i < toks.len() {
        lemma_unary_operators(toks, i);
        let pr = parse_unary_at(toks, i);
        match pr.0 {
            Ok(e) => {
                lemma_factor_more_operators(toks, clip_pos(toks, i, pr.1), e);
            },
            Err(_) => {},
        }
    }
}

proof fn lemma_factor_more_operators(toks: Seq<Token>, i: int, acc: Expression)
    requires
        operators_well_formed(acc),
    ensures
        match parse_factor_more(toks, i, acc).0 {
            Ok(e) => operators_well_formed(e),
            Err(_) => true,
        },
    decreases toks.len() - i, 4int,
{
    if 0 <= i < toks.len() && factor_op(toks[i].token_type) {
        lemma_unary_operators(toks, i + 1);
        let pr = parse_unary_at(toks, i + 1);
        match pr.0 {
            Ok(right) => {
                let acc2 = Expression::Binary {
                    left: Box::new(acc),
                    operator: toks[i],
                    right: Box::new(right),
                };
                lemma_factor_more_operators(toks, clip_pos(toks, i + 1, pr.1), acc2);
            },
            Err(_) => {},
        }
    }
}

proof fn lemma_unary_operators(toks: Seq<Token>, i: int)
    ensures
        match parse_unary_at(toks, i).0 {
            Ok(e) => operators_well_formed(e),
            Err(_) => true,
        },
    decreases toks.len() - i, 3int,
{
    if 0 <= i < toks.len() {
        if toks[i].token_type == TokenType::Bang || toks[i].token_type == TokenType::Minus {
            lemma_unary_operators(toks, i + 1);
        } else {
            lemma_primary_operators(toks, i);
        }
    }
}

proof fn lemma_primary_operators(toks: Seq<Token>, i: int)
    ensures
        match parse_primary_at(toks, i).0 {
            Ok(e) => operators_well_formed(e),
            Err(_) => true,
        },
    decreases toks.len() - i, 2int,
{
    if 0 <= i < toks.len() {
        if toks[i].token_type == TokenType::LeftParen {
            lemma_expression_operators(toks, i + 1);
        }
    }
}

/// A tree the parser hands out never holds an operator its grammar rule does
/// not recognize: the node invariant the parser is responsible for.
pub proof fn lemma_parse_operators(toks: Seq<Token>, i: int)
    ensures
        match parse_outcome(toks, i) {
            Ok(e) => operators_well_formed(e),
            Err(_) => true,
        },
{
    lemma_expression_operators(toks, i);
}

/// The parser: owns the token list and a cursor that only moves forward and
/// never passes the end-of-input token.
pub struct Parser {
    tokens: Vec<Token>,
    current: usize,
}

impl Parser {
    /// The token list under parse.
    pub closed spec fn toks(&self) -> Seq<Token> {
        self.tokens@
    }

    /// The cursor.
    pub closed spec fn pos(&self) -> int {
        self.current as int
    }

    /// Internal well-formedness: the token list ends with an end-of-input
    /// token and the cursor stays strictly inside the list.
    pub closed spec fn wf(&self) -> bool {
        &&& self.tokens@.len() >= 1
        &&& self.tokens@[self.tokens@.len() - 1].token_type == TokenType::Eof
        &&& self.current < self.tokens@.len()
    }

    pub fn new(tokens: Vec<Token>) -> (r: Parser)
        requires
            tokens@.len() >= 1,
            tokens@[tokens@.len() - 1].token_type == TokenType::Eof,
        ensures
            r.wf(),
            r.toks() == tokens@,
            r.pos() == 0,
    {
        Parser { tokens, current: 0 }
    }

    /// The kind of the token under the cursor.
    fn peek_type(&self) -> (t: TokenType)
        requires
            self.wf(),
        ensures
            t == self.toks()[self.pos()].token_type,
    {
        self.tokens[self.current].token_type
    }

    /// The token under the cursor.
    fn peek(&self) -> (t: Token)
        requires
            self.wf(),
        ensures
            t == self.toks()[self.pos()],
    {
        self.tokens[self.current].clone()
    }

    /// The token just consumed.
    fn previous(&self) -> (t: Token)
        requires
            self.wf(),
            self.pos() >= 1,
        ensures
            t == self.toks()[self.pos() - 1],
    {
        self.tokens[self.current - 1].clone()
    }

    /// Whether the cursor rests on the end-of-input token.
    fn is_at_end(&self) -> (r: bool)
        requires
            self.wf(),
        ensures
            r == (self.toks()[self.pos()].token_type == TokenType::Eof),
    {
        self.peek_type() == TokenType::Eof
    }

    /// Consumes the token under the cursor when its kind is `t`; a
    /// non-consuming comparison otherwise. Never consumes the end-of-input
    /// token, so the comparison at end of input is always negative.
    pub fn match_token(&mut self, t: TokenType) -> (r: bool)
        requires
            old(self).wf(),
        ensures
            final(self).wf(),
            final(self).toks() == old(self).toks(),
            r == (old(self).toks()[old(self).pos()].token_type != TokenType::Eof
                && old(self).toks()[old(self).pos()].token_type == t),
            final(self).pos() == (if r {
                old(self).pos() + 1
            } else {
                old(self).pos()
            }),
    {
        if self.is_at_end() {
            return false;
        }
        let n = self.tokens.len();
        if self.tokens[self.current].token_type == t {
            assert(self.current as int != n as int - 1);
            self.current = self.current + 1;
            true
        } else {
            false
        }
    }

    /// Returns the token under the cursor and moves forward, except at the
    /// end-of-input token, which is never consumed.
    fn advance(&mut self) -> (t: Token)
        requires
            old(self).wf(),
        ensures
            final(self).wf(),
            final(self).toks() == old(self).toks(),
            t == old(self).toks()[old(self).pos()],
            final(self).pos() == (if old(self).toks()[old(self).pos()].token_type != TokenType::Eof {
                old(self).pos() + 1
            } else {
                old(self).pos()
            }),
    {
        let t = self.peek();
        if !self.is_at_end() {
            let n = self.tokens.len();
            assert(self.current as int != n as int - 1);
            self.current = self.current + 1;
        }
        t
    }

    fn expression(&mut self) -> (r: Result<Expression, ParseError>)
        requires
            old(self).wf(),
        ensures
            final(self).wf(),
            final(self).toks() == old(self).toks(),
            old(self).pos() <= final(self).pos(),
            r == parse_expression_at(old(self).toks(), old(self).pos()).0,
            final(self).pos() == parse_expression_at(old(self).toks(), old(self).pos()).1,
        decreases self.tokens@.len() - self.current, 12int,
    {
        self.equality()
    }

    fn equality(&mut self) -> (r: Result<Expression, ParseError>)
        requires
            old(self).wf(),
        ensures
            final(self).wf(),
            final(self).toks() == old(self).toks(),
            old(self).pos() <= final(self).pos(),
            r == parse_equality_at(old(self).toks(), old(self).pos()).0,
            final(self).pos() == parse_equality_at(old(self).toks(), old(self).pos()).1,
        decreases self.tokens@.len() - self.current, 11int,
    {
        let ghost toks = self.tokens@;
        let ghost i0 = self.pos();
        let first = self.comparison();
        let mut expr = match first {
            Ok(e) => e,
            Err(e) => {
                return Err(e);
            },
        };
        loop
            invariant
                self.wf(),
                self.tokens@ == toks,
                toks == old(self).tokens@,
                i0 == old(self).pos(),
                0 <= i0 <= self.pos(),
                parse_equality_at(toks, i0) == parse_equality_more(toks, self.pos(), expr),
            decreases toks.len() - self.pos(),
        {
            let m1 = self.match_token(TokenType::BangEqual);
            let matched = if m1 {
                true
            } else {
                self.match_token(TokenType::EqualEqual)
            };
            if !matched {
                return Ok(expr);
            }
            let op = self.previous();
            let nxt = self.comparison();
            match nxt {
                Ok(right) => {
                    expr = Expression::Binary { left: Box::new(expr), operator: op, right: Box::new(right) };
                },
                Err(e) => {
                    return Err(e);
                },
            }
        }
    }

    fn comparison(&mut self) -> (r: Result<Expression, ParseError>)
        requires
            old(self).wf(),
        ensures
            final(self).wf(),
            final(self).toks() == old(self).toks(),
            old(self).pos() <= final(self).pos(),
            r == parse_comparison_at(old(self).toks(), old(self).pos()).0,
            final(self).pos() == parse_comparison_at(old(self).toks(), old(self).pos()).1,
        decreases self.tokens@.len() - self.current, 9int,
    {
        let ghost toks = self.tokens@;
        let ghost i0 = self.pos();
        let first = self.term();
        let mut expr = match first {
            Ok(e) => e,
            Err(e) => {
                return Err(e);
            },
        };
        loop
            invariant
                self.wf(),
                self.tokens@ == toks,
                toks == old(self).tokens@,
                i0 == old(self).pos(),
                0 <= i0 <= self.pos(),
                parse_comparison_at(toks, i0) == parse_comparison_more(toks, self.pos(), expr),
            decreases toks.len() - self.pos(),
        {
            let m1 = self.match_token(TokenType::Greater);
            let m2 = if m1 {
                true
            } else {
                self.match_token(TokenType::GreaterEqual)
            };
            let m3 = if m2 {
                true
            } else {
                self.match_token(TokenType::Less)
            };
            let matched = if m3 {
                true
            } else {
                self.match_token(TokenType::LessEqual)
            };
            if !matched {
                return Ok(expr);
            }
            let op = self.previous();
            let nxt = self.term();
            match nxt {
                Ok(right) => {
                    expr = Expression::Binary { left: Box::new(expr), operator: op, right: Box::new(right) };
                },
                Err(e) => {
                    return Err(e);
                },
            }
        }
    }

    fn term(&mut self) -> (r: Result<Expression, ParseError>)
        requires
            old(self).wf(),
        ensures
            final(self).wf(),
            final(self).toks() == old(self).toks(),
            old(self).pos() <= final(self).pos(),
            r == parse_term_at(old(self).toks(), old(self).pos()).0,
            final(self).pos() == parse_term_at(old(self).toks(), old(self).pos()).1,
        decreases self.tokens@.len() - self.current, 7int,
    {
        let ghost toks = self.tokens@;
        let ghost i0 = self.pos();
        let first = self.factor();
        let mut expr = match first {
            Ok(e) => e,
            Err(e) => {
                return Err(e);
            },
        };
        loop
            invariant
                self.wf(),
                self.tokens@ == toks,
                toks == old(self).tokens@,
                i0 == old(self).pos(),
                0 <= i0 <= self.pos(),
                parse_term_at(toks, i0) == parse_term_more(toks, self.pos(), expr),
            decreases toks.len() - self.pos(),
        {
            let m1 = self.match_token(TokenType::Minus);
            let matched = if m1 {
                true
            } else {
                self.match_token(TokenType::Plus)
            };
            if !matched {
                return Ok(expr);
            }
            let op = self.previous();
            let nxt = self.factor();
            match nxt {
                Ok(right) => {
                    expr = Expression::Binary { left: Box::new(expr), operator: op, right: Box::new(right) };
                },
                Err(e) => {
                    return Err(e);
                },
            }
        }
    }

    fn factor(&mut self) -> (r: Result<Expression, ParseError>)
        requires
            old(self).wf(),
        ensures
            final(self).wf(),
            final(self).toks() == old(self).toks(),
            old(self).pos() <= final(self).pos(),
            r == parse_factor_at(old(self).toks(), old(self).pos()).0,
            final(self).pos() == parse_factor_at(old(self).toks(), old(self).pos()).1,
        decreases self.tokens@.len() - self.current, 5int,
    {
        let ghost toks = self.tokens@;
        let ghost i0 = self.pos();
        let first = self.unary();
        let mut expr = match first {
            Ok(e) => e,
            Err(e) => {
                return Err(e);
            },
        };
        loop
            invariant
                self.wf(),
                self.tokens@ == toks,
                toks == old(self).tokens@,
                i0 == old(self).pos(),
                0 <= i0 <= self.pos(),
                parse_factor_at(toks, i0) == parse_factor_more(toks, self.pos(), expr),
            decreases toks.len() - self.pos(),
        {
            let m1 = self.match_token(TokenType::Slash);
            let matched = if m1 {
                true
            } else {
                self.match_token(TokenType::Star)
            };
            if !matched {
                return Ok(expr);
            }
            let op = self.previous();
            let nxt = self.unary();
            match nxt {
                Ok(right) => {
                    expr = Expression::Binary { left: Box::new(expr), operator: op, right: Box::new(right) };
                },
                Err(e) => {
                    return Err(e);
                },
            }
        }
    }

    fn unary(&mut self) -> (r: Result<Expression, ParseError>)
        requires
            old(self).wf(),
        ensures
            final(self).wf(),
            final(self).toks() == old(self).toks(),
            old(self).pos() <= final(self).pos(),
            r == parse_unary_at(old(self).toks(), old(self).pos()).0,
            final(self).pos() == parse_unary_at(old(self).toks(), old(self).pos()).1,
        decreases self.tokens@.len() - self.current, 3int,
    {
        let m1 = self.match_token(TokenType::Bang);
        let matched = if m1 {
            true
        } else {
            self.match_token(TokenType::Minus)
        };
        if matched {
            let op = self.previous();
            let nxt = self.unary();
            match nxt {
                Ok(right) => Ok(Expression::Unary { operator: op, right: Box::new(right) }),
                Err(e) => Err(e),
            }
        } else {
            self.primary()
        }
    }

    fn primary(&mut self) -> (r: Result<Expression, ParseError>)
        requires
            old(self).wf(),
        ensures
            final(self).wf(),
            final(self).toks() == old(self).toks(),
            old(self).pos() <= final(self).pos(),
            r == parse_primary_at(old(self).toks(), old(self).pos()).0,
            final(self).pos() == parse_primary_at(old(self).toks(), old(self).pos()).1,
        decreases self.tokens@.len() - self.current, 2int,
    {
        let t = self.peek();
        match t.token_type {
            TokenType::False => {
                self.advance();
                Ok(Expression::Literal { value: AstLiteral::False })
            },
            TokenType::True => {
                self.advance();
                Ok(Expression::Literal { value: AstLiteral::True })
            },
            TokenType::Nil => {
                self.advance();
                Ok(Expression::Literal { value: AstLiteral::Nil })
            },
            TokenType::Number => {
                self.advance();
                let payload = match &t.literal {
                    Some(LiteralValue::NumberValue(s)) => s.clone(),
                    _ => t.lexeme.clone(),
                };
                Ok(Expression::Literal { value: AstLiteral::Number(payload) })
            },
            TokenType::StringLit => {
                self.advance();
                let payload = match &t.literal {
                    Some(LiteralValue::StringValue(s)) => s.clone(),
                    _ => t.lexeme.clone(),
                };
                Ok(Expression::Literal { value: AstLiteral::StringValue(payload) })
            },
            TokenType::LeftParen => {
                self.advance();
                let inner = match self.expression() {
                    Ok(e) => e,
                    Err(e) => {
                        return Err(e);
                    },
                };
                if self.peek_type() == TokenType::RightParen {
                    self.advance();
                    Ok(Expression::Grouping { expr: Box::new(inner) })
                } else {
                    let line = self.tokens[self.current].line_number;
                    Err(ParseError::UnmatchedParenthesis { line })
                }
            },
            _ => Err(ParseError::ExpectedExpression { found: t }),
        }
    }

    fn at_sync_stop(&self) -> (r: bool)
        requires
            self.wf(),
            self.pos() >= 1,
        ensures
            r == sync_stop(self.toks(), self.pos()),
    {
        if self.tokens[self.current - 1].token_type == TokenType::Semicolon {
            return true;
        }
        match self.tokens[self.current].token_type {
            TokenType::Class => true,
            TokenType::Fun => true,
            TokenType::Var => true,
            TokenType::For => true,
            TokenType::If => true,
            TokenType::While => true,
            TokenType::Print => true,
            TokenType::Return => true,
            TokenType::Eof => true,
            _ => false,
        }
    }

    /// Discards tokens until the next statement boundary or end of input, so
    /// one fault does not cascade into one diagnostic per token.
    fn synchronize(&mut self)
        requires
            old(self).wf(),
        ensures
            final(self).wf(),
            final(self).toks() == old(self).toks(),
            old(self).pos() <= final(self).pos(),
            final(self).pos() == sync_pos(old(self).toks(), old(self).pos()),
            old(self).toks()[old(self).pos()].token_type != TokenType::Eof
                ==> old(self).pos() < final(self).pos(),
    {
        let ghost toks = self.tokens@;
        if self.is_at_end() {
            return;
        }
        let n = self.tokens.len();
        assert(self.current as int != n as int - 1);
        self.current = self.current + 1;
        let ghost k0 = self.pos();
        while !self.at_sync_stop()
            invariant
                self.wf(),
                self.tokens@ == toks,
                toks == old(self).tokens@,
                1 <= k0 <= self.pos(),
                sync_from(toks, k0) == sync_from(toks, self.pos()),
            decreases toks.len() - self.pos(),
        {
            let n2 = self.tokens.len();
            assert(self.current as int != n2 as int - 1);
            self.current = self.current + 1;
        }
    }

    /// Parses one expression from the token list. On a fault, synchronizes
    /// and re-parses until end of input, returning every diagnostic raised,
    /// in order; the faulty input yields no tree.
    pub fn parse(&mut self) -> (r: Result<Expression, Vec<ParseError>>)
        requires
            old(self).wf(),
        ensures
            final(self).wf(),
            final(self).toks() == old(self).toks(),
            (match (r, parse_outcome(old(self).toks(), old(self).pos())) {
                (Ok(e), Ok(se)) => e == se,
                (Err(v), Err(se)) => v@ == se,
                _ => false,
            }),
            (match r {
                Ok(e) => operators_well_formed(e),
                Err(_) => true,
            }),
    {
        let ghost toks = self.tokens@;
        let ghost i0 = self.pos();
        proof {
            lemma_parse_operators(toks, i0);
        }
        let first = self.expression();
        let e0 = match first {
            Ok(e) => {
                return Ok(e);
            },
            Err(e) => e,
        };
        let mut errors: Vec<ParseError> = Vec::new();
        errors.push(e0);
        proof {
            assert(errors@ + recover_errors(toks, self.pos()) =~= seq![errors@[0]] + recover_errors(
                toks,
                self.pos(),
            ));
        }
        loop
            invariant
                self.wf(),
                self.tokens@ == toks,
                toks == old(self).tokens@,
                i0 == old(self).pos(),
                parse_outcome(toks, i0) == Err::<Expression, Seq<ParseError>>(
                    errors@ + recover_errors(toks, self.pos()),
                ),
            decreases toks.len() - self.pos(),
        {
            if self.is_at_end() {
                proof {
                    assert(errors@ + recover_errors(toks, self.pos()) =~= errors@);
                }
                return Err(errors);
            }
            self.synchronize();
            if self.is_at_end() {
                proof {
                    assert(errors@ + recover_errors(toks, self.pos()) =~= errors@);
                }
                return Err(errors);
            }
            let ghost p0 = self.pos();
            let ghost errs0 = errors@;
            let res = self.expression();
            match res {
                Ok(_) => {},
                Err(e) => {
                    let ghost ev = e;
                    errors.push(e);
                    proof {
                        assert(errors@ + recover_errors(toks, self.pos()) =~= errs0 + (seq![ev]
                            + recover_errors(toks, self.pos())));
                    }
                },
            }
        }
    }
}

} // verus!
