use vstd::prelude::*;

verus! {

/// Half-open `[start, end)` range of source offsets, attached to every token
/// by the lexer and to every AST node by the parser.
#[derive(Clone, Copy, PartialEq, Eq, Structural, Debug)]
pub struct Span {
    pub start: usize,
    pub end: usize,
}

/// A parsed node paired with the span it was built from.
pub type Spanned<T> = (T, Span);

/// Lexical tokens, produced by an external lexer together with their spans.
/// The lexer is assumed total: it covers the whole source and reports its own
/// lexical errors, so the parser never sees raw text.
#[derive(PartialEq, Eq, Debug)]
pub enum Token {
    Ident(String),
    Integer(i64),
    /// Bit pattern of a floating-point literal. The grammar only carries the
    /// literal through; numeric meaning is a later stage's concern.
    Float(u64),
    True,
    False,
    LiteralString(String),
    /// A literal pair of integers denoting a range, written in the source.
    Span(Span),
    QuestionMark,
    Lparen,
    Rparen,
    Lbracket,
    Rbracket,
    Comma,
    Period,
    Mul,
    Div,
    Add,
    Sub,
    And,
    Or,
    Xor,
    Eq,
    Neq,
    Gt,
    Lt,
    Newline,
}

/// Arithmetic operators; product operators bind tighter than sum operators.
#[derive(Clone, Copy, PartialEq, Eq, Structural, Debug)]
pub enum MathOp {
    Add,
    Sub,
    Mul,
    Div,
}

/// Logical operators, all at one precedence level.
#[derive(Clone, Copy, PartialEq, Eq, Structural, Debug)]
pub enum BinaryOp {
    And,
    Or,
    Xor,
}

/// Comparison operators, all at one precedence level.
#[derive(Clone, Copy, PartialEq, Eq, Structural, Debug)]
pub enum ComparisonOp {
    Eq,
    Neq,
    Gt,
    Lt,
}

/// A numeric literal as the lexer tagged it: the grammar never re-reads text.
#[derive(Clone, Copy, PartialEq, Eq, Structural, Debug)]
pub enum Number {
    Int(i64),
    /// Bit pattern of the lexer's floating-point literal, carried unchanged.
    Float(u64),
}

/// Leaf data carried by `Expression::Value`.
#[derive(PartialEq, Debug)]
pub enum Value {
    Number(Number),
    Bool(bool),
    String(String),
    /// A span literal: a pair of offsets written in the source as data.
    Span(usize, usize),
    /// An atom suffixed with `?`, marked optional at the grammar level.
    Option(Box<Expression>),
}

/// The abstract syntax tree. Recursive children are single-owner boxed nodes:
/// strictly tree-shaped, no sharing, no cycles.
#[derive(PartialEq, Debug)]
pub enum Expression {
    Ident(String),
    Value(Value),
    FunctionCall(Box<Spanned<Expression>>, Vec<Spanned<Expression>>),
    MethodCall(Box<Spanned<Expression>>, String, Vec<Spanned<Expression>>),
    MathOp(Box<Spanned<Expression>>, MathOp, Box<Spanned<Expression>>),
    Binary(Box<Spanned<Expression>>, BinaryOp, Box<Spanned<Expression>>),
    Comparison(Box<Spanned<Expression>>, ComparisonOp, Box<Spanned<Expression>>),
    /// Sentinel for a region that failed to parse and was skipped by recovery.
    /// A later stage must not re-validate such a subtree, only not crash on it.
    ParserError,
}

/// What a diagnostic reports, per the error taxonomy of the grammar.
#[derive(Clone, Copy, PartialEq, Eq, Structural, Debug)]
pub enum DiagnosticKind {
    /// The current token matched none of the alternatives expected here.
    UnexpectedToken,
    /// An opening bracket whose matching close never came before end-of-input.
    UnterminatedBracket,
    /// A bracket pair balanced, but its interior failed to parse.
    MalformedBracketContent,
    /// The input nests brackets beyond the supported depth; the parse is
    /// refused with this diagnostic rather than risking stack exhaustion.
    NestingTooDeep,
}

/// What the parser was looking for at the point a diagnostic was raised,
/// the "expected one of" half of a rendered message.
#[derive(Clone, Copy, PartialEq, Eq, Structural, Debug)]
pub enum Expected {
    /// An expression was expected here.
    Expression,
    /// The closing bracket of an open construct was expected here.
    ClosingDelimiter,
    /// The end of the input was expected here.
    EndOfInput,
}

/// One diagnostic; a single parse can surface many, each with its own span.
/// `expected` and `found` carry the data a reporter needs to render
/// "expected ..., found X"; `found` is `None` at end of input.
#[derive(PartialEq, Eq, Debug)]
pub struct Diagnostic {
    pub span: Span,
    pub kind: DiagnosticKind,
    pub expected: Expected,
    pub found: Option<Token>,
}

} // verus!
