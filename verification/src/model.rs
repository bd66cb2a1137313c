use vstd::prelude::*;

use crate::ast::{BinaryOp, ComparisonOp, Expression, MathOp, Number, Span, Spanned, Token,
    Value};

verus! {

/// Mathematical mirror of `Value`: identical except that recursion goes
/// through the ghost tree.
pub enum GValue {
    Number(Number),
    Bool(bool),
    String(String),
    Span(usize, usize),
    Option(Box<GExpr>),
}

/// Mathematical mirror of `Expression`, with `Seq` in place of `Vec` so that
/// spec functions can build and take apart argument lists.
pub enum GExpr {
    Ident(String),
    Value(GValue),
    FunctionCall(Box<(GExpr, Span)>, Seq<(GExpr, Span)>),
    MethodCall(Box<(GExpr, Span)>, String, Seq<(GExpr, Span)>),
    MathOp(Box<(GExpr, Span)>, MathOp, Box<(GExpr, Span)>),
    Binary(Box<(GExpr, Span)>, BinaryOp, Box<(GExpr, Span)>),
    Comparison(Box<(GExpr, Span)>, ComparisonOp, Box<(GExpr, Span)>),
    ParserError,
}

pub type GSpanned = (GExpr, Span);

/// Abstraction of an executable node into the ghost tree.
pub open spec fn view_expr(e: Expression) -> GExpr
    decreases e, 1int,
{
    match e {
        Expression::Ident(s) => GExpr::Ident(s),
        Expression::Value(v) => GExpr::Value(view_value(v)),
        Expression::FunctionCall(f, args) => GExpr::FunctionCall(
            Box::new(view_spanned(*f)),
            view_args(args@),
        ),
        Expression::MethodCall(r, name, args) => GExpr::MethodCall(
            Box::new(view_spanned(*r)),
            name,
            view_args(args@),
        ),
        Expression::MathOp(a, op, b) => GExpr::MathOp(
            Box::new(view_spanned(*a)),
            op,
            Box::new(view_spanned(*b)),
        ),
        Expression::Binary(a, op, b) => GExpr::Binary(
            Box::new(view_spanned(*a)),
            op,
            Box::new(view_spanned(*b)),
        ),
        Expression::Comparison(a, op, b) => GExpr::Comparison(
            Box::new(view_spanned(*a)),
            op,
            Box::new(view_spanned(*b)),
        ),
        Expression::ParserError => GExpr::ParserError,
    }
}

pub open spec fn view_value(v: Value) -> GValue
    decreases v, 1int,
{
    match v {
        Value::Number(n) => GValue::Number(n),
        Value::Bool(b) => GValue::Bool(b),
        Value::String(s) => GValue::String(s),
        Value::Span(a, b) => GValue::Span(a, b),
        Value::Option(e) => GValue::Option(Box::new(view_expr(*e))),
    }
}

pub open spec fn view_spanned(p: Spanned<Expression>) -> GSpanned
    decreases p, 2int,
{
    (view_expr(p.0), p.1)
}

pub open spec fn view_args(s: Seq<Spanned<Expression>>) -> Seq<GSpanned>
    decreases s, 3int,
{
    if s.len() == 0 {
        Seq::empty()
    } else {
        view_args(s.subrange(0, s.len() - 1)).push(view_spanned(s[s.len() - 1]))
    }
}

/// The lexer's input contract: each token's span is a well-formed half-open
/// range, and token spans never overlap and never run backwards.
pub open spec fn tokens_wf(t: Seq<(Token, Span)>) -> bool {
    &&& forall|i: int| 0 <= i < t.len() ==> (#[trigger] t[i]).1.start <= t[i].1.end
    &&& forall|i: int, j: int|
        0 <= i < j < t.len() ==> (#[trigger] t[i]).1.end <= (#[trigger] t[j]).1.start
}

pub open spec fn span_inside(outer: Span, inner: Span) -> bool {
    outer.start <= inner.start && inner.end <= outer.end
}

/// Exact span bookkeeping of composite nodes: an operator node's span is the
/// union of its children's spans; a call or method-call node starts where its
/// receiver starts (its end also covers the closing bracket of the last
/// argument list, so only containment is demanded of it).
pub open spec fn span_anchor(e: GExpr, s: Span) -> bool {
    match e {
        GExpr::FunctionCall(f, args) => (*f).1.start == s.start,
        GExpr::MethodCall(r, name, args) => (*r).1.start == s.start,
        GExpr::MathOp(a, op, b) => (*a).1.start == s.start && (*b).1.end == s.end
            && (*a).1.end <= (*b).1.start,
        GExpr::Binary(a, op, b) => (*a).1.start == s.start && (*b).1.end == s.end
            && (*a).1.end <= (*b).1.start,
        GExpr::Comparison(a, op, b) => (*a).1.start == s.start && (*b).1.end == s.end
            && (*a).1.end <= (*b).1.start,
        _ => true,
    }
}

/// Every spanned child of `e` lies inside `s` and is itself well-spanned.
pub open spec fn children_well_spanned(e: GExpr, s: Span) -> bool
    decreases e, 0int,
{
    match e {
        GExpr::Ident(name) => true,
        GExpr::ParserError => true,
        GExpr::Value(v) => match v {
            GValue::Option(inner) => children_well_spanned(*inner, s),
            _ => true,
        },
        GExpr::FunctionCall(f, args) => {
            &&& well_spanned((*f).0, (*f).1)
            &&& span_inside(s, (*f).1)
            &&& forall|i: int| 0 <= i < args.len() ==> well_spanned(
                (#[trigger] args[i]).0,
                args[i].1,
            ) && span_inside(s, args[i].1)
        },
        GExpr::MethodCall(r, name, args) => {
            &&& well_spanned((*r).0, (*r).1)
            &&& span_inside(s, (*r).1)
            &&& forall|i: int| 0 <= i < args.len() ==> well_spanned(
                (#[trigger] args[i]).0,
                args[i].1,
            ) && span_inside(s, args[i].1)
        },
        GExpr::MathOp(a, op, b) => well_spanned((*a).0, (*a).1) && span_inside(s, (*a).1)
            && well_spanned((*b).0, (*b).1) && span_inside(s, (*b).1),
        GExpr::Binary(a, op, b) => well_spanned((*a).0, (*a).1) && span_inside(s, (*a).1)
            && well_spanned((*b).0, (*b).1) && span_inside(s, (*b).1),
        GExpr::Comparison(a, op, b) => well_spanned((*a).0, (*a).1) && span_inside(s, (*a).1)
            && well_spanned((*b).0, (*b).1) && span_inside(s, (*b).1),
    }
}

/// The span law of the tree: every node's span runs forwards, every child's
/// span lies inside its parent's, and composite spans are anchored to their
/// children as `span_anchor` states.
pub open spec fn well_spanned(e: GExpr, s: Span) -> bool
    decreases e, 1int,
{
    s.start <= s.end && span_anchor(e, s) && children_well_spanned(e, s)
}

/// The span of a node parsed from tokens `pos .. p` lies within the source
/// region those tokens cover.
pub open spec fn span_in_region(t: Seq<(Token, Span)>, pos: int, p: int, s: Span) -> bool {
    t[pos].1.start <= s.start && s.end <= t[p - 1].1.end
}

} // verus!
