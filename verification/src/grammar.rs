use vstd::prelude::*;

use crate::ast::{BinaryOp, ComparisonOp, Diagnostic, DiagnosticKind, Expected, MathOp, Number,
    Span, Token};
use crate::model::{GExpr, GSpanned, GValue};

verus! {

// The grammar, stated as total mathematical functions over the token
// sequence. Each function takes the current position and returns the parsed
// node together with the position just past it, or `None` when its production
// does not match there. The executable parser is proved equal to these
// functions, so they are the single place where the grammar is written down.
//
// Every function that can re-enter the ladder carries a lexicographic
// `decreases` measure: remaining tokens first, then the rung of the ladder.
// A branch that would recurse without consuming a token is cut off by an
// explicit position check; the executable parser proves those branches are
// never taken.

pub open spec fn tok(t: Seq<(Token, Span)>, i: int) -> Token {
    t[i].0
}

pub open spec fn tsp(t: Seq<(Token, Span)>, i: int) -> Span {
    t[i].1
}

/// Source region covered by tokens `lo ..= hi`.
pub open spec fn region(t: Seq<(Token, Span)>, lo: int, hi: int) -> Span {
    Span { start: t[lo].1.start, end: t[hi].1.end }
}

/// Outcome of the delimiter-balancing scan of the recovery strategy.
pub enum GScan {
    /// The matching close was found; the position just past it.
    Found(int),
    /// End of input came before the matching close.
    Unterminated,
    /// A closing bracket of the wrong kind sits at the current depth.
    Mismatch,
}

/// Scan forward until every opener on `stack` has met its matching closer,
/// tracking nested pairs of both bracket kinds (`true` expects `)`, `false`
/// expects `]`).
pub open spec fn sp_scan(t: Seq<(Token, Span)>, pos: int, stack: Seq<bool>) -> GScan
    decreases t.len() - pos,
{
    if stack.len() == 0 {
        GScan::Found(pos)
    } else if !(0 <= pos && pos < t.len()) {
        GScan::Unterminated
    } else {
        match tok(t, pos) {
            Token::Lparen => sp_scan(t, pos + 1, stack.push(true)),
            Token::Lbracket => sp_scan(t, pos + 1, stack.push(false)),
            Token::Rparen => if stack.last() {
                sp_scan(t, pos + 1, stack.subrange(0, stack.len() - 1))
            } else {
                GScan::Mismatch
            },
            Token::Rbracket => if !stack.last() {
                sp_scan(t, pos + 1, stack.subrange(0, stack.len() - 1))
            } else {
                GScan::Mismatch
            },
            _ => sp_scan(t, pos + 1, stack),
        }
    }
}

/// The statement separator: a run of newline tokens, possibly empty.
pub open spec fn sp_skip_sep(t: Seq<(Token, Span)>, pos: int) -> int
    decreases t.len() - pos,
{
    if 0 <= pos && pos < t.len() && tok(t, pos) == Token::Newline {
        sp_skip_sep(t, pos + 1)
    } else {
        pos
    }
}

/// The composition seam: the expression grammar is wired, at its grouped
/// construct choice point, to an externally supplied block grammar. Block and
/// statement parsing are external collaborators of this core, so no block
/// grammar is wired in here and the seam never matches; the grouped construct
/// then falls through to the parenthesized-expression path.
pub open spec fn sp_block(t: Seq<(Token, Span)>, pos: int) -> Option<(GSpanned, int)> {
    None
}

/// A literal or identifier token as the smallest expression.
pub open spec fn sp_leaf(tk: Token) -> Option<GExpr> {
    match tk {
        Token::Ident(s) => Some(GExpr::Ident(s)),
        Token::Integer(v) => Some(GExpr::Value(GValue::Number(Number::Int(v)))),
        Token::Float(b) => Some(GExpr::Value(GValue::Number(Number::Float(b)))),
        Token::True => Some(GExpr::Value(GValue::Bool(true))),
        Token::False => Some(GExpr::Value(GValue::Bool(false))),
        Token::LiteralString(s) => Some(GExpr::Value(GValue::String(s))),
        Token::Span(sp) => Some(GExpr::Value(GValue::Span(sp.start, sp.end))),
        _ => None,
    }
}

pub open spec fn ident_of(tk: Token) -> Option<String> {
    match tk {
        Token::Ident(s) => Some(s),
        _ => None,
    }
}

/// A grouped construct at an opening `(`: first the externally supplied block
/// grammar, then a full sub-expression, between matching delimiters; the
/// group yields the inner node with the inner node's span. When neither
/// matches up to the closing delimiter, the recovery strategy takes over: the
/// balanced bracketed region becomes a single `ParserError` node, or one
/// running to end-of-input when the brackets never close.
#[verifier::opaque]
pub open spec fn sp_grouped(t: Seq<(Token, Span)>, pos: int) -> Option<(GSpanned, int)>
    decreases t.len() - pos, 0int,
{
    if !(0 <= pos && pos < t.len()) {
        None
    } else {
        let via_block = match sp_block(t, pos + 1) {
            Some((e, p)) => if p < t.len() && tok(t, p) == Token::Rparen {
                Some((e, p + 1))
            } else {
                None
            },
            None => None,
        };
        let attempt = match via_block {
            Some(r) => Some(r),
            None => match sp_expression(t, pos + 1) {
                Some((e, p)) => if p < t.len() && tok(t, p) == Token::Rparen {
                    Some((e, p + 1))
                } else {
                    None
                },
                None => None,
            },
        };
        match attempt {
            Some(r) => Some(r),
            None => match sp_scan(t, pos + 1, seq![true]) {
                GScan::Found(q) => Some(((GExpr::ParserError, region(t, pos, q - 1)), q)),
                GScan::Unterminated => Some(
                    ((GExpr::ParserError, region(t, pos, t.len() - 1)), t.len() as int),
                ),
                GScan::Mismatch => None,
            },
        }
    }
}

/// Atom: the smallest self-contained expression. A literal or identifier,
/// optionally rewrapped by a `?` suffix into an optional value; or a grouped
/// sub-expression; or, when a grouped construct opens but does not parse, a
/// `ParserError` node covering the skipped bracketed region.
#[verifier::opaque]
pub open spec fn sp_atom(t: Seq<(Token, Span)>, pos: int) -> Option<(GSpanned, int)>
    decreases t.len() - pos, 1int,
{
    if !(0 <= pos && pos < t.len()) {
        None
    } else {
        match sp_leaf(tok(t, pos)) {
            Some(leaf) => if pos + 1 < t.len() && tok(t, pos + 1) == Token::QuestionMark {
                Some(
                    ((GExpr::Value(GValue::Option(Box::new(leaf))), region(t, pos, pos + 1)), pos
                        + 2),
                )
            } else {
                Some(((leaf, tsp(t, pos)), pos + 1))
            },
            None => if tok(t, pos) == Token::Lparen {
                sp_grouped(t, pos)
            } else {
                None
            },
        }
    }
}

/// A possibly-empty, comma-separated sequence of expressions, each optionally
/// followed by the separator, with a trailing comma permitted. Never fails:
/// it collects as many elements as match.
#[verifier::opaque]
pub open spec fn sp_items(t: Seq<(Token, Span)>, pos: int) -> (Seq<GSpanned>, int)
    decreases t.len() - pos, 11int,
{
    if !(0 <= pos && pos < t.len()) {
        (Seq::<GSpanned>::empty(), pos)
    } else {
        match sp_expression(t, pos) {
            None => (Seq::<GSpanned>::empty(), pos),
            Some((e, p)) => if !(pos < p && p <= t.len()) {
                (Seq::<GSpanned>::empty(), pos)
            } else {
                let p2 = sp_skip_sep(t, p);
                if !(p <= p2 && p2 <= t.len()) {
                    (seq![e], p)
                } else if p2 < t.len() && tok(t, p2) == Token::Comma {
                    let rest = sp_items(t, p2 + 1);
                    (seq![e] + rest.0, rest.1)
                } else {
                    (seq![e], p2)
                }
            },
        }
    }
}

/// An argument list delimited by `( )`, with delimiter-aware recovery: when
/// the interior fails but the brackets balance, the whole list becomes a
/// single `ParserError` element covering the bracketed region. The returned
/// span covers the brackets themselves.
#[verifier::opaque]
pub open spec fn sp_list(t: Seq<(Token, Span)>, pos: int) -> Option<(Seq<GSpanned>, Span, int)>
    decreases t.len() - pos, 2int,
{
    if !(0 <= pos && pos < t.len() && tok(t, pos) == Token::Lparen) {
        None
    } else {
        let r = sp_items(t, pos + 1);
        if 0 <= r.1 && r.1 < t.len() && tok(t, r.1) == Token::Rparen {
            Some((r.0, region(t, pos, r.1), r.1 + 1))
        } else {
            match sp_scan(t, pos + 1, seq![true]) {
                GScan::Found(q) => Some(
                    (seq![(GExpr::ParserError, region(t, pos, q - 1))], region(t, pos, q - 1), q),
                ),
                GScan::Unterminated => Some(
                    (
                        seq![(GExpr::ParserError, region(t, pos, t.len() - 1))],
                        region(t, pos, t.len() - 1),
                        t.len() as int,
                    ),
                ),
                GScan::Mismatch => None,
            }
        }
    }
}

/// Left-fold of juxtaposed argument lists onto a callee: `f(a)(b)` becomes
/// `FunctionCall(FunctionCall(f, [a]), [b])`. The node's span runs from the
/// callee's start to the closing bracket of the folded list.
#[verifier::opaque]
pub open spec fn sp_call_fold(t: Seq<(Token, Span)>, lhs: GSpanned, pos: int) -> (GSpanned, int)
    decreases t.len() - pos, 3int,
{
    match sp_list(t, pos) {
        None => (lhs, pos),
        Some((args, aspan, p)) => if pos < p && p <= t.len() {
            sp_call_fold(
                t,
                (
                    GExpr::FunctionCall(Box::new(lhs), args),
                    Span { start: lhs.1.start, end: aspan.end },
                ),
                p,
            )
        } else {
            (lhs, pos)
        },
    }
}

/// Call layer: an atom with zero or more juxtaposed argument lists folded on.
#[verifier::opaque]
pub open spec fn sp_call(t: Seq<(Token, Span)>, pos: int) -> Option<(GSpanned, int)>
    decreases t.len() - pos, 4int,
{
    match sp_atom(t, pos) {
        None => None,
        Some((a, p)) => if pos < p && p <= t.len() {
            Some(sp_call_fold(t, a, p))
        } else {
            None
        },
    }
}

/// Method-call layer: after the call fold, at most one `.name(args)` suffix
/// is consumed, `args` defaulting to the empty sequence when no list follows.
/// Deeper chains rely on outer folds re-entering this layer.
#[verifier::opaque]
pub open spec fn sp_postfix(t: Seq<(Token, Span)>, pos: int) -> Option<(GSpanned, int)>
    decreases t.len() - pos, 5int,
{
    match sp_call(t, pos) {
        None => None,
        Some((c, p)) => if !(pos < p && p <= t.len()) {
            None
        } else {
            let p2 = sp_skip_sep(t, p);
            if !(p <= p2 && p2 <= t.len()) {
                Some((c, p))
            } else {
                let name = if p2 + 1 < t.len() && tok(t, p2) == Token::Period {
                    ident_of(tok(t, p2 + 1))
                } else {
                    None
                };
                match name {
                    Some(name) => match sp_list(t, p2 + 2) {
                        Some((args, aspan, p3)) => Some(
                            (
                                (
                                    GExpr::MethodCall(Box::new(c), name, args),
                                    Span { start: c.1.start, end: aspan.end },
                                ),
                                p3,
                            ),
                        ),
                        None => Some(
                            (
                                (
                                    GExpr::MethodCall(Box::new(c), name, Seq::<GSpanned>::empty()),
                                    Span { start: c.1.start, end: tsp(t, p2 + 1).end },
                                ),
                                p2 + 2,
                            ),
                        ),
                    },
                    None => Some((c, p)),
                }
            }
        },
    }
}

pub open spec fn product_op_of(tk: Token) -> Option<MathOp> {
    match tk {
        Token::Mul => Some(MathOp::Mul),
        Token::Div => Some(MathOp::Div),
        _ => None,
    }
}

pub open spec fn sum_op_of(tk: Token) -> Option<MathOp> {
    match tk {
        Token::Add => Some(MathOp::Add),
        Token::Sub => Some(MathOp::Sub),
        _ => None,
    }
}

pub open spec fn binary_op_of(tk: Token) -> Option<BinaryOp> {
    match tk {
        Token::And => Some(BinaryOp::And),
        Token::Or => Some(BinaryOp::Or),
        Token::Xor => Some(BinaryOp::Xor),
        _ => None,
    }
}

pub open spec fn comparison_op_of(tk: Token) -> Option<ComparisonOp> {
    match tk {
        Token::Eq => Some(ComparisonOp::Eq),
        Token::Neq => Some(ComparisonOp::Neq),
        Token::Gt => Some(ComparisonOp::Gt),
        Token::Lt => Some(ComparisonOp::Lt),
        _ => None,
    }
}

/// Left-fold of `*` and `/` over call terms: `a*b/c` leans left.
#[verifier::opaque]
pub open spec fn sp_product_fold(t: Seq<(Token, Span)>, lhs: GSpanned, pos: int) -> (GSpanned, int)
    decreases t.len() - pos, 0int,
{
    if !(0 <= pos && pos < t.len()) {
        (lhs, pos)
    } else {
        match product_op_of(tok(t, pos)) {
            None => (lhs, pos),
            Some(op) => match sp_call(t, pos + 1) {
                None => (lhs, pos),
                Some((rhs, p)) => if pos < p && p <= t.len() {
                    sp_product_fold(
                        t,
                        (
                            GExpr::MathOp(Box::new(lhs), op, Box::new(rhs)),
                            Span { start: lhs.1.start, end: rhs.1.end },
                        ),
                        p,
                    )
                } else {
                    (lhs, pos)
                },
            },
        }
    }
}

/// Product layer: a method-call-or-call term, then `*`/`/` folded left.
#[verifier::opaque]
pub open spec fn sp_product(t: Seq<(Token, Span)>, pos: int) -> Option<(GSpanned, int)>
    decreases t.len() - pos, 6int,
{
    match sp_postfix(t, pos) {
        None => None,
        Some((a, p)) => if pos < p && p <= t.len() {
            Some(sp_product_fold(t, a, p))
        } else {
            None
        },
    }
}

/// Left-fold of `+` and `-` over products: `1-2-3` leans left.
#[verifier::opaque]
pub open spec fn sp_sum_fold(t: Seq<(Token, Span)>, lhs: GSpanned, pos: int) -> (GSpanned, int)
    decreases t.len() - pos, 0int,
{
    if !(0 <= pos && pos < t.len()) {
        (lhs, pos)
    } else {
        match sum_op_of(tok(t, pos)) {
            None => (lhs, pos),
            Some(op) => match sp_product(t, pos + 1) {
                None => (lhs, pos),
                Some((rhs, p)) => if pos < p && p <= t.len() {
                    sp_sum_fold(
                        t,
                        (
                            GExpr::MathOp(Box::new(lhs), op, Box::new(rhs)),
                            Span { start: lhs.1.start, end: rhs.1.end },
                        ),
                        p,
                    )
                } else {
                    (lhs, pos)
                },
            },
        }
    }
}

/// Sum layer: products, then `+`/`-` folded left. Product binds strictly
/// tighter than sum; no operator of this grammar is right-associative.
#[verifier::opaque]
pub open spec fn sp_sum(t: Seq<(Token, Span)>, pos: int) -> Option<(GSpanned, int)>
    decreases t.len() - pos, 7int,
{
    match sp_product(t, pos) {
        None => None,
        Some((a, p)) => if pos < p && p <= t.len() {
            Some(sp_sum_fold(t, a, p))
        } else {
            None
        },
    }
}

/// Left-fold of `and`/`or`/`xor` over sums, all three at equal precedence.
#[verifier::opaque]
pub open spec fn sp_logical_fold(t: Seq<(Token, Span)>, lhs: GSpanned, pos: int) -> (GSpanned, int)
    decreases t.len() - pos, 0int,
{
    if !(0 <= pos && pos < t.len()) {
        (lhs, pos)
    } else {
        match binary_op_of(tok(t, pos)) {
            None => (lhs, pos),
            Some(op) => match sp_sum(t, pos + 1) {
                None => (lhs, pos),
                Some((rhs, p)) => if pos < p && p <= t.len() {
                    sp_logical_fold(
                        t,
                        (
                            GExpr::Binary(Box::new(lhs), op, Box::new(rhs)),
                            Span { start: lhs.1.start, end: rhs.1.end },
                        ),
                        p,
                    )
                } else {
                    (lhs, pos)
                },
            },
        }
    }
}

/// Logical layer: sums, then the logical operators folded left.
#[verifier::opaque]
pub open spec fn sp_logical(t: Seq<(Token, Span)>, pos: int) -> Option<(GSpanned, int)>
    decreases t.len() - pos, 8int,
{
    match sp_sum(t, pos) {
        None => None,
        Some((a, p)) => if pos < p && p <= t.len() {
            Some(sp_logical_fold(t, a, p))
        } else {
            None
        },
    }
}

/// Left-fold of the comparison operators over logical results, producing the
/// flat left-leaning chain: `a=b=c` becomes `Comparison(Comparison(a,Eq,b),Eq,c)`.
#[verifier::opaque]
pub open spec fn sp_comparison_fold(
    t: Seq<(Token, Span)>,
    lhs: GSpanned,
    pos: int,
) -> (GSpanned, int)
    decreases t.len() - pos, 0int,
{
    if !(0 <= pos && pos < t.len()) {
        (lhs, pos)
    } else {
        match comparison_op_of(tok(t, pos)) {
            None => (lhs, pos),
            Some(op) => match sp_logical(t, pos + 1) {
                None => (lhs, pos),
                Some((rhs, p)) => if pos < p && p <= t.len() {
                    sp_comparison_fold(
                        t,
                        (
                            GExpr::Comparison(Box::new(lhs), op, Box::new(rhs)),
                            Span { start: lhs.1.start, end: rhs.1.end },
                        ),
                        p,
                    )
                } else {
                    (lhs, pos)
                },
            },
        }
    }
}

/// Comparison layer: logical results, then the comparison operators folded left.
#[verifier::opaque]
pub open spec fn sp_comparison(t: Seq<(Token, Span)>, pos: int) -> Option<(GSpanned, int)>
    decreases t.len() - pos, 9int,
{
    match sp_logical(t, pos) {
        None => None,
        Some((a, p)) => if pos < p && p <= t.len() {
            Some(sp_comparison_fold(t, a, p))
        } else {
            None
        },
    }
}

/// A full expression: the top of the precedence ladder.
#[verifier::opaque]
pub open spec fn sp_expression(t: Seq<(Token, Span)>, pos: int) -> Option<(GSpanned, int)>
    decreases t.len() - pos, 10int,
{
    sp_comparison(t, pos)
}

/// The deepest bracket nesting the parser accepts. The descent recurses once
/// per bracket level, so inputs nested beyond this bound are refused up front
/// with a dedicated diagnostic instead of risking stack exhaustion.
pub const MAX_NESTING_DEPTH: usize = 256;

/// Whether the bracket nesting of the input, scanned left to right with the
/// running depth `cur`, ever passes `MAX_NESTING_DEPTH`. Unmatched closers
/// cannot drive the depth below zero.
pub open spec fn sp_too_deep(t: Seq<(Token, Span)>, pos: int, cur: int) -> bool
    decreases t.len() - pos,
{
    if !(0 <= pos && pos < t.len()) {
        false
    } else {
        match tok(t, pos) {
            Token::Lparen => if cur + 1 > MAX_NESTING_DEPTH as int {
                true
            } else {
                sp_too_deep(t, pos + 1, cur + 1)
            },
            Token::Lbracket => if cur + 1 > MAX_NESTING_DEPTH as int {
                true
            } else {
                sp_too_deep(t, pos + 1, cur + 1)
            },
            Token::Rparen => sp_too_deep(
                t,
                pos + 1,
                if cur > 0 {
                    cur - 1
                } else {
                    0
                },
            ),
            Token::Rbracket => sp_too_deep(
                t,
                pos + 1,
                if cur > 0 {
                    cur - 1
                } else {
                    0
                },
            ),
            _ => sp_too_deep(t, pos + 1, cur),
        }
    }
}

/// The whole parse: no tree only on empty input; otherwise a tree is always
/// produced — a single `ParserError` node over the whole input when the
/// nesting depth is refused or no expression matches at all.
pub open spec fn sp_parse(t: Seq<(Token, Span)>) -> Option<GSpanned> {
    if t.len() == 0 {
        None
    } else if sp_too_deep(t, 0, 0) {
        Some((GExpr::ParserError, region(t, 0, t.len() - 1)))
    } else {
        match sp_expression(t, 0) {
            Some((e, p)) => Some(e),
            None => Some((GExpr::ParserError, region(t, 0, t.len() - 1))),
        }
    }
}

// The diagnostics half of the grammar. Each function below states exactly
// which diagnostics the corresponding production emits, in order, including
// those of attempted alternatives that were later abandoned — a failed
// alternative's diagnostics are kept, never rolled back. The executable
// parser is proved to append exactly these to its diagnostics vector.

/// What the grouped-construct recovery found at the point the interior
/// stopped: the token where the close was expected, or the first interior
/// token when nothing parsed; `None` at end of input.
pub open spec fn sp_grouped_found(t: Seq<(Token, Span)>, pos: int) -> Option<Token> {
    match sp_expression(t, pos + 1) {
        Some((e, p)) => if p < t.len() {
            Some(tok(t, p))
        } else {
            None
        },
        None => if pos + 1 < t.len() {
            Some(tok(t, pos + 1))
        } else {
            None
        },
    }
}

/// What the grouped-construct recovery was looking for: the closing
/// delimiter when an interior expression did parse, an expression otherwise.
pub open spec fn sp_grouped_expected(t: Seq<(Token, Span)>, pos: int) -> Expected {
    match sp_expression(t, pos + 1) {
        Some(r) => Expected::ClosingDelimiter,
        None => Expected::Expression,
    }
}

/// Diagnostics of a grouped construct: those of the interior attempt, then
/// one recovery diagnostic when the happy path failed and the brackets
/// balance (or never close).
#[verifier::opaque]
pub open spec fn sp_grouped_diags(t: Seq<(Token, Span)>, pos: int) -> Seq<Diagnostic>
    decreases t.len() - pos, 0int,
{
    if !(0 <= pos && pos < t.len()) {
        Seq::<Diagnostic>::empty()
    } else {
        let ed = sp_expression_diags(t, pos + 1);
        let clean = match sp_expression(t, pos + 1) {
            Some((e, p)) => p < t.len() && tok(t, p) == Token::Rparen,
            None => false,
        };
        if clean {
            ed
        } else {
            match sp_scan(t, pos + 1, seq![true]) {
                GScan::Found(q) => ed + seq![
                    Diagnostic {
                        span: region(t, pos, q - 1),
                        kind: DiagnosticKind::MalformedBracketContent,
                        expected: sp_grouped_expected(t, pos),
                        found: sp_grouped_found(t, pos),
                    },
                ],
                GScan::Unterminated => ed + seq![
                    Diagnostic {
                        span: region(t, pos, t.len() - 1),
                        kind: DiagnosticKind::UnterminatedBracket,
                        expected: sp_grouped_expected(t, pos),
                        found: sp_grouped_found(t, pos),
                    },
                ],
                GScan::Mismatch => ed,
            }
        }
    }
}

/// Diagnostics of an atom: only its grouped-construct path can emit any.
#[verifier::opaque]
pub open spec fn sp_atom_diags(t: Seq<(Token, Span)>, pos: int) -> Seq<Diagnostic>
    decreases t.len() - pos, 1int,
{
    if !(0 <= pos && pos < t.len()) {
        Seq::<Diagnostic>::empty()
    } else {
        match sp_leaf(tok(t, pos)) {
            Some(leaf) => Seq::<Diagnostic>::empty(),
            None => if tok(t, pos) == Token::Lparen {
                sp_grouped_diags(t, pos)
            } else {
                Seq::<Diagnostic>::empty()
            },
        }
    }
}

/// Diagnostics of the item collector: those of every element parsed, and of
/// the final failed element attempt, in order.
#[verifier::opaque]
pub open spec fn sp_items_diags(t: Seq<(Token, Span)>, pos: int) -> Seq<Diagnostic>
    decreases t.len() - pos, 11int,
{
    if !(0 <= pos && pos < t.len()) {
        Seq::<Diagnostic>::empty()
    } else {
        let ed = sp_expression_diags(t, pos);
        match sp_expression(t, pos) {
            None => ed,
            Some((e, p)) => if !(pos < p && p <= t.len()) {
                ed
            } else {
                let p2 = sp_skip_sep(t, p);
                if !(p <= p2 && p2 <= t.len()) {
                    ed
                } else if p2 < t.len() && tok(t, p2) == Token::Comma {
                    ed + sp_items_diags(t, p2 + 1)
                } else {
                    ed
                }
            },
        }
    }
}

/// What the list recovery found where the closing bracket was expected.
pub open spec fn sp_list_found(t: Seq<(Token, Span)>, pos: int) -> Option<Token> {
    let r = sp_items(t, pos + 1);
    if 0 <= r.1 && r.1 < t.len() {
        Some(tok(t, r.1))
    } else {
        None
    }
}

/// Diagnostics of an argument list: those of its items, then one recovery
/// diagnostic when the closing bracket was not where the items ended.
#[verifier::opaque]
pub open spec fn sp_list_diags(t: Seq<(Token, Span)>, pos: int) -> Seq<Diagnostic>
    decreases t.len() - pos, 2int,
{
    if !(0 <= pos && pos < t.len() && tok(t, pos) == Token::Lparen) {
        Seq::<Diagnostic>::empty()
    } else {
        let id = sp_items_diags(t, pos + 1);
        let r = sp_items(t, pos + 1);
        if 0 <= r.1 && r.1 < t.len() && tok(t, r.1) == Token::Rparen {
            id
        } else {
            match sp_scan(t, pos + 1, seq![true]) {
                GScan::Found(q) => id + seq![
                    Diagnostic {
                        span: region(t, pos, q - 1),
                        kind: DiagnosticKind::MalformedBracketContent,
                        expected: Expected::ClosingDelimiter,
                        found: sp_list_found(t, pos),
                    },
                ],
                GScan::Unterminated => id + seq![
                    Diagnostic {
                        span: region(t, pos, t.len() - 1),
                        kind: DiagnosticKind::UnterminatedBracket,
                        expected: Expected::ClosingDelimiter,
                        found: sp_list_found(t, pos),
                    },
                ],
                GScan::Mismatch => id,
            }
        }
    }
}

/// Diagnostics of the call fold: each folded list's, and the failed final
/// list attempt's.
#[verifier::opaque]
pub open spec fn sp_call_fold_diags(t: Seq<(Token, Span)>, pos: int) -> Seq<Diagnostic>
    decreases t.len() - pos, 3int,
{
    let ld = sp_list_diags(t, pos);
    match sp_list(t, pos) {
        None => ld,
        Some((args, aspan, p)) => if pos < p && p <= t.len() {
            ld + sp_call_fold_diags(t, p)
        } else {
            ld
        },
    }
}

/// Diagnostics of the call layer: the atom's, then the fold's.
#[verifier::opaque]
pub open spec fn sp_call_diags(t: Seq<(Token, Span)>, pos: int) -> Seq<Diagnostic>
    decreases t.len() - pos, 4int,
{
    let ad = sp_atom_diags(t, pos);
    match sp_atom(t, pos) {
        None => ad,
        Some((a, p)) => if pos < p && p <= t.len() {
            ad + sp_call_fold_diags(t, p)
        } else {
            ad
        },
    }
}

/// Diagnostics of the method-call layer: the call's, then those of the
/// method's argument-list attempt when a `.name` suffix follows.
#[verifier::opaque]
pub open spec fn sp_postfix_diags(t: Seq<(Token, Span)>, pos: int) -> Seq<Diagnostic>
    decreases t.len() - pos, 5int,
{
    let cd = sp_call_diags(t, pos);
    match sp_call(t, pos) {
        None => cd,
        Some((c, p)) => if !(pos < p && p <= t.len()) {
            cd
        } else {
            let p2 = sp_skip_sep(t, p);
            if !(p <= p2 && p2 <= t.len()) {
                cd
            } else {
                let name = if p2 + 1 < t.len() && tok(t, p2) == Token::Period {
                    ident_of(tok(t, p2 + 1))
                } else {
                    None
                };
                match name {
                    Some(nm) => cd + sp_list_diags(t, p2 + 2),
                    None => cd,
                }
            }
        },
    }
}

/// Diagnostics of the product fold: each right operand's, including the
/// failed final attempt's.
#[verifier::opaque]
pub open spec fn sp_product_fold_diags(t: Seq<(Token, Span)>, pos: int) -> Seq<Diagnostic>
    decreases t.len() - pos, 0int,
{
    if !(0 <= pos && pos < t.len()) {
        Seq::<Diagnostic>::empty()
    } else {
        match product_op_of(tok(t, pos)) {
            None => Seq::<Diagnostic>::empty(),
            Some(op) => {
                let rd = sp_call_diags(t, pos + 1);
                match sp_call(t, pos + 1) {
                    None => rd,
                    Some((rhs, p)) => if pos < p && p <= t.len() {
                        rd + sp_product_fold_diags(t, p)
                    } else {
                        rd
                    },
                }
            },
        }
    }
}

/// Diagnostics of the product layer.
#[verifier::opaque]
pub open spec fn sp_product_diags(t: Seq<(Token, Span)>, pos: int) -> Seq<Diagnostic>
    decreases t.len() - pos, 6int,
{
    let pd = sp_postfix_diags(t, pos);
    match sp_postfix(t, pos) {
        None => pd,
        Some((a, p)) => if pos < p && p <= t.len() {
            pd + sp_product_fold_diags(t, p)
        } else {
            pd
        },
    }
}

/// Diagnostics of the sum fold.
#[verifier::opaque]
pub open spec fn sp_sum_fold_diags(t: Seq<(Token, Span)>, pos: int) -> Seq<Diagnostic>
    decreases t.len() - pos, 0int,
{
    if !(0 <= pos && pos < t.len()) {
        Seq::<Diagnostic>::empty()
    } else {
        match sum_op_of(tok(t, pos)) {
            None => Seq::<Diagnostic>::empty(),
            Some(op) => {
                let rd = sp_product_diags(t, pos + 1);
                match sp_product(t, pos + 1) {
                    None => rd,
                    Some((rhs, p)) => if pos < p && p <= t.len() {
                        rd + sp_sum_fold_diags(t, p)
                    } else {
                        rd
                    },
                }
            },
        }
    }
}

/// Diagnostics of the sum layer.
#[verifier::opaque]
pub open spec fn sp_sum_diags(t: Seq<(Token, Span)>, pos: int) -> Seq<Diagnostic>
    decreases t.len() - pos, 7int,
{
    let pd = sp_product_diags(t, pos);
    match sp_product(t, pos) {
        None => pd,
        Some((a, p)) => if pos < p && p <= t.len() {
            pd + sp_sum_fold_diags(t, p)
        } else {
            pd
        },
    }
}

/// Diagnostics of the logical fold.
#[verifier::opaque]
pub open spec fn sp_logical_fold_diags(t: Seq<(Token, Span)>, pos: int) -> Seq<Diagnostic>
    decreases t.len() - pos, 0int,
{
    if !(0 <= pos && pos < t.len()) {
        Seq::<Diagnostic>::empty()
    } else {
        match binary_op_of(tok(t, pos)) {
            None => Seq::<Diagnostic>::empty(),
            Some(op) => {
                let rd = sp_sum_diags(t, pos + 1);
                match sp_sum(t, pos + 1) {
                    None => rd,
                    Some((rhs, p)) => if pos < p && p <= t.len() {
                        rd + sp_logical_fold_diags(t, p)
                    } else {
                        rd
                    },
                }
            },
        }
    }
}

/// Diagnostics of the logical layer.
#[verifier::opaque]
pub open spec fn sp_logical_diags(t: Seq<(Token, Span)>, pos: int) -> Seq<Diagnostic>
    decreases t.len() - pos, 8int,
{
    let sd = sp_sum_diags(t, pos);
    match sp_sum(t, pos) {
        None => sd,
        Some((a, p)) => if pos < p && p <= t.len() {
            sd + sp_logical_fold_diags(t, p)
        } else {
            sd
        },
    }
}

/// Diagnostics of the comparison fold.
#[verifier::opaque]
pub open spec fn sp_comparison_fold_diags(t: Seq<(Token, Span)>, pos: int) -> Seq<Diagnostic>
    decreases t.len() - pos, 0int,
{
    if !(0 <= pos && pos < t.len()) {
        Seq::<Diagnostic>::empty()
    } else {
        match comparison_op_of(tok(t, pos)) {
            None => Seq::<Diagnostic>::empty(),
            Some(op) => {
                let rd = sp_logical_diags(t, pos + 1);
                match sp_logical(t, pos + 1) {
                    None => rd,
                    Some((rhs, p)) => if pos < p && p <= t.len() {
                        rd + sp_comparison_fold_diags(t, p)
                    } else {
                        rd
                    },
                }
            },
        }
    }
}

/// Diagnostics of the comparison layer.
#[verifier::opaque]
pub open spec fn sp_comparison_diags(t: Seq<(Token, Span)>, pos: int) -> Seq<Diagnostic>
    decreases t.len() - pos, 9int,
{
    let ld = sp_logical_diags(t, pos);
    match sp_logical(t, pos) {
        None => ld,
        Some((a, p)) => if pos < p && p <= t.len() {
            ld + sp_comparison_fold_diags(t, p)
        } else {
            ld
        },
    }
}

/// Diagnostics of a full expression.
#[verifier::opaque]
pub open spec fn sp_expression_diags(t: Seq<(Token, Span)>, pos: int) -> Seq<Diagnostic>
    decreases t.len() - pos, 10int,
{
    sp_comparison_diags(t, pos)
}

/// Diagnostics of the whole parse: exactly one `NestingTooDeep` when the
/// depth guard refuses the input; otherwise the expression's diagnostics,
/// followed by exactly one `UnexpectedToken` when tokens were left over or
/// nothing at all matched. An error-free parse emits none.
pub open spec fn sp_parse_diags(t: Seq<(Token, Span)>) -> Seq<Diagnostic> {
    if t.len() == 0 {
        Seq::<Diagnostic>::empty()
    } else if sp_too_deep(t, 0, 0) {
        seq![
            Diagnostic {
                span: region(t, 0, t.len() - 1),
                kind: DiagnosticKind::NestingTooDeep,
                expected: Expected::Expression,
                found: None,
            },
        ]
    } else {
        let ed = sp_expression_diags(t, 0);
        match sp_expression(t, 0) {
            Some((e, p)) => if p < t.len() {
                ed + seq![
                    Diagnostic {
                        span: region(t, p, t.len() - 1),
                        kind: DiagnosticKind::UnexpectedToken,
                        expected: Expected::EndOfInput,
                        found: Some(tok(t, p)),
                    },
                ]
            } else {
                ed
            },
            None => ed + seq![
                Diagnostic {
                    span: region(t, 0, t.len() - 1),
                    kind: DiagnosticKind::UnexpectedToken,
                    expected: Expected::Expression,
                    found: Some(tok(t, 0)),
                },
            ],
        }
    }
}

} // verus!
