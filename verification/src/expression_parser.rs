use vstd::prelude::*;

use crate::ast::{BinaryOp, ComparisonOp, Diagnostic, DiagnosticKind, Expected, Expression,
    MathOp, Number, Span, Spanned, Token, Value};
use crate::grammar::{binary_op_of, comparison_op_of, ident_of, product_op_of, region, sp_atom,
    sp_atom_diags, sp_block, sp_call, sp_call_diags, sum_op_of, tok,
    sp_call_fold, sp_call_fold_diags, sp_comparison, sp_comparison_diags, sp_comparison_fold,
    sp_comparison_fold_diags, sp_expression, sp_expression_diags, sp_grouped, sp_grouped_diags,
    sp_grouped_expected, sp_grouped_found, sp_items, sp_items_diags, sp_leaf, sp_list,
    sp_list_diags, sp_list_found, sp_logical, sp_logical_diags, sp_logical_fold,
    sp_logical_fold_diags, sp_postfix, sp_postfix_diags, sp_product, sp_product_diags,
    sp_product_fold, sp_product_fold_diags, sp_scan, sp_skip_sep, sp_sum, sp_sum_diags,
    sp_sum_fold, sp_sum_fold_diags, tsp, GScan};
use crate::model::{children_well_spanned, span_in_region, span_inside, tokens_wf, view_args,
    view_expr, view_spanned, well_spanned, GExpr, GSpanned, GValue};

verus! {

// The executable recursive-descent parser. Each function is proved equal to
// the corresponding grammar function of `crate::grammar`, and in addition to
// return a well-spanned tree lying inside the source region of the tokens it
// consumed, while only ever appending to the diagnostics.

/// The executable result mirrors the grammar function's result exactly.
pub open spec fn res_matches(
    r: Option<(Spanned<Expression>, usize)>,
    s: Option<(GSpanned, int)>,
) -> bool {
    match (r, s) {
        (Some((re, rp)), Some((se, sp))) => view_spanned(re) == se && rp as int == sp,
        (None, None) => true,
        _ => false,
    }
}

/// On success the parser made progress, stayed in bounds, and produced a
/// well-spanned node covering only source the consumed tokens cover.
pub open spec fn good_node(
    t: Seq<(Token, Span)>,
    pos: int,
    r: Option<(Spanned<Expression>, usize)>,
) -> bool {
    match r {
        Some((re, rp)) => pos < rp as int <= t.len() && well_spanned(view_expr(re.0), re.1)
            && span_in_region(t, pos, rp as int, re.1),
        None => true,
    }
}

/// The composition seam, executable side: ask the externally supplied block
/// grammar for a block. Block and statement parsing are external
/// collaborators of this core, so nothing is wired in and the answer is
/// always "no match"; the grouped construct then falls through to the
/// parenthesized-expression path.
fn parse_block(tokens: &Vec<(Token, Span)>, pos: usize) -> (r: Option<
    (Spanned<Expression>, usize)>)
    ensures
        res_matches(r, sp_block(tokens@, pos as int)),
{
    None
}

/// Consume a run of newline separator tokens.
fn skip_sep(tokens: &Vec<(Token, Span)>, pos: usize) -> (r: usize)
    requires
        pos <= tokens@.len(),
    ensures
        r as int == sp_skip_sep(tokens@, pos as int),
        pos <= r <= tokens@.len(),
    decreases tokens@.len() - pos,
{
    if pos < tokens.len() {
        let nl = match &tokens[pos].0 {
            Token::Newline => true,
            _ => false,
        };
        if nl {
            return skip_sep(tokens, pos + 1);
        }
    }
    pos
}

/// Outcome of the executable delimiter-balancing scan.
enum ScanOutcome {
    Found(usize),
    Unterminated,
    Mismatch,
}

/// Scan forward from just past an opening `(`, balancing nested pairs of both
/// bracket kinds, until the matching `)` at depth zero.
fn find_close(tokens: &Vec<(Token, Span)>, pos: usize) -> (r: ScanOutcome)
    requires
        pos <= tokens@.len(),
    ensures
        (match r {
            ScanOutcome::Found(q) => sp_scan(tokens@, pos as int, seq![true]) == GScan::Found(
                q as int,
            ) && pos < q <= tokens@.len(),
            ScanOutcome::Unterminated => sp_scan(tokens@, pos as int, seq![true])
                == GScan::Unterminated,
            ScanOutcome::Mismatch => sp_scan(tokens@, pos as int, seq![true]) == GScan::Mismatch,
        }),
{
    let mut stack: Vec<bool> = Vec::new();
    stack.push(true);
    let mut i = pos;
    proof {
        assert(stack@ =~= seq![true]);
    }
    loop
        invariant
            pos <= i <= tokens@.len(),
            sp_scan(tokens@, i as int, stack@) == sp_scan(tokens@, pos as int, seq![true]),
            i == pos ==> stack@ =~= seq![true],
        decreases tokens@.len() - i,
    {
        if stack.len() == 0 {
            return ScanOutcome::Found(i);
        }
        if i >= tokens.len() {
            return ScanOutcome::Unterminated;
        }
        let ghost old_stack = stack@;
        match &tokens[i].0 {
            Token::Lparen => {
                stack.push(true);
            },
            Token::Lbracket => {
                stack.push(false);
            },
            Token::Rparen => {
                let top = stack[stack.len() - 1];
                if top {
                    let _ = stack.pop();
                    proof {
                        assert(stack@ =~= old_stack.subrange(0, old_stack.len() - 1));
                    }
                } else {
                    return ScanOutcome::Mismatch;
                }
            },
            Token::Rbracket => {
                let top = stack[stack.len() - 1];
                if !top {
                    let _ = stack.pop();
                    proof {
                        assert(stack@ =~= old_stack.subrange(0, old_stack.len() - 1));
                    }
                } else {
                    return ScanOutcome::Mismatch;
                }
            },
            _ => {},
        }
        i = i + 1;
    }
}

/// Token spans are ordered: a span never runs backwards, and an earlier
/// token's end never passes a later token's start.
pub(crate) proof fn lemma_tok_le(t: Seq<(Token, Span)>, i: int, j: int)
    requires
        tokens_wf(t),
        0 <= i <= j < t.len(),
    ensures
        t[i].1.start <= t[i].1.end,
        t[j].1.start <= t[j].1.end,
        i < j ==> t[i].1.end <= t[j].1.start,
        t[i].1.start <= t[j].1.end,
{
}

/// A token copied field for field, equal in value to the one given.
pub(crate) fn clone_token(t: &Token) -> (r: Token)
    ensures
        r == *t,
{
    match t {
        Token::Ident(s) => Token::Ident(s.clone()),
        Token::Integer(v) => Token::Integer(*v),
        Token::Float(b) => Token::Float(*b),
        Token::True => Token::True,
        Token::False => Token::False,
        Token::LiteralString(s) => Token::LiteralString(s.clone()),
        Token::Span(sp) => Token::Span(*sp),
        Token::QuestionMark => Token::QuestionMark,
        Token::Lparen => Token::Lparen,
        Token::Rparen => Token::Rparen,
        Token::Lbracket => Token::Lbracket,
        Token::Rbracket => Token::Rbracket,
        Token::Comma => Token::Comma,
        Token::Period => Token::Period,
        Token::Mul => Token::Mul,
        Token::Div => Token::Div,
        Token::Add => Token::Add,
        Token::Sub => Token::Sub,
        Token::And => Token::And,
        Token::Or => Token::Or,
        Token::Xor => Token::Xor,
        Token::Eq => Token::Eq,
        Token::Neq => Token::Neq,
        Token::Gt => Token::Gt,
        Token::Lt => Token::Lt,
        Token::Newline => Token::Newline,
    }
}

proof fn lemma_view_args_empty()
    ensures
        view_args(Seq::<Spanned<Expression>>::empty()) == Seq::<GSpanned>::empty(),
{
}

proof fn lemma_view_args_push(s: Seq<Spanned<Expression>>, x: Spanned<Expression>)
    ensures
        view_args(s.push(x)) == view_args(s).push(view_spanned(x)),
{
    assert(s.push(x).subrange(0, s.push(x).len() - 1) =~= s);
}

proof fn lemma_view_args_prepend(s: Seq<Spanned<Expression>>, x: Spanned<Expression>)
    ensures
        view_args(seq![x] + s) == seq![view_spanned(x)] + view_args(s),
    decreases s.len(),
{
    if s.len() == 0 {
        assert(seq![x] + s =~= Seq::<Spanned<Expression>>::empty().push(x));
        lemma_view_args_push(Seq::<Spanned<Expression>>::empty(), x);
        assert(seq![view_spanned(x)] + view_args(s) =~= Seq::<GSpanned>::empty().push(
            view_spanned(x),
        ));
    } else {
        let s0 = s.subrange(0, s.len() - 1);
        let last = s[s.len() - 1];
        lemma_view_args_prepend(s0, x);
        let whole = seq![x] + s;
        assert(whole.subrange(0, whole.len() - 1) =~= seq![x] + s0);
        assert(whole[whole.len() - 1] == last);
        assert(view_args(whole) == view_args(seq![x] + s0).push(view_spanned(last)));
        assert((seq![view_spanned(x)] + view_args(s0)).push(view_spanned(last)) =~= seq![
            view_spanned(x),
        ] + view_args(s0).push(view_spanned(last)));
        assert(view_args(s) == view_args(s0).push(view_spanned(last))) by {
            assert(s.subrange(0, s.len() - 1) =~= s0);
        }
    }
}

/// A literal or identifier leaf, and the `?`-wrapped form of it, is
/// well-spanned under any forward span: it carries no spanned children.
proof fn lemma_leaf_well_spanned(tk: Token, s: Span)
    requires
        s.start <= s.end,
    ensures
        (match sp_leaf(tk) {
            Some(e) => well_spanned(e, s) && well_spanned(
                GExpr::Value(GValue::Option(Box::new(e))),
                s,
            ),
            None => true,
        }),
{
    reveal_with_fuel(children_well_spanned, 3);
}

/// The smallest expression: a literal or identifier token made into a node.
fn leaf_expr(tk: &Token) -> (r: Option<Expression>)
    ensures
        (match r {
            Some(e) => sp_leaf(*tk) == Some(view_expr(e)),
            None => sp_leaf(*tk) == None::<GExpr>,
        }),
{
    match tk {
        Token::Ident(s) => Some(Expression::Ident(s.clone())),
        Token::Integer(v) => Some(Expression::Value(Value::Number(Number::Int(*v)))),
        Token::Float(b) => Some(Expression::Value(Value::Number(Number::Float(*b)))),
        Token::True => Some(Expression::Value(Value::Bool(true))),
        Token::False => Some(Expression::Value(Value::Bool(false))),
        Token::LiteralString(s) => Some(Expression::Value(Value::String(s.clone()))),
        Token::Span(sp) => Some(Expression::Value(Value::Span(sp.start, sp.end))),
        _ => None,
    }
}

/// A grouped construct at an opening `(`: the externally supplied block
/// grammar is asked first, then a full sub-expression between the matching
/// delimiters; the inner node is returned with its own span.
#[verifier::rlimit(100)]
fn parse_grouped(tokens: &Vec<(Token, Span)>, pos: usize, diags: &mut Vec<Diagnostic>) -> (r:
    Option<(Spanned<Expression>, usize)>)
    requires
        tokens_wf(tokens@),
        pos < tokens@.len(),
    ensures
        res_matches(r, sp_grouped(tokens@, pos as int)),
        good_node(tokens@, pos as int, r),
        final(diags)@ == old(diags)@ + sp_grouped_diags(tokens@, pos as int),
    decreases tokens@.len() - pos, 0int,
{
    proof {
        reveal(sp_grouped);
        reveal(sp_expression);
        reveal(sp_grouped_diags);
        reveal(sp_expression_diags);
    }
    let n = tokens.len();
    match parse_block(tokens, pos + 1) {
        Some((e, p)) => {
            if p < n {
                let closed = match &tokens[p].0 {
                    Token::Rparen => true,
                    _ => false,
                };
                if closed {
                    return Some((e, p + 1));
                }
            }
        },
        None => {},
    }
    let inner = parse_expr(tokens, pos + 1, diags);
    let inner_stop: Option<usize> = match &inner {
        Some((e2, p2)) => Some(*p2),
        None => None,
    };
    match inner {
        Some((e, p)) => {
            if p < n {
                let closed = match &tokens[p].0 {
                    Token::Rparen => true,
                    _ => false,
                };
                if closed {
                    proof {
                        lemma_tok_le(tokens@, pos as int, pos as int + 1);
                        lemma_tok_le(tokens@, p as int - 1, p as int);
                    }
                    return Some((e, p + 1));
                }
            }
        },
        None => {},
    }
    let expd: Expected = match &inner_stop {
        Some(p) => Expected::ClosingDelimiter,
        None => Expected::Expression,
    };
    let fnd: Option<Token> = match &inner_stop {
        Some(p) => if *p < n {
            Some(clone_token(&tokens[*p].0))
        } else {
            None
        },
        None => if pos + 1 < n {
            Some(clone_token(&tokens[pos + 1].0))
        } else {
            None
        },
    };
    proof {
        assert(expd == sp_grouped_expected(tokens@, pos as int));
        assert(fnd == sp_grouped_found(tokens@, pos as int));
    }
    match find_close(tokens, pos + 1) {
        ScanOutcome::Found(q) => {
            proof {
                lemma_tok_le(tokens@, pos as int, q as int - 1);
            }
            let s = Span { start: tokens[pos].1.start, end: tokens[q - 1].1.end };
            diags.push(
                Diagnostic {
                    span: s,
                    kind: DiagnosticKind::MalformedBracketContent,
                    expected: expd,
                    found: fnd,
                },
            );
            proof {
                assert(diags@ =~= old(diags)@ + sp_grouped_diags(tokens@, pos as int));
            }
            Some(((Expression::ParserError, s), q))
        },
        ScanOutcome::Unterminated => {
            proof {
                lemma_tok_le(tokens@, pos as int, tokens@.len() - 1);
            }
            let s = Span { start: tokens[pos].1.start, end: tokens[tokens.len() - 1].1.end };
            diags.push(
                Diagnostic {
                    span: s,
                    kind: DiagnosticKind::UnterminatedBracket,
                    expected: expd,
                    found: fnd,
                },
            );
            proof {
                assert(diags@ =~= old(diags)@ + sp_grouped_diags(tokens@, pos as int));
            }
            Some(((Expression::ParserError, s), tokens.len()))
        },
        ScanOutcome::Mismatch => None,
    }
}

/// Atom: a literal or identifier, optionally rewrapped by a `?` suffix, or a
/// grouped sub-expression, whose own recovery covers the malformed cases.
#[verifier::rlimit(100)]
fn parse_atom(tokens: &Vec<(Token, Span)>, pos: usize, diags: &mut Vec<Diagnostic>) -> (r: Option<
    (Spanned<Expression>, usize)>)
    requires
        tokens_wf(tokens@),
        pos <= tokens@.len(),
    ensures
        res_matches(r, sp_atom(tokens@, pos as int)),
        good_node(tokens@, pos as int, r),
        final(diags)@ == old(diags)@ + sp_atom_diags(tokens@, pos as int),
    decreases tokens@.len() - pos, 1int,
{
    proof {
        reveal(sp_atom);
        reveal(sp_grouped);
        reveal(sp_atom_diags);
        reveal(sp_grouped_diags);
    }
    proof {
        assert(diags@ =~= diags@ + Seq::<Diagnostic>::empty());
    }
    if pos >= tokens.len() {
        return None;
    }
    match leaf_expr(&tokens[pos].0) {
        Some(leafe) => {
            let mut qmark = false;
            if pos + 1 < tokens.len() {
                qmark = match &tokens[pos + 1].0 {
                    Token::QuestionMark => true,
                    _ => false,
                };
            }
            if qmark {
                let s = Span { start: tokens[pos].1.start, end: tokens[pos + 1].1.end };
                proof {
                    lemma_tok_le(tokens@, pos as int, pos as int + 1);
                    lemma_leaf_well_spanned(tokens@[pos as int].0, s);
                    assert(view_expr(Expression::Value(Value::Option(Box::new(leafe))))
                        == GExpr::Value(GValue::Option(Box::new(view_expr(leafe)))));
                    assert(s == region(tokens@, pos as int, pos as int + 1));
                }
                Some(((Expression::Value(Value::Option(Box::new(leafe))), s), pos + 2))
            } else {
                proof {
                    lemma_tok_le(tokens@, pos as int, pos as int);
                    lemma_leaf_well_spanned(tokens@[pos as int].0, tokens@[pos as int].1);
                }
                Some(((leafe, tokens[pos].1), pos + 1))
            }
        },
        None => {
            let open = match &tokens[pos].0 {
                Token::Lparen => true,
                _ => false,
            };
            if open {
                parse_grouped(tokens, pos, diags)
            } else {
                None
            }
        },
    }
}

/// The comma-separated item collector; it never fails, collecting as many
/// elements as match, each optionally followed by the separator.
#[verifier::rlimit(100)]
fn parse_items(tokens: &Vec<(Token, Span)>, pos: usize, diags: &mut Vec<Diagnostic>) -> (r: (Vec<
    Spanned<Expression>>, usize))
    requires
        tokens_wf(tokens@),
        pos <= tokens@.len(),
    ensures
        sp_items(tokens@, pos as int).0 == view_args(r.0@),
        sp_items(tokens@, pos as int).1 == r.1 as int,
        pos <= r.1 <= tokens@.len(),
        r.0@.len() > 0 ==> pos < r.1,
        forall|i: int|
            0 <= i < r.0@.len() ==> well_spanned(view_expr((#[trigger] r.0@[i]).0), r.0@[i].1)
                && tokens@[pos as int].1.start <= r.0@[i].1.start && r.0@[i].1.end <= tokens@[r.1
                - 1].1.end,
        final(diags)@ == old(diags)@ + sp_items_diags(tokens@, pos as int),
    decreases tokens@.len() - pos, 11int,
{
    proof {
        reveal(sp_items);
        reveal(sp_expression);
        reveal(sp_items_diags);
        reveal(sp_expression_diags);
    }
    proof {
        lemma_view_args_empty();
        assert(diags@ =~= diags@ + Seq::<Diagnostic>::empty());
    }
    if pos >= tokens.len() {
        return (Vec::new(), pos);
    }
    match parse_expr(tokens, pos, diags) {
        None => (Vec::new(), pos),
        Some((e, p)) => {
            let p2 = skip_sep(tokens, p);
            let mut comma = false;
            if p2 < tokens.len() {
                comma = match &tokens[p2].0 {
                    Token::Comma => true,
                    _ => false,
                };
            }
            if comma {
                let (mut rest, p3) = parse_items(tokens, p2 + 1, diags);
                proof {
                    assert(diags@ =~= old(diags)@ + (sp_expression_diags(tokens@, pos as int)
                        + sp_items_diags(tokens@, p2 as int + 1)));
                    lemma_view_args_prepend(rest@, e);
                }
                let ghost rest0 = rest@;
                rest.insert(0, e);
                proof {
                    assert(rest@ =~= seq![e] + rest0);
                    assert forall|i: int| 0 <= i < rest@.len() implies well_spanned(
                        view_expr((#[trigger] rest@[i]).0),
                        rest@[i].1,
                    ) && tokens@[pos as int].1.start <= rest@[i].1.start && rest@[i].1.end
                        <= tokens@[p3 - 1].1.end by {
                        if i == 0 {
                            lemma_tok_le(tokens@, p as int - 1, p3 - 1);
                        } else {
                            assert(rest@[i] == rest0[i - 1]);
                            lemma_tok_le(tokens@, pos as int, p2 as int + 1);
                        }
                    }
                }
                (rest, p3)
            } else {
                let mut one: Vec<Spanned<Expression>> = Vec::new();
                one.push(e);
                proof {
                    assert(one@ =~= Seq::<Spanned<Expression>>::empty().push(e));
                    lemma_view_args_push(Seq::<Spanned<Expression>>::empty(), e);
                    assert(view_args(one@) =~= seq![view_spanned(e)]);
                    lemma_tok_le(tokens@, p as int - 1, p2 as int - 1);
                }
                (one, p2)
            }
        },
    }
}

/// Argument-list match result against the grammar function.
pub open spec fn list_matches(
    r: Option<(Vec<Spanned<Expression>>, Span, usize)>,
    s: Option<(Seq<GSpanned>, Span, int)>,
) -> bool {
    match (r, s) {
        (Some((v, sp, p)), Some((gs, gsp, gp))) => view_args(v@) == gs && sp == gsp && p as int
            == gp,
        (None, None) => true,
        _ => false,
    }
}

/// On success the list covers tokens `pos .. p`, its span covers exactly the
/// brackets, and every element is a well-spanned node inside that span.
pub open spec fn good_list(
    t: Seq<(Token, Span)>,
    pos: int,
    r: Option<(Vec<Spanned<Expression>>, Span, usize)>,
) -> bool {
    match r {
        Some((v, sp, p)) => pos < p as int <= t.len() && sp == region(t, pos, p as int - 1)
            && sp.start <= sp.end && forall|i: int|
            0 <= i < v@.len() ==> well_spanned(view_expr((#[trigger] v@[i]).0), v@[i].1)
                && span_inside(sp, v@[i].1),
        None => true,
    }
}

/// An argument list delimited by `( )`, with delimiter-aware recovery.
#[verifier::rlimit(100)]
fn parse_list(tokens: &Vec<(Token, Span)>, pos: usize, diags: &mut Vec<Diagnostic>) -> (r: Option<
    (Vec<Spanned<Expression>>, Span, usize)>)
    requires
        tokens_wf(tokens@),
        pos <= tokens@.len(),
    ensures
        list_matches(r, sp_list(tokens@, pos as int)),
        good_list(tokens@, pos as int, r),
        final(diags)@ == old(diags)@ + sp_list_diags(tokens@, pos as int),
    decreases tokens@.len() - pos, 2int,
{
    proof {
        reveal(sp_list);
        reveal(sp_items);
        reveal(sp_list_diags);
        reveal(sp_items_diags);
    }
    proof {
        assert(diags@ =~= diags@ + Seq::<Diagnostic>::empty());
    }
    if pos >= tokens.len() {
        return None;
    }
    let open = match &tokens[pos].0 {
        Token::Lparen => true,
        _ => false,
    };
    if !open {
        return None;
    }
    let (items, p) = parse_items(tokens, pos + 1, diags);
    if p < tokens.len() {
        let closed = match &tokens[p].0 {
            Token::Rparen => true,
            _ => false,
        };
        if closed {
            let s = Span { start: tokens[pos].1.start, end: tokens[p].1.end };
            proof {
                lemma_tok_le(tokens@, pos as int, p as int);
                lemma_tok_le(tokens@, pos as int, pos as int + 1);
                if items@.len() > 0 {
                    lemma_tok_le(tokens@, p as int - 1, p as int);
                }
            }
            return Some((items, s, p + 1));
        }
    }
    let fnd: Option<Token> = if p < tokens.len() {
        Some(clone_token(&tokens[p].0))
    } else {
        None
    };
    proof {
        assert(fnd == sp_list_found(tokens@, pos as int));
    }
    match find_close(tokens, pos + 1) {
        ScanOutcome::Found(q) => {
            proof {
                lemma_tok_le(tokens@, pos as int, q as int - 1);
            }
            let s = Span { start: tokens[pos].1.start, end: tokens[q - 1].1.end };
            diags.push(
                Diagnostic {
                    span: s,
                    kind: DiagnosticKind::MalformedBracketContent,
                    expected: Expected::ClosingDelimiter,
                    found: fnd,
                },
            );
            proof {
                assert(diags@ =~= old(diags)@ + sp_list_diags(tokens@, pos as int));
            }
            let mut v: Vec<Spanned<Expression>> = Vec::new();
            v.push((Expression::ParserError, s));
            proof {
                assert(v@ =~= Seq::<Spanned<Expression>>::empty().push((Expression::ParserError, s)));
                lemma_view_args_push(
                    Seq::<Spanned<Expression>>::empty(),
                    (Expression::ParserError, s),
                );
                lemma_view_args_empty();
                assert(view_args(v@) =~= seq![(GExpr::ParserError, s)]);
            }
            Some((v, s, q))
        },
        ScanOutcome::Unterminated => {
            proof {
                lemma_tok_le(tokens@, pos as int, tokens@.len() - 1);
            }
            let s = Span { start: tokens[pos].1.start, end: tokens[tokens.len() - 1].1.end };
            diags.push(
                Diagnostic {
                    span: s,
                    kind: DiagnosticKind::UnterminatedBracket,
                    expected: Expected::ClosingDelimiter,
                    found: fnd,
                },
            );
            proof {
                assert(diags@ =~= old(diags)@ + sp_list_diags(tokens@, pos as int));
            }
            let mut v: Vec<Spanned<Expression>> = Vec::new();
            v.push((Expression::ParserError, s));
            proof {
                assert(v@ =~= Seq::<Spanned<Expression>>::empty().push((Expression::ParserError, s)));
                lemma_view_args_push(
                    Seq::<Spanned<Expression>>::empty(),
                    (Expression::ParserError, s),
                );
                lemma_view_args_empty();
                assert(view_args(v@) =~= seq![(GExpr::ParserError, s)]);
            }
            Some((v, s, tokens.len()))
        },
        ScanOutcome::Mismatch => None,
    }
}

proof fn lemma_view_args_len(s: Seq<Spanned<Expression>>)
    ensures
        view_args(s).len() == s.len(),
    decreases s.len(),
{
    if s.len() > 0 {
        lemma_view_args_len(s.subrange(0, s.len() - 1));
    }
}

proof fn lemma_view_args_index(s: Seq<Spanned<Expression>>, i: int)
    requires
        0 <= i < s.len(),
    ensures
        view_args(s).len() == s.len(),
        view_args(s)[i] == view_spanned(s[i]),
    decreases s.len(),
{
    lemma_view_args_len(s);
    let s0 = s.subrange(0, s.len() - 1);
    lemma_view_args_len(s0);
    if i < s.len() - 1 {
        lemma_view_args_index(s0, i);
        assert(s0[i] == s[i]);
    }
}

/// A call or method-call node built from a receiver and a bracketed argument
/// list is well-spanned: the node runs from the receiver's start to the
/// closing bracket, and every child lies inside it.
proof fn lemma_call_node_wf(
    t: Seq<(Token, Span)>,
    pos: int,
    cp: int,
    p2: int,
    c: GSpanned,
    args_exec: Seq<Spanned<Expression>>,
    aspan: Span,
    s: Span,
)
    requires
        tokens_wf(t),
        0 <= pos < cp,
        cp < p2 <= t.len(),
        well_spanned(c.0, c.1),
        span_in_region(t, pos, cp, c.1),
        aspan == region(t, cp, p2 - 1),
        aspan.start <= aspan.end,
        forall|i: int|
            0 <= i < args_exec.len() ==> well_spanned(
                view_expr((#[trigger] args_exec[i]).0),
                args_exec[i].1,
            ) && span_inside(aspan, args_exec[i].1),
        s == (Span { start: c.1.start, end: aspan.end }),
    ensures
        s.start <= s.end,
        span_in_region(t, pos, p2, s),
        well_spanned(GExpr::FunctionCall(Box::new(c), view_args(args_exec)), s),
        forall|nm: String| well_spanned(GExpr::MethodCall(Box::new(c), nm, view_args(args_exec)), s),
{
    lemma_tok_le(t, cp - 1, cp);
    lemma_tok_le(t, cp, p2 - 1);
    lemma_view_args_len(args_exec);
    assert forall|i: int| 0 <= i < view_args(args_exec).len() implies well_spanned(
        (#[trigger] view_args(args_exec)[i]).0,
        view_args(args_exec)[i].1,
    ) && span_inside(s, view_args(args_exec)[i].1) by {
        lemma_view_args_index(args_exec, i);
    }
}

/// An operator node combining a left operand parsed over `pos .. opi` and a
/// right operand parsed over `opi + 1 .. p2` is well-spanned, its span being
/// exactly the union of its children's spans.
proof fn lemma_binary_node_wf(
    t: Seq<(Token, Span)>,
    pos: int,
    opi: int,
    p2: int,
    l: GSpanned,
    r: GSpanned,
    s: Span,
)
    requires
        tokens_wf(t),
        0 <= pos < opi,
        opi + 1 < p2 <= t.len(),
        well_spanned(l.0, l.1),
        span_in_region(t, pos, opi, l.1),
        well_spanned(r.0, r.1),
        span_in_region(t, opi + 1, p2, r.1),
        s == (Span { start: l.1.start, end: r.1.end }),
    ensures
        l.1.end <= r.1.start,
        s.start <= s.end,
        span_in_region(t, pos, p2, s),
        forall|op: MathOp| well_spanned(GExpr::MathOp(Box::new(l), op, Box::new(r)), s),
        forall|op: BinaryOp| well_spanned(GExpr::Binary(Box::new(l), op, Box::new(r)), s),
        forall|op: ComparisonOp| well_spanned(GExpr::Comparison(Box::new(l), op, Box::new(r)), s),
{
    lemma_tok_le(t, opi - 1, opi + 1);
}

proof fn lemma_seq_assoc(a: Seq<Diagnostic>, b: Seq<Diagnostic>, c: Seq<Diagnostic>)
    ensures
        (a + b) + c == a + (b + c),
{
    assert((a + b) + c =~= a + (b + c));
}

proof fn lemma_seq_add_empty(a: Seq<Diagnostic>)
    ensures
        a + Seq::<Diagnostic>::empty() == a,
{
    assert(a + Seq::<Diagnostic>::empty() =~= a);
}

/// How the call layer opens: it fails exactly when the atom does, and
/// otherwise hands the atom to the list fold, diagnostics in the same order.
proof fn lemma_call_open(t: Seq<(Token, Span)>, pos: int)
    ensures
        sp_atom(t, pos) is None ==> sp_call(t, pos) is None && sp_call_diags(t, pos) == sp_atom_diags(
            t,
            pos,
        ),
        forall|a: GSpanned, p: int|
            sp_atom(t, pos) == Some::<(GSpanned, int)>((a, p)) && pos < p <= t.len() ==> sp_call(
                t,
                pos,
            ) == Some(#[trigger] sp_call_fold(t, a, p)) && sp_call_diags(t, pos) == sp_atom_diags(
                t,
                pos,
            ) + sp_call_fold_diags(t, p),
{
    reveal(sp_call);
    reveal(sp_atom);
    reveal(sp_call_fold);
    reveal(sp_call_diags);
    reveal(sp_atom_diags);
    reveal(sp_call_fold_diags);
}

/// The call fold stops where no argument list opens, keeping the diagnostics
/// of the failed list attempt.
proof fn lemma_call_fold_stop(t: Seq<(Token, Span)>, cp: int, lhs: GSpanned)
    requires
        sp_list(t, cp) is None,
    ensures
        sp_call_fold(t, lhs, cp) == (lhs, cp),
        sp_call_fold_diags(t, cp) == sp_list_diags(t, cp),
{
    reveal(sp_call_fold);
    reveal(sp_call_fold_diags);
    reveal(sp_list);
    reveal(sp_list_diags);
}

/// One step of the call fold: the list becomes one more `FunctionCall` layer,
/// and its diagnostics come before those of the rest of the fold.
proof fn lemma_call_fold_step(
    t: Seq<(Token, Span)>,
    cp: int,
    p2: int,
    lhs: GSpanned,
    args: Seq<GSpanned>,
    aspan: Span,
)
    requires
        sp_list(t, cp) == Some::<(Seq<GSpanned>, Span, int)>((args, aspan, p2)),
        cp < p2 <= t.len(),
    ensures
        sp_call_fold(t, lhs, cp) == sp_call_fold(
            t,
            (GExpr::FunctionCall(Box::new(lhs), args), Span { start: lhs.1.start, end: aspan.end }),
            p2,
        ),
        sp_call_fold_diags(t, cp) == sp_list_diags(t, cp) + sp_call_fold_diags(t, p2),
{
    reveal(sp_call_fold);
    reveal(sp_call_fold_diags);
    reveal(sp_list);
    reveal(sp_list_diags);
}

/// How the product layer opens: it fails exactly when its operand layer does,
/// and otherwise hands the operand to the operator fold, diagnostics in the
/// same order.
proof fn lemma_product_open(t: Seq<(Token, Span)>, pos: int)
    ensures
        sp_postfix(t, pos) is None ==> sp_product(t, pos) is None && sp_product_diags(t, pos)
            == sp_postfix_diags(t, pos),
        forall|a: GSpanned, p: int|
            sp_postfix(t, pos) == Some::<(GSpanned, int)>((a, p)) && pos < p <= t.len()
                ==> sp_product(t, pos) == Some(#[trigger] sp_product_fold(t, a, p)) && sp_product_diags(t, pos)
                == sp_postfix_diags(t, pos) + sp_product_fold_diags(t, p),
{
    reveal(sp_product);
    reveal(sp_postfix);
    reveal(sp_product_fold);
    reveal(sp_product_diags);
    reveal(sp_postfix_diags);
    reveal(sp_product_fold_diags);
}

/// The product fold stops at end of input, at a token that is no operator of this
/// layer, or where the right operand fails, keeping the diagnostics of the
/// failed attempt.
proof fn lemma_product_fold_stop(t: Seq<(Token, Span)>, cp: int, lhs: GSpanned)
    requires
        !(0 <= cp < t.len()) || product_op_of(tok(t, cp)) is None || sp_call(t, cp + 1) is None,
    ensures
        sp_product_fold(t, lhs, cp) == (lhs, cp),
        sp_product_fold_diags(t, cp) == (
        if 0 <= cp < t.len() && product_op_of(tok(t, cp)) is Some {
            sp_call_diags(t, cp + 1)
        } else {
            Seq::<Diagnostic>::empty()
        }),
{
    reveal(sp_product_fold);
    reveal(sp_product_fold_diags);
    reveal(sp_call);
    reveal(sp_call_diags);
}

/// One step of the product fold: the operator and right operand become one more
/// left-leaning node, the operand's diagnostics coming before the rest.
proof fn lemma_product_fold_step(
    t: Seq<(Token, Span)>,
    cp: int,
    p2: int,
    lhs: GSpanned,
    rhs: GSpanned,
    op: MathOp,
)
    requires
        0 <= cp < t.len(),
        product_op_of(tok(t, cp)) == Some(op),
        sp_call(t, cp + 1) == Some::<(GSpanned, int)>((rhs, p2)),
        cp < p2 <= t.len(),
    ensures
        sp_product_fold(t, lhs, cp) == sp_product_fold(
            t,
            (
                GExpr::MathOp(Box::new(lhs), op, Box::new(rhs)),
                Span { start: lhs.1.start, end: rhs.1.end },
            ),
            p2,
        ),
        sp_product_fold_diags(t, cp) == sp_call_diags(t, cp + 1) + sp_product_fold_diags(t, p2),
{
    reveal(sp_product_fold);
    reveal(sp_product_fold_diags);
    reveal(sp_call);
    reveal(sp_call_diags);
}

/// How the sum layer opens: it fails exactly when its operand layer does,
/// and otherwise hands the operand to the operator fold, diagnostics in the
/// same order.
proof fn lemma_sum_open(t: Seq<(Token, Span)>, pos: int)
    ensures
        sp_product(t, pos) is None ==> sp_sum(t, pos) is None && sp_sum_diags(t, pos)
            == sp_product_diags(t, pos),
        forall|a: GSpanned, p: int|
            sp_product(t, pos) == Some::<(GSpanned, int)>((a, p)) && pos < p <= t.len()
                ==> sp_sum(t, pos) == Some(#[trigger] sp_sum_fold(t, a, p)) && sp_sum_diags(t, pos)
                == sp_product_diags(t, pos) + sp_sum_fold_diags(t, p),
{
    reveal(sp_sum);
    reveal(sp_product);
    reveal(sp_sum_fold);
    reveal(sp_sum_diags);
    reveal(sp_product_diags);
    reveal(sp_sum_fold_diags);
}

/// The sum fold stops at end of input, at a token that is no operator of this
/// layer, or where the right operand fails, keeping the diagnostics of the
/// failed attempt.
proof fn lemma_sum_fold_stop(t: Seq<(Token, Span)>, cp: int, lhs: GSpanned)
    requires
        !(0 <= cp < t.len()) || sum_op_of(tok(t, cp)) is None || sp_product(t, cp + 1) is None,
    ensures
        sp_sum_fold(t, lhs, cp) == (lhs, cp),
        sp_sum_fold_diags(t, cp) == (
        if 0 <= cp < t.len() && sum_op_of(tok(t, cp)) is Some {
            sp_product_diags(t, cp + 1)
        } else {
            Seq::<Diagnostic>::empty()
        }),
{
    reveal(sp_sum_fold);
    reveal(sp_sum_fold_diags);
    reveal(sp_product);
    reveal(sp_product_diags);
}

/// One step of the sum fold: the operator and right operand become one more
/// left-leaning node, the operand's diagnostics coming before the rest.
proof fn lemma_sum_fold_step(
    t: Seq<(Token, Span)>,
    cp: int,
    p2: int,
    lhs: GSpanned,
    rhs: GSpanned,
    op: MathOp,
)
    requires
        0 <= cp < t.len(),
        sum_op_of(tok(t, cp)) == Some(op),
        sp_product(t, cp + 1) == Some::<(GSpanned, int)>((rhs, p2)),
        cp < p2 <= t.len(),
    ensures
        sp_sum_fold(t, lhs, cp) == sp_sum_fold(
            t,
            (
                GExpr::MathOp(Box::new(lhs), op, Box::new(rhs)),
                Span { start: lhs.1.start, end: rhs.1.end },
            ),
            p2,
        ),
        sp_sum_fold_diags(t, cp) == sp_product_diags(t, cp + 1) + sp_sum_fold_diags(t, p2),
{
    reveal(sp_sum_fold);
    reveal(sp_sum_fold_diags);
    reveal(sp_product);
    reveal(sp_product_diags);
}

/// How the logical layer opens: it fails exactly when its operand layer does,
/// and otherwise hands the operand to the operator fold, diagnostics in the
/// same order.
proof fn lemma_logical_open(t: Seq<(Token, Span)>, pos: int)
    ensures
        sp_sum(t, pos) is None ==> sp_logical(t, pos) is None && sp_logical_diags(t, pos)
            == sp_sum_diags(t, pos),
        forall|a: GSpanned, p: int|
            sp_sum(t, pos) == Some::<(GSpanned, int)>((a, p)) && pos < p <= t.len()
                ==> sp_logical(t, pos) == Some(#[trigger] sp_logical_fold(t, a, p)) && sp_logical_diags(t, pos)
                == sp_sum_diags(t, pos) + sp_logical_fold_diags(t, p),
{
    reveal(sp_logical);
    reveal(sp_sum);
    reveal(sp_logical_fold);
    reveal(sp_logical_diags);
    reveal(sp_sum_diags);
    reveal(sp_logical_fold_diags);
}

/// The logical fold stops at end of input, at a token that is no operator of this
/// layer, or where the right operand fails, keeping the diagnostics of the
/// failed attempt.
proof fn lemma_logical_fold_stop(t: Seq<(Token, Span)>, cp: int, lhs: GSpanned)
    requires
        !(0 <= cp < t.len()) || binary_op_of(tok(t, cp)) is None || sp_sum(t, cp + 1) is None,
    ensures
        sp_logical_fold(t, lhs, cp) == (lhs, cp),
        sp_logical_fold_diags(t, cp) == (
        if 0 <= cp < t.len() && binary_op_of(tok(t, cp)) is Some {
            sp_sum_diags(t, cp + 1)
        } else {
            Seq::<Diagnostic>::empty()
        }),
{
    reveal(sp_logical_fold);
    reveal(sp_logical_fold_diags);
    reveal(sp_sum);
    reveal(sp_sum_diags);
}

/// One step of the logical fold: the operator and right operand become one more
/// left-leaning node, the operand's diagnostics coming before the rest.
proof fn lemma_logical_fold_step(
    t: Seq<(Token, Span)>,
    cp: int,
    p2: int,
    lhs: GSpanned,
    rhs: GSpanned,
    op: BinaryOp,
)
    requires
        0 <= cp < t.len(),
        binary_op_of(tok(t, cp)) == Some(op),
        sp_sum(t, cp + 1) == Some::<(GSpanned, int)>((rhs, p2)),
        cp < p2 <= t.len(),
    ensures
        sp_logical_fold(t, lhs, cp) == sp_logical_fold(
            t,
            (
                GExpr::Binary(Box::new(lhs), op, Box::new(rhs)),
                Span { start: lhs.1.start, end: rhs.1.end },
            ),
            p2,
        ),
        sp_logical_fold_diags(t, cp) == sp_sum_diags(t, cp + 1) + sp_logical_fold_diags(t, p2),
{
    reveal(sp_logical_fold);
    reveal(sp_logical_fold_diags);
    reveal(sp_sum);
    reveal(sp_sum_diags);
}

/// How the comparison layer opens: it fails exactly when its operand layer does,
/// and otherwise hands the operand to the operator fold, diagnostics in the
/// same order.
proof fn lemma_comparison_open(t: Seq<(Token, Span)>, pos: int)
    ensures
        sp_logical(t, pos) is None ==> sp_comparison(t, pos) is None && sp_comparison_diags(t, pos)
            == sp_logical_diags(t, pos),
        forall|a: GSpanned, p: int|
            sp_logical(t, pos) == Some::<(GSpanned, int)>((a, p)) && pos < p <= t.len()
                ==> sp_comparison(t, pos) == Some(#[trigger] sp_comparison_fold(t, a, p)) && sp_comparison_diags(t, pos)
                == sp_logical_diags(t, pos) + sp_comparison_fold_diags(t, p),
{
    reveal(sp_comparison);
    reveal(sp_logical);
    reveal(sp_comparison_fold);
    reveal(sp_comparison_diags);
    reveal(sp_logical_diags);
    reveal(sp_comparison_fold_diags);
}

/// The comparison fold stops at end of input, at a token that is no operator of this
/// layer, or where the right operand fails, keeping the diagnostics of the
/// failed attempt.
proof fn lemma_comparison_fold_stop(t: Seq<(Token, Span)>, cp: int, lhs: GSpanned)
    requires
        !(0 <= cp < t.len()) || comparison_op_of(tok(t, cp)) is None || sp_logical(t, cp + 1) is None,
    ensures
        sp_comparison_fold(t, lhs, cp) == (lhs, cp),
        sp_comparison_fold_diags(t, cp) == (
        if 0 <= cp < t.len() && comparison_op_of(tok(t, cp)) is Some {
            sp_logical_diags(t, cp + 1)
        } else {
            Seq::<Diagnostic>::empty()
        }),
{
    reveal(sp_comparison_fold);
    reveal(sp_comparison_fold_diags);
    reveal(sp_logical);
    reveal(sp_logical_diags);
}

/// One step of the comparison fold: the operator and right operand become one more
/// left-leaning node, the operand's diagnostics coming before the rest.
proof fn lemma_comparison_fold_step(
    t: Seq<(Token, Span)>,
    cp: int,
    p2: int,
    lhs: GSpanned,
    rhs: GSpanned,
    op: ComparisonOp,
)
    requires
        0 <= cp < t.len(),
        comparison_op_of(tok(t, cp)) == Some(op),
        sp_logical(t, cp + 1) == Some::<(GSpanned, int)>((rhs, p2)),
        cp < p2 <= t.len(),
    ensures
        sp_comparison_fold(t, lhs, cp) == sp_comparison_fold(
            t,
            (
                GExpr::Comparison(Box::new(lhs), op, Box::new(rhs)),
                Span { start: lhs.1.start, end: rhs.1.end },
            ),
            p2,
        ),
        sp_comparison_fold_diags(t, cp) == sp_logical_diags(t, cp + 1) + sp_comparison_fold_diags(t, p2),
{
    reveal(sp_comparison_fold);
    reveal(sp_comparison_fold_diags);
    reveal(sp_logical);
    reveal(sp_logical_diags);
}

/// Call layer: an atom with zero or more juxtaposed argument lists left-folded
/// onto it, each fold binding tighter than any binary operator.
#[verifier::rlimit(100)]
fn parse_call(tokens: &Vec<(Token, Span)>, pos: usize, diags: &mut Vec<Diagnostic>) -> (r: Option<
    (Spanned<Expression>, usize)>)
    requires
        tokens_wf(tokens@),
        pos <= tokens@.len(),
    ensures
        res_matches(r, sp_call(tokens@, pos as int)),
        good_node(tokens@, pos as int, r),
        final(diags)@ == old(diags)@ + sp_call_diags(tokens@, pos as int),
    decreases tokens@.len() - pos, 4int,
{
    match parse_atom(tokens, pos, diags) {
        None => {
            proof {
                lemma_call_open(tokens@, pos as int);
            }
            None
        },
        Some((a, p)) => {
            let ghost target = sp_call_fold(tokens@, view_spanned(a), p as int);
            proof {
                lemma_call_open(tokens@, pos as int);
                lemma_seq_assoc(
                    old(diags)@,
                    sp_atom_diags(tokens@, pos as int),
                    sp_call_fold_diags(tokens@, p as int),
                );
            }
            let mut cur = a;
            let mut cp = p;
            loop
                invariant
                    tokens_wf(tokens@),
                    pos < cp <= tokens@.len(),
                    sp_call(tokens@, pos as int) == Some(target),
                    sp_call_fold(tokens@, view_spanned(cur), cp as int) == target,
                    well_spanned(view_expr(cur.0), cur.1),
                    span_in_region(tokens@, pos as int, cp as int, cur.1),
                    old(diags)@ + sp_call_diags(tokens@, pos as int) == diags@
                        + sp_call_fold_diags(tokens@, cp as int),
                decreases tokens@.len() - cp,
            {
                let ghost d1 = diags@;
                match parse_list(tokens, cp, diags) {
                    None => {
                        proof {
                            lemma_call_fold_stop(tokens@, cp as int, view_spanned(cur));
                        }
                        return Some((cur, cp));
                    },
                    Some((args, aspan, p2)) => {
                        proof {
                            lemma_call_fold_step(
                                tokens@,
                                cp as int,
                                p2 as int,
                                view_spanned(cur),
                                view_args(args@),
                                aspan,
                            );
                            lemma_seq_assoc(
                                d1,
                                sp_list_diags(tokens@, cp as int),
                                sp_call_fold_diags(tokens@, p2 as int),
                            );
                            lemma_call_node_wf(
                                tokens@,
                                pos as int,
                                cp as int,
                                p2 as int,
                                view_spanned(cur),
                                args@,
                                aspan,
                                Span { start: cur.1.start, end: aspan.end },
                            );
                        }
                        let s = Span { start: cur.1.start, end: aspan.end };
                        let node = Expression::FunctionCall(Box::new(cur), args);
                        cur = (node, s);
                        cp = p2;
                    },
                }
            }
        },
    }
}

/// How the method-call layer opens when the call layer fails.
proof fn lemma_postfix_open(t: Seq<(Token, Span)>, pos: int)
    ensures
        sp_call(t, pos) is None ==> sp_postfix(t, pos) is None && sp_postfix_diags(t, pos)
            == sp_call_diags(t, pos),
{
    reveal(sp_postfix);
    reveal(sp_call);
    reveal(sp_postfix_diags);
    reveal(sp_call_diags);
}

/// The method-call layer over a parsed call: without a `.name` suffix the
/// call passes through unchanged; with one, the optional argument list
/// becomes a `MethodCall` node, its diagnostics after the call's.
proof fn lemma_postfix_some(t: Seq<(Token, Span)>, pos: int, c: GSpanned, p: int)
    requires
        sp_call(t, pos) == Some::<(GSpanned, int)>((c, p)),
        pos < p <= t.len(),
        p <= sp_skip_sep(t, p) <= t.len(),
    ensures
        ({
            let p2 = sp_skip_sep(t, p);
            let name = if p2 + 1 < t.len() && tok(t, p2) == Token::Period {
                ident_of(tok(t, p2 + 1))
            } else {
                None
            };
            match name {
                None => sp_postfix(t, pos) == Some::<(GSpanned, int)>((c, p)) && sp_postfix_diags(
                    t,
                    pos,
                ) == sp_call_diags(t, pos),
                Some(nm) => sp_postfix_diags(t, pos) == sp_call_diags(t, pos) + sp_list_diags(
                    t,
                    p2 + 2,
                ) && (match sp_list(t, p2 + 2) {
                    Some((args, aspan, p3)) => sp_postfix(t, pos) == Some::<(GSpanned, int)>(
                        (
                            (
                                GExpr::MethodCall(Box::new(c), nm, args),
                                Span { start: c.1.start, end: aspan.end },
                            ),
                            p3,
                        ),
                    ),
                    None => sp_postfix(t, pos) == Some::<(GSpanned, int)>(
                        (
                            (
                                GExpr::MethodCall(Box::new(c), nm, Seq::<GSpanned>::empty()),
                                Span { start: c.1.start, end: tsp(t, p2 + 1).end },
                            ),
                            p2 + 2,
                        ),
                    ),
                }),
            }
        }),
{
    reveal(sp_postfix);
    reveal(sp_call);
    reveal(sp_list);
    reveal(sp_postfix_diags);
    reveal(sp_call_diags);
    reveal(sp_list_diags);
}

/// Method-call layer: after the call fold, at most one `.name(args)` suffix,
/// `args` defaulting to empty when no list follows. Deeper chains rely on
/// outer folds re-entering this layer.
#[verifier::rlimit(100)]
fn parse_method(tokens: &Vec<(Token, Span)>, pos: usize, diags: &mut Vec<Diagnostic>) -> (r:
    Option<(Spanned<Expression>, usize)>)
    requires
        tokens_wf(tokens@),
        pos <= tokens@.len(),
    ensures
        res_matches(r, sp_postfix(tokens@, pos as int)),
        good_node(tokens@, pos as int, r),
        final(diags)@ == old(diags)@ + sp_postfix_diags(tokens@, pos as int),
    decreases tokens@.len() - pos, 5int,
{
    match parse_call(tokens, pos, diags) {
        None => {
            proof {
                lemma_postfix_open(tokens@, pos as int);
            }
            None
        },
        Some((c, p)) => {
            let p2 = skip_sep(tokens, p);
            proof {
                lemma_postfix_some(tokens@, pos as int, view_spanned(c), p as int);
            }
            let mut dot = false;
            if p2 < tokens.len() {
                if p2 + 1 < tokens.len() {
                    dot = match &tokens[p2].0 {
                        Token::Period => true,
                        _ => false,
                    };
                }
            }
            if dot {
                match &tokens[p2 + 1].0 {
                    Token::Ident(mname) => {
                        let nm = mname.clone();
                        match parse_list(tokens, p2 + 2, diags) {
                            Some((args, aspan, p3)) => {
                                proof {
                                    lemma_seq_assoc(
                                        old(diags)@,
                                        sp_call_diags(tokens@, pos as int),
                                        sp_list_diags(tokens@, p2 as int + 2),
                                    );
                                    lemma_tok_le(tokens@, p as int - 1, p2 as int + 1);
                                    assert(span_in_region(tokens@, pos as int, p2 as int + 2, c.1));
                                    lemma_call_node_wf(
                                        tokens@,
                                        pos as int,
                                        p2 as int + 2,
                                        p3 as int,
                                        view_spanned(c),
                                        args@,
                                        aspan,
                                        Span { start: c.1.start, end: aspan.end },
                                    );
                                }
                                let s = Span { start: c.1.start, end: aspan.end };
                                Some(((Expression::MethodCall(Box::new(c), nm, args), s), p3))
                            },
                            None => {
                                proof {
                                    lemma_seq_assoc(
                                        old(diags)@,
                                        sp_call_diags(tokens@, pos as int),
                                        sp_list_diags(tokens@, p2 as int + 2),
                                    );
                                    lemma_view_args_empty();
                                    lemma_tok_le(tokens@, p as int - 1, p2 as int + 1);
                                }
                                let s = Span { start: c.1.start, end: tokens[p2 + 1].1.end };
                                Some(
                                    ((Expression::MethodCall(Box::new(c), nm, Vec::new()), s), p2
                                        + 2),
                                )
                            },
                        }
                    },
                    _ => Some((c, p)),
                }
            } else {
                Some((c, p))
            }
        },
    }
}

/// Product layer: a method-call-or-call term, then `*` and `/` left-folded
/// over further call terms.
#[verifier::rlimit(100)]
fn parse_product(tokens: &Vec<(Token, Span)>, pos: usize, diags: &mut Vec<Diagnostic>) -> (r:
    Option<(Spanned<Expression>, usize)>)
    requires
        tokens_wf(tokens@),
        pos <= tokens@.len(),
    ensures
        res_matches(r, sp_product(tokens@, pos as int)),
        good_node(tokens@, pos as int, r),
        final(diags)@ == old(diags)@ + sp_product_diags(tokens@, pos as int),
    decreases tokens@.len() - pos, 6int,
{
    match parse_method(tokens, pos, diags) {
        None => {
            proof {
                lemma_product_open(tokens@, pos as int);
            }
            None
        },
        Some((a, p)) => {
            let ghost target = sp_product_fold(tokens@, view_spanned(a), p as int);
            proof {
                lemma_product_open(tokens@, pos as int);
                lemma_seq_assoc(
                    old(diags)@,
                    sp_postfix_diags(tokens@, pos as int),
                    sp_product_fold_diags(tokens@, p as int),
                );
            }
            let mut cur = a;
            let mut cp = p;
            loop
                invariant
                    tokens_wf(tokens@),
                    pos < cp <= tokens@.len(),
                    sp_product(tokens@, pos as int) == Some(target),
                    sp_product_fold(tokens@, view_spanned(cur), cp as int) == target,
                    well_spanned(view_expr(cur.0), cur.1),
                    span_in_region(tokens@, pos as int, cp as int, cur.1),
                    old(diags)@ + sp_product_diags(tokens@, pos as int) == diags@
                        + sp_product_fold_diags(tokens@, cp as int),
                decreases tokens@.len() - cp,
            {
                if cp >= tokens.len() {
                    proof {
                        lemma_product_fold_stop(tokens@, cp as int, view_spanned(cur));
                        lemma_seq_add_empty(diags@);
                    }
                    return Some((cur, cp));
                }
                let op = match &tokens[cp].0 {
                    Token::Mul => Some(MathOp::Mul),
                    Token::Div => Some(MathOp::Div),
                    _ => None,
                };
                match op {
                    None => {
                        proof {
                            lemma_product_fold_stop(tokens@, cp as int, view_spanned(cur));
                            lemma_seq_add_empty(diags@);
                        }
                        return Some((cur, cp));
                    },
                    Some(op) => {
                        let ghost d1 = diags@;
                        match parse_call(tokens, cp + 1, diags) {
                            None => {
                                proof {
                                    lemma_product_fold_stop(tokens@, cp as int, view_spanned(cur));
                                }
                                return Some((cur, cp));
                            },
                            Some((rhs, p2)) => {
                                proof {
                                    lemma_product_fold_step(
                                        tokens@,
                                        cp as int,
                                        p2 as int,
                                        view_spanned(cur),
                                        view_spanned(rhs),
                                        op,
                                    );
                                    lemma_seq_assoc(
                                        d1,
                                        sp_call_diags(tokens@, cp as int + 1),
                                        sp_product_fold_diags(tokens@, p2 as int),
                                    );
                                    lemma_binary_node_wf(
                                        tokens@,
                                        pos as int,
                                        cp as int,
                                        p2 as int,
                                        view_spanned(cur),
                                        view_spanned(rhs),
                                        Span { start: cur.1.start, end: rhs.1.end },
                                    );
                                }
                                let s = Span { start: cur.1.start, end: rhs.1.end };
                                let node = Expression::MathOp(Box::new(cur), op, Box::new(rhs));
                                cur = (node, s);
                                cp = p2;
                            },
                        }
                    },
                }
            }
        },
    }
}

/// Sum layer: products, then `+` and `-` left-folded over further products.
#[verifier::rlimit(100)]
fn parse_sum(tokens: &Vec<(Token, Span)>, pos: usize, diags: &mut Vec<Diagnostic>) -> (r: Option<
    (Spanned<Expression>, usize)>)
    requires
        tokens_wf(tokens@),
        pos <= tokens@.len(),
    ensures
        res_matches(r, sp_sum(tokens@, pos as int)),
        good_node(tokens@, pos as int, r),
        final(diags)@ == old(diags)@ + sp_sum_diags(tokens@, pos as int),
    decreases tokens@.len() - pos, 7int,
{
    match parse_product(tokens, pos, diags) {
        None => {
            proof {
                lemma_sum_open(tokens@, pos as int);
            }
            None
        },
        Some((a, p)) => {
            let ghost target = sp_sum_fold(tokens@, view_spanned(a), p as int);
            proof {
                lemma_sum_open(tokens@, pos as int);
                lemma_seq_assoc(
                    old(diags)@,
                    sp_product_diags(tokens@, pos as int),
                    sp_sum_fold_diags(tokens@, p as int),
                );
            }
            let mut cur = a;
            let mut cp = p;
            loop
                invariant
                    tokens_wf(tokens@),
                    pos < cp <= tokens@.len(),
                    sp_sum(tokens@, pos as int) == Some(target),
                    sp_sum_fold(tokens@, view_spanned(cur), cp as int) == target,
                    well_spanned(view_expr(cur.0), cur.1),
                    span_in_region(tokens@, pos as int, cp as int, cur.1),
                    old(diags)@ + sp_sum_diags(tokens@, pos as int) == diags@
                        + sp_sum_fold_diags(tokens@, cp as int),
                decreases tokens@.len() - cp,
            {
                if cp >= tokens.len() {
                    proof {
                        lemma_sum_fold_stop(tokens@, cp as int, view_spanned(cur));
                        lemma_seq_add_empty(diags@);
                    }
                    return Some((cur, cp));
                }
                let op = match &tokens[cp].0 {
                    Token::Add => Some(MathOp::Add),
                    Token::Sub => Some(MathOp::Sub),
                    _ => None,
                };
                match op {
                    None => {
                        proof {
                            lemma_sum_fold_stop(tokens@, cp as int, view_spanned(cur));
                            lemma_seq_add_empty(diags@);
                        }
                        return Some((cur, cp));
                    },
                    Some(op) => {
                        let ghost d1 = diags@;
                        match parse_product(tokens, cp + 1, diags) {
                            None => {
                                proof {
                                    lemma_sum_fold_stop(tokens@, cp as int, view_spanned(cur));
                                }
                                return Some((cur, cp));
                            },
                            Some((rhs, p2)) => {
                                proof {
                                    lemma_sum_fold_step(
                                        tokens@,
                                        cp as int,
                                        p2 as int,
                                        view_spanned(cur),
                                        view_spanned(rhs),
                                        op,
                                    );
                                    lemma_seq_assoc(
                                        d1,
                                        sp_product_diags(tokens@, cp as int + 1),
                                        sp_sum_fold_diags(tokens@, p2 as int),
                                    );
                                    lemma_binary_node_wf(
                                        tokens@,
                                        pos as int,
                                        cp as int,
                                        p2 as int,
                                        view_spanned(cur),
                                        view_spanned(rhs),
                                        Span { start: cur.1.start, end: rhs.1.end },
                                    );
                                }
                                let s = Span { start: cur.1.start, end: rhs.1.end };
                                let node = Expression::MathOp(Box::new(cur), op, Box::new(rhs));
                                cur = (node, s);
                                cp = p2;
                            },
                        }
                    },
                }
            }
        },
    }
}

/// Logical layer: sums, then `and`/`or`/`xor` left-folded, all three at one
/// precedence level.
#[verifier::rlimit(100)]
fn parse_logical(tokens: &Vec<(Token, Span)>, pos: usize, diags: &mut Vec<Diagnostic>) -> (r:
    Option<(Spanned<Expression>, usize)>)
    requires
        tokens_wf(tokens@),
        pos <= tokens@.len(),
    ensures
        res_matches(r, sp_logical(tokens@, pos as int)),
        good_node(tokens@, pos as int, r),
        final(diags)@ == old(diags)@ + sp_logical_diags(tokens@, pos as int),
    decreases tokens@.len() - pos, 8int,
{
    match parse_sum(tokens, pos, diags) {
        None => {
            proof {
                lemma_logical_open(tokens@, pos as int);
            }
            None
        },
        Some((a, p)) => {
            let ghost target = sp_logical_fold(tokens@, view_spanned(a), p as int);
            proof {
                lemma_logical_open(tokens@, pos as int);
                lemma_seq_assoc(
                    old(diags)@,
                    sp_sum_diags(tokens@, pos as int),
                    sp_logical_fold_diags(tokens@, p as int),
                );
            }
            let mut cur = a;
            let mut cp = p;
            loop
                invariant
                    tokens_wf(tokens@),
                    pos < cp <= tokens@.len(),
                    sp_logical(tokens@, pos as int) == Some(target),
                    sp_logical_fold(tokens@, view_spanned(cur), cp as int) == target,
                    well_spanned(view_expr(cur.0), cur.1),
                    span_in_region(tokens@, pos as int, cp as int, cur.1),
                    old(diags)@ + sp_logical_diags(tokens@, pos as int) == diags@
                        + sp_logical_fold_diags(tokens@, cp as int),
                decreases tokens@.len() - cp,
            {
                if cp >= tokens.len() {
                    proof {
                        lemma_logical_fold_stop(tokens@, cp as int, view_spanned(cur));
                        lemma_seq_add_empty(diags@);
                    }
                    return Some((cur, cp));
                }
                let op = match &tokens[cp].0 {
                    Token::And => Some(BinaryOp::And),
                    Token::Or => Some(BinaryOp::Or),
                    Token::Xor => Some(BinaryOp::Xor),
                    _ => None,
                };
                match op {
                    None => {
                        proof {
                            lemma_logical_fold_stop(tokens@, cp as int, view_spanned(cur));
                            lemma_seq_add_empty(diags@);
                        }
                        return Some((cur, cp));
                    },
                    Some(op) => {
                        let ghost d1 = diags@;
                        match parse_sum(tokens, cp + 1, diags) {
                            None => {
                                proof {
                                    lemma_logical_fold_stop(tokens@, cp as int, view_spanned(cur));
                                }
                                return Some((cur, cp));
                            },
                            Some((rhs, p2)) => {
                                proof {
                                    lemma_logical_fold_step(
                                        tokens@,
                                        cp as int,
                                        p2 as int,
                                        view_spanned(cur),
                                        view_spanned(rhs),
                                        op,
                                    );
                                    lemma_seq_assoc(
                                        d1,
                                        sp_sum_diags(tokens@, cp as int + 1),
                                        sp_logical_fold_diags(tokens@, p2 as int),
                                    );
                                    lemma_binary_node_wf(
                                        tokens@,
                                        pos as int,
                                        cp as int,
                                        p2 as int,
                                        view_spanned(cur),
                                        view_spanned(rhs),
                                        Span { start: cur.1.start, end: rhs.1.end },
                                    );
                                }
                                let s = Span { start: cur.1.start, end: rhs.1.end };
                                let node = Expression::Binary(Box::new(cur), op, Box::new(rhs));
                                cur = (node, s);
                                cp = p2;
                            },
                        }
                    },
                }
            }
        },
    }
}

/// Comparison layer: logical results, then `=`/`!=`/`>`/`<` left-folded into
/// the flat left-leaning chain.
#[verifier::rlimit(100)]
fn parse_comparison(tokens: &Vec<(Token, Span)>, pos: usize, diags: &mut Vec<Diagnostic>) -> (r:
    Option<(Spanned<Expression>, usize)>)
    requires
        tokens_wf(tokens@),
        pos <= tokens@.len(),
    ensures
        res_matches(r, sp_comparison(tokens@, pos as int)),
        good_node(tokens@, pos as int, r),
        final(diags)@ == old(diags)@ + sp_comparison_diags(tokens@, pos as int),
    decreases tokens@.len() - pos, 9int,
{
    match parse_logical(tokens, pos, diags) {
        None => {
            proof {
                lemma_comparison_open(tokens@, pos as int);
            }
            None
        },
        Some((a, p)) => {
            let ghost target = sp_comparison_fold(tokens@, view_spanned(a), p as int);
            proof {
                lemma_comparison_open(tokens@, pos as int);
                lemma_seq_assoc(
                    old(diags)@,
                    sp_logical_diags(tokens@, pos as int),
                    sp_comparison_fold_diags(tokens@, p as int),
                );
            }
            let mut cur = a;
            let mut cp = p;
            loop
                invariant_except_break
                    old(diags)@ + sp_comparison_diags(tokens@, pos as int) == diags@
                        + sp_comparison_fold_diags(tokens@, cp as int),
                invariant
                    tokens_wf(tokens@),
                    pos < cp <= tokens@.len(),
                    sp_comparison_fold(tokens@, view_spanned(cur), cp as int) == target,
                    well_spanned(view_expr(cur.0), cur.1),
                    span_in_region(tokens@, pos as int, cp as int, cur.1),
                ensures
                    pos < cp <= tokens@.len(),
                    (view_spanned(cur), cp as int) == target,
                    well_spanned(view_expr(cur.0), cur.1),
                    span_in_region(tokens@, pos as int, cp as int, cur.1),
                    diags@ == old(diags)@ + sp_comparison_diags(tokens@, pos as int),
                decreases tokens@.len() - cp,
            {
                if cp >= tokens.len() {
                    proof {
                        lemma_comparison_fold_stop(tokens@, cp as int, view_spanned(cur));
                        lemma_seq_add_empty(diags@);
                    }
                    break;
                }
                let op = match &tokens[cp].0 {
                    Token::Eq => Some(ComparisonOp::Eq),
                    Token::Neq => Some(ComparisonOp::Neq),
                    Token::Gt => Some(ComparisonOp::Gt),
                    Token::Lt => Some(ComparisonOp::Lt),
                    _ => None,
                };
                match op {
                    None => {
                        proof {
                            lemma_comparison_fold_stop(tokens@, cp as int, view_spanned(cur));
                            lemma_seq_add_empty(diags@);
                        }
                        break;
                    },
                    Some(op) => {
                        let ghost d1 = diags@;
                        match parse_logical(tokens, cp + 1, diags) {
                            None => {
                                proof {
                                    lemma_comparison_fold_stop(tokens@, cp as int, view_spanned(cur));
                                }
                                break;
                            },
                            Some((rhs, p2)) => {
                                proof {
                                    lemma_comparison_fold_step(
                                        tokens@,
                                        cp as int,
                                        p2 as int,
                                        view_spanned(cur),
                                        view_spanned(rhs),
                                        op,
                                    );
                                    lemma_seq_assoc(
                                        d1,
                                        sp_logical_diags(tokens@, cp as int + 1),
                                        sp_comparison_fold_diags(tokens@, p2 as int),
                                    );
                                    lemma_binary_node_wf(
                                        tokens@,
                                        pos as int,
                                        cp as int,
                                        p2 as int,
                                        view_spanned(cur),
                                        view_spanned(rhs),
                                        Span { start: cur.1.start, end: rhs.1.end },
                                    );
                                }
                                let s = Span { start: cur.1.start, end: rhs.1.end };
                                let node = Expression::Comparison(Box::new(cur), op, Box::new(rhs));
                                cur = (node, s);
                                cp = p2;
                            },
                        }
                    },
                }
            }
            Some((cur, cp))
        },
    }
}

/// A full expression: the top of the precedence ladder.
#[verifier::rlimit(100)]
pub(crate) fn parse_expr(tokens: &Vec<(Token, Span)>, pos: usize, diags: &mut Vec<Diagnostic>)
    -> (r: Option<(Spanned<Expression>, usize)>)
    requires
        tokens_wf(tokens@),
        pos <= tokens@.len(),
    ensures
        res_matches(r, sp_expression(tokens@, pos as int)),
        good_node(tokens@, pos as int, r),
        final(diags)@ == old(diags)@ + sp_expression_diags(tokens@, pos as int),
    decreases tokens@.len() - pos, 10int,
{
    proof {
        reveal(sp_expression);
        reveal(sp_comparison);
        reveal(sp_expression_diags);
        reveal(sp_comparison_diags);
    }
    parse_comparison(tokens, pos, diags)
}

} // verus!
