use vstd::prelude::*;

use crate::ast::{Diagnostic, DiagnosticKind, Expected, Expression, Span, Spanned, Token};
use crate::expression_parser::{clone_token, lemma_tok_le, parse_expr};
use crate::grammar::{sp_parse, sp_parse_diags, sp_too_deep, MAX_NESTING_DEPTH};
use crate::model::{tokens_wf, view_expr, view_spanned, well_spanned, GExpr};

verus! {

/// Whether the input's bracket nesting ever passes `MAX_NESTING_DEPTH`. The
/// scan is a plain loop, so the guard itself costs no recursion.
fn nesting_too_deep(tokens: &Vec<(Token, Span)>) -> (r: bool)
    ensures
        r == sp_too_deep(tokens@, 0, 0),
{
    let mut i: usize = 0;
    let mut cur: usize = 0;
    loop
        invariant
            i <= tokens@.len(),
            cur <= MAX_NESTING_DEPTH,
            sp_too_deep(tokens@, i as int, cur as int) == sp_too_deep(tokens@, 0, 0),
        decreases tokens@.len() - i,
    {
        if i >= tokens.len() {
            return false;
        }
        match &tokens[i].0 {
            Token::Lparen => {
                if cur >= MAX_NESTING_DEPTH {
                    return true;
                }
                cur = cur + 1;
            },
            Token::Lbracket => {
                if cur >= MAX_NESTING_DEPTH {
                    return true;
                }
                cur = cur + 1;
            },
            Token::Rparen => {
                if cur > 0 {
                    cur = cur - 1;
                }
            },
            Token::Rbracket => {
                if cur > 0 {
                    cur = cur - 1;
                }
            },
            _ => {},
        }
        i = i + 1;
    }
}

/// Parse one expression from the whole token stream.
///
/// The tree is `None` only when the input is empty; otherwise a tree is
/// always produced, possibly containing `ParserError` nodes. The tree
/// abstracts to exactly what the grammar function `sp_parse` states, it is
/// well-spanned, and its span lies within the source region the tokens cover
/// — so, with a lexer whose spans cover the source, every node's span lies
/// within the bounds of the input. The returned diagnostics are exactly
/// `sp_parse_diags` of the tokens: an error-free parse returns none, each
/// recovery contributes exactly one, leftover input exactly one, and an input
/// nested beyond `MAX_NESTING_DEPTH` is refused up front with exactly one
/// `NestingTooDeep` diagnostic instead of risking stack exhaustion.
pub fn parse_expression(tokens: &Vec<(Token, Span)>) -> (r: (
    Option<Spanned<Expression>>,
    Vec<Diagnostic>,
))
    requires
        tokens_wf(tokens@),
    ensures
        (match r.0 {
            Some(se) => tokens@.len() > 0 && Some(view_spanned(se)) == sp_parse(tokens@)
                && well_spanned(view_expr(se.0), se.1) && tokens@[0].1.start <= se.1.start
                && se.1.end <= tokens@[tokens@.len() - 1].1.end,
            None => tokens@.len() == 0 && sp_parse(tokens@) is None,
        }),
        r.1@ == sp_parse_diags(tokens@),
{
    let mut diags: Vec<Diagnostic> = Vec::new();
    if tokens.len() == 0 {
        return (None, diags);
    }
    proof {
        lemma_tok_le(tokens@, 0, tokens@.len() - 1);
    }
    if nesting_too_deep(tokens) {
        let s = Span { start: tokens[0].1.start, end: tokens[tokens.len() - 1].1.end };
        diags.push(
            Diagnostic {
                span: s,
                kind: DiagnosticKind::NestingTooDeep,
                expected: Expected::Expression,
                found: None,
            },
        );
        proof {
            assert(diags@ =~= sp_parse_diags(tokens@));
        }
        return (Some((Expression::ParserError, s)), diags);
    }
    match parse_expr(tokens, 0, &mut diags) {
        Some((e, p)) => {
            if p < tokens.len() {
                proof {
                    lemma_tok_le(tokens@, p as int, tokens@.len() - 1);
                }
                let s = Span { start: tokens[p].1.start, end: tokens[tokens.len() - 1].1.end };
                let fnd = Some(clone_token(&tokens[p].0));
                diags.push(
                    Diagnostic {
                        span: s,
                        kind: DiagnosticKind::UnexpectedToken,
                        expected: Expected::EndOfInput,
                        found: fnd,
                    },
                );
                proof {
                    assert(diags@ =~= sp_parse_diags(tokens@));
                }
            }
            (Some(e), diags)
        },
        None => {
            let s = Span { start: tokens[0].1.start, end: tokens[tokens.len() - 1].1.end };
            let fnd = Some(clone_token(&tokens[0].0));
            diags.push(
                Diagnostic {
                    span: s,
                    kind: DiagnosticKind::UnexpectedToken,
                    expected: Expected::Expression,
                    found: fnd,
                },
            );
            proof {
                assert(diags@ =~= sp_parse_diags(tokens@));
            }
            (Some((Expression::ParserError, s)), diags)
        },
    }
}

/// Entry point on the lexer's output: parse the token stream it produced.
pub fn parse_from_lex(input: &Vec<(Token, Span)>) -> (r: (
    Option<Spanned<Expression>>,
    Vec<Diagnostic>,
))
    requires
        tokens_wf(input@),
    ensures
        (match r.0 {
            Some(se) => input@.len() > 0 && Some(view_spanned(se)) == sp_parse(input@)
                && well_spanned(view_expr(se.0), se.1) && input@[0].1.start <= se.1.start
                && se.1.end <= input@[input@.len() - 1].1.end,
            None => input@.len() == 0,
        }),
        r.1@ == sp_parse_diags(input@),
{
    parse_expression(input)
}

/// Turn the lexer's `(token, offset range)` pairs into the spanned tokens the
/// parser consumes, keeping every token and both offsets unchanged.
pub fn range_into_span(input: &Vec<(Token, core::ops::Range<usize>)>) -> (r: Vec<(Token, Span)>)
    ensures
        r@.len() == input@.len(),
        forall|i: int|
            0 <= i < input@.len() ==> (#[trigger] r@[i]).0 == input@[i].0 && r@[i].1.start
                == input@[i].1.start && r@[i].1.end == input@[i].1.end,
{
    let mut out: Vec<(Token, Span)> = Vec::new();
    let mut i: usize = 0;
    while i < input.len()
        invariant
            i <= input@.len(),
            out@.len() == i,
            forall|j: int|
                0 <= j < i ==> (#[trigger] out@[j]).0 == input@[j].0 && out@[j].1.start
                    == input@[j].1.start && out@[j].1.end == input@[j].1.end,
        decreases input@.len() - i,
    {
        let tk = clone_token(&input[i].0);
        let sp = Span { start: input[i].1.start, end: input[i].1.end };
        out.push((tk, sp));
        i = i + 1;
    }
    out
}

/// Re-parsing law: both halves of the output — the tree and the diagnostics —
/// are functions of the token sequence alone, so running the parser again on
/// the same serialized token stream yields a structurally identical tree and
/// the same diagnostics.
pub proof fn lemma_reparse_identical(
    t: Seq<(Token, Span)>,
    r1: Option<(GExpr, Span)>,
    d1: Seq<Diagnostic>,
    r2: Option<(GExpr, Span)>,
    d2: Seq<Diagnostic>,
)
    requires
        r1 == sp_parse(t),
        d1 == sp_parse_diags(t),
        r2 == sp_parse(t),
        d2 == sp_parse_diags(t),
    ensures
        r1 == r2,
        d1 == d2,
{
}

} // verus!
