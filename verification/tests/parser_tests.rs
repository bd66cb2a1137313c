use expr_parser::ast::{
    BinaryOp, ComparisonOp, DiagnosticKind, Expected, Expression, MathOp, Number, Span, Token,
    Value,
};
use expr_parser::parser::{parse_expression, parse_from_lex, range_into_span};

/// Pair each token with the span `[i, i + 1)`, the shape a lexer over a
/// source of one-character tokens produces.
fn spanned(tokens: Vec<Token>) -> Vec<(Token, Span)> {
    tokens
        .into_iter()
        .enumerate()
        .map(|(i, t)| (t, Span { start: i, end: i + 1 }))
        .collect()
}

fn sp(start: usize, end: usize) -> Span {
    Span { start, end }
}

fn num(v: i64) -> Expression {
    Expression::Value(Value::Number(Number::Int(v)))
}

fn ident(s: &str) -> Expression {
    Expression::Ident(s.to_string())
}

fn bx(e: Expression, start: usize, end: usize) -> Box<(Expression, Span)> {
    Box::new((e, sp(start, end)))
}

#[test]
fn empty_input_gives_no_tree() {
    let (tree, diags) = parse_expression(&Vec::new());
    assert!(tree.is_none());
    assert!(diags.is_empty());
}

#[test]
fn precedence_product_binds_tighter_than_sum() {
    // "1+2*3"
    let toks = spanned(vec![
        Token::Integer(1),
        Token::Add,
        Token::Integer(2),
        Token::Mul,
        Token::Integer(3),
    ]);
    let (tree, diags) = parse_expression(&toks);
    let inner = Expression::MathOp(bx(num(2), 2, 3), MathOp::Mul, bx(num(3), 4, 5));
    let expected = Expression::MathOp(bx(num(1), 0, 1), MathOp::Add, Box::new((inner, sp(2, 5))));
    assert_eq!(tree, Some((expected, sp(0, 5))));
    assert!(diags.is_empty());
}

#[test]
fn subtraction_is_left_associative() {
    // "1-2-3"
    let toks = spanned(vec![
        Token::Integer(1),
        Token::Sub,
        Token::Integer(2),
        Token::Sub,
        Token::Integer(3),
    ]);
    let (tree, diags) = parse_expression(&toks);
    let inner = Expression::MathOp(bx(num(1), 0, 1), MathOp::Sub, bx(num(2), 2, 3));
    let expected = Expression::MathOp(Box::new((inner, sp(0, 3))), MathOp::Sub, bx(num(3), 4, 5));
    assert_eq!(tree, Some((expected, sp(0, 5))));
    assert!(diags.is_empty());
}

#[test]
fn call_chaining_folds_left() {
    // "f(1)(2)"
    let toks = spanned(vec![
        Token::Ident("f".to_string()),
        Token::Lparen,
        Token::Integer(1),
        Token::Rparen,
        Token::Lparen,
        Token::Integer(2),
        Token::Rparen,
    ]);
    let (tree, diags) = parse_expression(&toks);
    let inner = Expression::FunctionCall(bx(ident("f"), 0, 1), vec![(num(1), sp(2, 3))]);
    let expected =
        Expression::FunctionCall(Box::new((inner, sp(0, 4))), vec![(num(2), sp(5, 6))]);
    assert_eq!(tree, Some((expected, sp(0, 7))));
    assert!(diags.is_empty());
}

#[test]
fn method_sugar_with_arguments() {
    // "a.b(1,2)"
    let toks = spanned(vec![
        Token::Ident("a".to_string()),
        Token::Period,
        Token::Ident("b".to_string()),
        Token::Lparen,
        Token::Integer(1),
        Token::Comma,
        Token::Integer(2),
        Token::Rparen,
    ]);
    let (tree, diags) = parse_expression(&toks);
    let expected = Expression::MethodCall(
        bx(ident("a"), 0, 1),
        "b".to_string(),
        vec![(num(1), sp(4, 5)), (num(2), sp(6, 7))],
    );
    assert_eq!(tree, Some((expected, sp(0, 8))));
    assert!(diags.is_empty());
}

#[test]
fn method_sugar_without_argument_list() {
    // "a.b"
    let toks = spanned(vec![
        Token::Ident("a".to_string()),
        Token::Period,
        Token::Ident("b".to_string()),
    ]);
    let (tree, diags) = parse_expression(&toks);
    let expected = Expression::MethodCall(bx(ident("a"), 0, 1), "b".to_string(), vec![]);
    assert_eq!(tree, Some((expected, sp(0, 3))));
    assert!(diags.is_empty());
}

#[test]
fn optional_suffix_wraps_atom_and_extends_span() {
    // "x?"
    let toks = spanned(vec![Token::Ident("x".to_string()), Token::QuestionMark]);
    let (tree, diags) = parse_expression(&toks);
    let expected = Expression::Value(Value::Option(Box::new(ident("x"))));
    assert_eq!(tree, Some((expected, sp(0, 2))));
    assert!(diags.is_empty());
}

#[test]
fn comparison_chain_folds_flat_and_left() {
    // "a=b=c"
    let toks = spanned(vec![
        Token::Ident("a".to_string()),
        Token::Eq,
        Token::Ident("b".to_string()),
        Token::Eq,
        Token::Ident("c".to_string()),
    ]);
    let (tree, diags) = parse_expression(&toks);
    let inner =
        Expression::Comparison(bx(ident("a"), 0, 1), ComparisonOp::Eq, bx(ident("b"), 2, 3));
    let expected = Expression::Comparison(
        Box::new((inner, sp(0, 3))),
        ComparisonOp::Eq,
        bx(ident("c"), 4, 5),
    );
    assert_eq!(tree, Some((expected, sp(0, 5))));
    assert!(diags.is_empty());
}

#[test]
fn unterminated_group_recovers_to_end_of_input() {
    // "(1+"
    let toks = spanned(vec![Token::Lparen, Token::Integer(1), Token::Add]);
    let (tree, diags) = parse_expression(&toks);
    assert_eq!(tree, Some((Expression::ParserError, sp(0, 3))));
    assert_eq!(diags.len(), 1);
    assert_eq!(diags[0].kind, DiagnosticKind::UnterminatedBracket);
    assert_eq!(diags[0].span, sp(0, 3));
    assert_eq!(diags[0].expected, Expected::ClosingDelimiter);
    assert_eq!(diags[0].found, Some(Token::Add));
}

#[test]
fn malformed_argument_list_resynchronizes_at_closing_bracket() {
    // "f(1+, 2)"
    let toks = spanned(vec![
        Token::Ident("f".to_string()),
        Token::Lparen,
        Token::Integer(1),
        Token::Add,
        Token::Comma,
        Token::Integer(2),
        Token::Rparen,
    ]);
    let (tree, diags) = parse_expression(&toks);
    let expected = Expression::FunctionCall(
        bx(ident("f"), 0, 1),
        vec![(Expression::ParserError, sp(1, 7))],
    );
    assert_eq!(tree, Some((expected, sp(0, 7))));
    assert_eq!(diags.len(), 1);
    assert_eq!(diags[0].kind, DiagnosticKind::MalformedBracketContent);
    assert_eq!(diags[0].span, sp(1, 7));
    assert_eq!(diags[0].expected, Expected::ClosingDelimiter);
    assert_eq!(diags[0].found, Some(Token::Add));
}

#[test]
fn reparsing_same_tokens_gives_identical_tree() {
    let toks = spanned(vec![
        Token::Integer(1),
        Token::Add,
        Token::Integer(2),
        Token::Mul,
        Token::Integer(3),
    ]);
    let (first, d1) = parse_expression(&toks);
    let (second, d2) = parse_expression(&toks);
    assert!(d1.is_empty());
    assert!(d2.is_empty());
    assert_eq!(first, second);
}

#[test]
fn zero_argument_call() {
    // "f()"
    let toks = spanned(vec![Token::Ident("f".to_string()), Token::Lparen, Token::Rparen]);
    let (tree, diags) = parse_expression(&toks);
    let expected = Expression::FunctionCall(bx(ident("f"), 0, 1), vec![]);
    assert_eq!(tree, Some((expected, sp(0, 3))));
    assert!(diags.is_empty());
}

#[test]
fn trailing_comma_is_tolerated() {
    // "f(1,)"
    let toks = spanned(vec![
        Token::Ident("f".to_string()),
        Token::Lparen,
        Token::Integer(1),
        Token::Comma,
        Token::Rparen,
    ]);
    let (tree, diags) = parse_expression(&toks);
    let expected = Expression::FunctionCall(bx(ident("f"), 0, 1), vec![(num(1), sp(2, 3))]);
    assert_eq!(tree, Some((expected, sp(0, 5))));
    assert!(diags.is_empty());
}

#[test]
fn newline_separator_inside_argument_list() {
    // "f(1,\n2)"
    let toks = spanned(vec![
        Token::Ident("f".to_string()),
        Token::Lparen,
        Token::Integer(1),
        Token::Newline,
        Token::Comma,
        Token::Integer(2),
        Token::Rparen,
    ]);
    let (tree, diags) = parse_expression(&toks);
    let expected = Expression::FunctionCall(
        bx(ident("f"), 0, 1),
        vec![(num(1), sp(2, 3)), (num(2), sp(5, 6))],
    );
    assert_eq!(tree, Some((expected, sp(0, 7))));
    assert!(diags.is_empty());
}

#[test]
fn parenthesized_group_keeps_inner_span() {
    // "(1+2)*3"
    let toks = spanned(vec![
        Token::Lparen,
        Token::Integer(1),
        Token::Add,
        Token::Integer(2),
        Token::Rparen,
        Token::Mul,
        Token::Integer(3),
    ]);
    let (tree, diags) = parse_expression(&toks);
    let inner = Expression::MathOp(bx(num(1), 1, 2), MathOp::Add, bx(num(2), 3, 4));
    let expected =
        Expression::MathOp(Box::new((inner, sp(1, 4))), MathOp::Mul, bx(num(3), 6, 7));
    assert_eq!(tree, Some((expected, sp(1, 7))));
    assert!(diags.is_empty());
}

#[test]
fn logical_operators_share_one_level() {
    // "a and b or c"
    let toks = spanned(vec![
        Token::Ident("a".to_string()),
        Token::And,
        Token::Ident("b".to_string()),
        Token::Or,
        Token::Ident("c".to_string()),
    ]);
    let (tree, diags) = parse_expression(&toks);
    let inner = Expression::Binary(bx(ident("a"), 0, 1), BinaryOp::And, bx(ident("b"), 2, 3));
    let expected =
        Expression::Binary(Box::new((inner, sp(0, 3))), BinaryOp::Or, bx(ident("c"), 4, 5));
    assert_eq!(tree, Some((expected, sp(0, 5))));
    assert!(diags.is_empty());
}

#[test]
fn unexpected_token_yields_error_tree_and_diagnostic() {
    // "+"
    let toks = spanned(vec![Token::Add]);
    let (tree, diags) = parse_expression(&toks);
    assert_eq!(tree, Some((Expression::ParserError, sp(0, 1))));
    assert_eq!(diags.len(), 1);
    assert_eq!(diags[0].kind, DiagnosticKind::UnexpectedToken);
}

#[test]
fn trailing_tokens_are_reported_but_tree_kept() {
    // "1 2"
    let toks = spanned(vec![Token::Integer(1), Token::Integer(2)]);
    let (tree, diags) = parse_expression(&toks);
    assert_eq!(tree, Some((num(1), sp(0, 1))));
    assert_eq!(diags.len(), 1);
    assert_eq!(diags[0].kind, DiagnosticKind::UnexpectedToken);
    assert_eq!(diags[0].span, sp(1, 2));
    assert_eq!(diags[0].expected, Expected::EndOfInput);
    assert_eq!(diags[0].found, Some(Token::Integer(2)));
}

#[test]
fn literal_atoms_carry_their_values() {
    let toks = spanned(vec![Token::True]);
    let (tree, _) = parse_expression(&toks);
    assert_eq!(tree, Some((Expression::Value(Value::Bool(true)), sp(0, 1))));

    let toks = spanned(vec![Token::LiteralString("hi".to_string())]);
    let (tree, _) = parse_expression(&toks);
    assert_eq!(
        tree,
        Some((Expression::Value(Value::String("hi".to_string())), sp(0, 1)))
    );

    let toks = spanned(vec![Token::Span(Span { start: 3, end: 7 })]);
    let (tree, _) = parse_expression(&toks);
    assert_eq!(tree, Some((Expression::Value(Value::Span(3, 7)), sp(0, 1))));

    let bits = 0x3ff0000000000000u64;
    let toks = spanned(vec![Token::Float(bits)]);
    let (tree, _) = parse_expression(&toks);
    assert_eq!(
        tree,
        Some((Expression::Value(Value::Number(Number::Float(bits))), sp(0, 1)))
    );
}

#[test]
fn mismatched_bracket_kinds_do_not_recover() {
    // "([1)"
    let toks = spanned(vec![Token::Lparen, Token::Lbracket, Token::Integer(1), Token::Rparen]);
    let (tree, diags) = parse_expression(&toks);
    assert_eq!(tree, Some((Expression::ParserError, sp(0, 4))));
    assert_eq!(diags.len(), 1);
    assert_eq!(diags[0].kind, DiagnosticKind::UnexpectedToken);
}

#[test]
fn nested_bracket_pairs_balance_during_recovery() {
    // "([])"
    let toks = spanned(vec![Token::Lparen, Token::Lbracket, Token::Rbracket, Token::Rparen]);
    let (tree, diags) = parse_expression(&toks);
    assert_eq!(tree, Some((Expression::ParserError, sp(0, 4))));
    assert_eq!(diags.len(), 1);
    assert_eq!(diags[0].kind, DiagnosticKind::MalformedBracketContent);
}

#[test]
fn parse_from_lex_matches_parse_expression() {
    let toks = spanned(vec![Token::Integer(4), Token::Add, Token::Integer(5)]);
    let (a, da) = parse_from_lex(&toks);
    let (b, db) = parse_expression(&toks);
    assert_eq!(a, b);
    assert_eq!(da, db);
}

#[test]
fn range_into_span_keeps_tokens_and_offsets() {
    let input = vec![
        (Token::Ident("x".to_string()), 0usize..1usize),
        (Token::Add, 2..3),
        (Token::Integer(9), 4..6),
    ];
    let out = range_into_span(&input);
    assert_eq!(out.len(), 3);
    assert_eq!(out[0], (Token::Ident("x".to_string()), sp(0, 1)));
    assert_eq!(out[1], (Token::Add, sp(2, 3)));
    assert_eq!(out[2], (Token::Integer(9), sp(4, 6)));
}

#[test]
fn comparison_of_arithmetic_results() {
    // "1+2*3=4"
    let toks = spanned(vec![
        Token::Integer(1),
        Token::Add,
        Token::Integer(2),
        Token::Mul,
        Token::Integer(3),
        Token::Eq,
        Token::Integer(4),
    ]);
    let (tree, diags) = parse_expression(&toks);
    let prod = Expression::MathOp(bx(num(2), 2, 3), MathOp::Mul, bx(num(3), 4, 5));
    let sum = Expression::MathOp(bx(num(1), 0, 1), MathOp::Add, Box::new((prod, sp(2, 5))));
    let expected = Expression::Comparison(
        Box::new((sum, sp(0, 5))),
        ComparisonOp::Eq,
        bx(num(4), 6, 7),
    );
    assert_eq!(tree, Some((expected, sp(0, 7))));
    assert!(diags.is_empty());
}

#[test]
fn nesting_beyond_the_limit_is_refused_with_a_dedicated_diagnostic() {
    // 257 opening brackets: one past the supported depth
    let mut tokens: Vec<Token> = Vec::new();
    for _ in 0..257 {
        tokens.push(Token::Lparen);
    }
    let toks = spanned(tokens);
    let (tree, diags) = parse_expression(&toks);
    assert_eq!(tree, Some((Expression::ParserError, sp(0, 257))));
    assert_eq!(diags.len(), 1);
    assert_eq!(diags[0].kind, DiagnosticKind::NestingTooDeep);
    assert_eq!(diags[0].span, sp(0, 257));
    assert_eq!(diags[0].found, None);
}

#[test]
fn nesting_at_the_limit_still_parses() {
    // 256 nested groups around a single literal
    let mut tokens: Vec<Token> = Vec::new();
    for _ in 0..256 {
        tokens.push(Token::Lparen);
    }
    tokens.push(Token::Integer(7));
    for _ in 0..256 {
        tokens.push(Token::Rparen);
    }
    let toks = spanned(tokens);
    let (tree, diags) = parse_expression(&toks);
    assert_eq!(tree, Some((num(7), sp(256, 257))));
    assert!(diags.is_empty());
}

#[test]
fn reparsing_gives_identical_diagnostics_too() {
    // "f(1+, 2)" twice: same tree and the same diagnostics both times
    let mk = || {
        spanned(vec![
            Token::Ident("f".to_string()),
            Token::Lparen,
            Token::Integer(1),
            Token::Add,
            Token::Comma,
            Token::Integer(2),
            Token::Rparen,
        ])
    };
    let (t1, d1) = parse_expression(&mk());
    let (t2, d2) = parse_expression(&mk());
    assert_eq!(t1, t2);
    assert_eq!(d1, d2);
}
