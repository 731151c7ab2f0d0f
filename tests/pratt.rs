use pratt::{left_infix, prefix, right_infix, Expr, Failure, Operator, Pratt, Precedence, Strength};

fn chars(s: &str) -> Vec<char> {
    s.chars().collect()
}

fn infix_table() -> Vec<Operator> {
    vec![
        left_infix(vec!['+'], 0, '+'),
        left_infix(vec!['-'], 0, '-'),
        right_infix(vec!['*'], 1, '*'),
        right_infix(vec!['/'], 1, '/'),
    ]
}

fn engine() -> Pratt {
    Pratt::new(infix_table())
}

fn text(e: &Expr) -> String {
    e.render().into_iter().collect()
}

fn parse(input: &str) -> Result<String, Failure> {
    engine().parse_complete(&chars(input)).map(|e| text(&e))
}

fn parse_partial(input: &str) -> Result<String, Failure> {
    engine().parse(&chars(input)).map(|(e, _)| text(&e))
}

fn unexpected(found: Option<char>, pos: usize) -> Failure {
    Failure { pos, found }
}

#[test]
fn missing_first_expression() {
    assert_eq!(parse(""), Err(unexpected(None, 0)));
}

#[test]
fn missing_later_expression() {
    assert_eq!(parse("1+"), Err(unexpected(None, 2)));
}

#[test]
fn invalid_first_expression() {
    assert_eq!(parse("?"), Err(unexpected(Some('?'), 0)));
}

#[test]
fn invalid_later_expression() {
    assert_eq!(parse("1+?"), Err(unexpected(Some('?'), 2)));
}

#[test]
fn invalid_operator() {
    assert_eq!(parse("1?"), Err(unexpected(Some('?'), 1)));
}

#[test]
fn invalid_operator_incomplete() {
    assert_eq!(parse_partial("1?"), Ok("1".to_string()));
}

#[test]
fn complex_nesting() {
    assert_eq!(
        parse_partial("1+2*3/4*5-6*7+8-9+10"),
        Ok("(((((1 + (2 * (3 / (4 * 5)))) - (6 * 7)) + 8) - 9) + 10)".to_string()),
    );
}

#[test]
fn with_prefix_ops() {
    let parser = engine().with_prefix_ops(vec![
        prefix(vec!['-'], 1, '-'),
        prefix(vec!['!'], 1, '-'),
    ]);
    let r = parser.parse_complete(&chars("-1+2*3")).map(|e| text(&e));
    assert_eq!(r, Ok("((-1) + (2 * 3))".to_string()));
}

#[test]
fn left_assoc_chain_groups_from_left() {
    assert_eq!(parse("1-2-3+4"), Ok("(((1 - 2) - 3) + 4)".to_string()));
}

#[test]
fn right_assoc_chain_groups_from_right() {
    assert_eq!(parse("1*2/3*4"), Ok("(1 * (2 / (3 * 4)))".to_string()));
}

#[test]
fn higher_level_binds_tighter() {
    assert_eq!(parse("1*2+3"), Ok("((1 * 2) + 3)".to_string()));
    assert_eq!(parse("1+2*3"), Ok("(1 + (2 * 3))".to_string()));
    let ops = vec![right_infix(vec!['^'], 0, '^'), left_infix(vec!['%'], 5, '%')];
    let e = Pratt::new(ops);
    let r = e.parse_complete(&chars("1%2^3%4")).map(|t| text(&t));
    assert_eq!(r, Ok("((1 % 2) ^ (3 % 4))".to_string()));
}

#[test]
fn validate_mode_stops_where_construct_mode_stops() {
    let e = engine();
    for input in ["1+2*3?", "12-3", "1+", "?", "", "1+?", "7*8/9+1"] {
        let cs = chars(input);
        let built = e.parse_at(&cs, 0).map(|(_, p)| p);
        assert_eq!(e.check(&cs, 0), built);
    }
    assert_eq!(e.check(&chars("1+2*3?"), 0), Ok(5));
    assert_eq!(e.check(&chars("1+?"), 0), Err(unexpected(Some('?'), 2)));
}

#[test]
fn validate_mode_with_prefix_ops() {
    let e = engine().with_prefix_ops(vec![prefix(vec!['-'], 1, '-')]);
    for input in ["-1+2", "--3*4", "-", "-?", "1"] {
        let cs = chars(input);
        let built = e.parse_at(&cs, 0).map(|(_, p)| p);
        assert_eq!(e.check(&cs, 0), built);
    }
    assert_eq!(e.check(&chars("--3*4 "), 0), Ok(5));
}

#[test]
fn parse_at_later_position() {
    let cs = chars("x=1+2;");
    assert_eq!(engine().parse_at(&cs, 2).map(|(e, p)| (text(&e), p)), Ok(("(1 + 2)".to_string(), 5)));
    assert_eq!(engine().parse_at(&cs, 1).map(|(_, p)| p), Err(unexpected(Some('='), 1)));
}

#[test]
fn prefix_operand_failure_is_reported_after_operator() {
    let e = engine().with_prefix_ops(vec![prefix(vec!['-'], 1, '-')]);
    assert_eq!(e.parse(&chars("-")).map(|(_, p)| p), Err(unexpected(None, 1)));
    assert_eq!(e.parse(&chars("-?")).map(|(_, p)| p), Err(unexpected(Some('?'), 1)));
    assert_eq!(e.parse(&chars("1+-")).map(|(_, p)| p), Err(unexpected(None, 3)));
}

#[test]
fn nested_prefix_ops() {
    let e = engine().with_prefix_ops(vec![prefix(vec!['-'], 1, '-'), prefix(vec!['!'], 1, '!')]);
    let r = e.parse_complete(&chars("-!3*2")).map(|t| text(&t));
    assert_eq!(r, Ok("(-(!(3 * 2)))".to_string()));
    let r = e.parse_complete(&chars("1+-2")).map(|t| text(&t));
    assert_eq!(r, Ok("(1 + (-2))".to_string()));
}

#[test]
fn prefix_binds_looser_than_its_level() {
    let e = engine().with_prefix_ops(vec![prefix(vec!['-'], 0, '-')]);
    let r = e.parse_complete(&chars("-1*2+3")).map(|t| text(&t));
    assert_eq!(r, Ok("(-((1 * 2) + 3))".to_string()));
}

#[test]
fn multi_char_tokens_and_table_order() {
    let longest_first = Pratt::new(vec![right_infix(chars("**"), 2, '^'), left_infix(vec!['*'], 1, '*')]);
    let r = longest_first.parse_complete(&chars("2**3*4")).map(|t| text(&t));
    assert_eq!(r, Ok("((2 ^ 3) * 4)".to_string()));
    let shortest_first = Pratt::new(vec![left_infix(vec!['*'], 1, '*'), right_infix(chars("**"), 2, '^')]);
    let r = shortest_first.parse_complete(&chars("2**3"));
    assert_eq!(r.map(|t| text(&t)), Err(unexpected(Some('*'), 2)));
}

#[test]
fn empty_token_never_matches() {
    let e = Pratt::new(vec![left_infix(vec![], 0, '+')]);
    assert_eq!(e.parse(&chars("12")).map(|(t, p)| (text(&t), p)), Ok(("12".to_string(), 2)));
}

#[test]
fn integer_literals() {
    assert_eq!(parse_partial("0123"), Ok("0".to_string()));
    assert_eq!(engine().parse(&chars("0123")).map(|(_, p)| p), Ok(1));
    assert_eq!(parse("1200+34"), Ok("(1200 + 34)".to_string()));
    assert_eq!(parse("10"), Ok("10".to_string()));
}

#[test]
fn strengths_and_precedences() {
    assert!(Strength::Weak(1).is_less(&Strength::Strong(1)));
    assert!(Strength::Strong(1).is_less(&Strength::Weak(2)));
    assert!(!Strength::Strong(1).is_less(&Strength::Weak(1)));
    assert!(!Strength::Weak(1).is_less(&Strength::Weak(1)));
    assert!(!Strength::Weak(0).is_lt(&None));
    assert!(Strength::Weak(0).is_lt(&Some(Strength::Strong(0))));
    let l = Precedence::left(3);
    assert_eq!(l.strength_left(), Strength::Weak(3));
    assert_eq!(l.strength_right(), Strength::Strong(3));
    let r = Precedence::right(3);
    assert_eq!(r.strength_left(), Strength::Weak(3));
    assert_eq!(r.strength_right(), Strength::Weak(3));
    let op = left_infix(vec!['+'], 4, 'p');
    assert_eq!(op.prec, Precedence::left(4));
    assert_eq!(op.label, 'p');
    assert_eq!(prefix(vec!['-'], 2, 'n').prec, Precedence::right(2));
}

#[test]
fn rendering_of_trees() {
    let t = Expr::infix_node(
        '+',
        Expr::prefix_node('-', Expr::literal_node(vec!['4', '2'])),
        Expr::literal_node(vec!['7']),
    );
    assert_eq!(text(&t), "((-42) + 7)");
}
