use candle_script::token::{LexError, Token};

fn chars(s: &str) -> Vec<char> {
    s.chars().collect()
}

fn tokenize(s: &str) -> Result<Vec<Token<Vec<char>>>, LexError> {
    Token::<Vec<char>>::get_vec(&chars(s))
}

fn num(s: &str) -> Token<Vec<char>> {
    Token::Num(chars(s))
}

fn string(s: &str) -> Token<Vec<char>> {
    Token::Str(chars(s))
}

fn var(s: &str) -> Token<Vec<char>> {
    Token::Var(chars(s))
}

fn op(s: &str) -> Token<Vec<char>> {
    Token::Op(chars(s))
}

fn keyword(s: &str) -> Token<Vec<char>> {
    Token::Keyword(chars(s))
}

#[test]
fn unexpected_character_fails() {
    assert_eq!(tokenize("@"), Err(LexError::UnexpectedCharacter));
}

#[test]
fn unexpected_character_aborts_whole_input() {
    assert_eq!(tokenize("a @ b"), Err(LexError::UnexpectedCharacter));
}

#[test]
fn integer_literal() {
    assert_eq!(tokenize("123"), Ok(vec![num("123")]));
}

#[test]
fn decimal_literal() {
    assert_eq!(tokenize("3.14"), Ok(vec![num("3.14")]));
}

#[test]
fn multiple_dots_accepted_in_one_literal() {
    assert_eq!(tokenize("1.2.3"), Ok(vec![num("1.2.3")]));
}

#[test]
fn lone_dot_is_a_numeric_literal() {
    assert_eq!(tokenize("."), Ok(vec![num(".")]));
}

#[test]
fn string_literal_keeps_quotes() {
    assert_eq!(tokenize("'hi'"), Ok(vec![string("'hi'")]));
}

#[test]
fn empty_string_literal() {
    assert_eq!(tokenize("''"), Ok(vec![string("''")]));
}

#[test]
fn string_literal_with_the_other_quote_inside() {
    assert_eq!(tokenize("'a\"b'"), Ok(vec![string("'a\"b'")]));
}

#[test]
fn unterminated_string_fails() {
    assert_eq!(tokenize("\"hi"), Err(LexError::UnterminatedString));
}

#[test]
fn keyword_prefix_of_identifier_stays_one_var() {
    assert_eq!(tokenize("ifx"), Ok(vec![var("ifx")]));
}

#[test]
fn keyword_at_word_boundary() {
    assert_eq!(tokenize("if x"), Ok(vec![keyword("if"), var("x")]));
}

#[test]
fn word_operator_needs_a_boundary() {
    assert_eq!(tokenize("addx"), Ok(vec![var("addx")]));
    assert_eq!(tokenize("add2"), Ok(vec![var("add2")]));
    assert_eq!(tokenize("add"), Ok(vec![op("add")]));
    assert_eq!(tokenize("div)"), Ok(vec![op("div"), Token::RBr(chars(")"))]));
}

#[test]
fn core_identifier_needs_a_boundary() {
    assert_eq!(tokenize("input"), Ok(vec![var("input")]));
    assert_eq!(tokenize("inputs"), Ok(vec![var("inputs")]));
}

#[test]
fn comparison_does_not_split() {
    assert_eq!(tokenize("a>=b"), Ok(vec![var("a"), op(">="), var("b")]));
}

#[test]
fn compound_operators_scan_atomically() {
    assert_eq!(tokenize(">="), Ok(vec![op(">=")]));
    assert_eq!(tokenize("<="), Ok(vec![op("<=")]));
    assert_eq!(tokenize("=="), Ok(vec![op("==")]));
    assert_eq!(tokenize("!="), Ok(vec![op("!=")]));
}

#[test]
fn single_comparison_operators() {
    assert_eq!(tokenize("a > b < c = d"), Ok(vec![
        var("a"), op(">"), var("b"), op("<"), var("c"), op("="), var("d"),
    ]));
}

#[test]
fn print_call_line() {
    assert_eq!(tokenize("print(1)\n"), Ok(vec![
        var("print"),
        Token::LBr(chars("(")),
        num("1"),
        Token::RBr(chars(")")),
        Token::InstrEnd,
    ]));
}

#[test]
fn one_instr_end_per_newline() {
    let tokens = tokenize("a\n\nb\n").unwrap();
    let newlines = "a\n\nb\n".chars().filter(|c| *c == '\n').count();
    let ends = tokens
        .iter()
        .filter(|t| matches!(t, Token::InstrEnd))
        .count();
    assert_eq!(ends, newlines);
    assert_eq!(tokens, vec![
        var("a"), Token::InstrEnd, Token::InstrEnd, var("b"), Token::InstrEnd,
    ]);
}

#[test]
fn newline_inside_string_gives_no_instr_end() {
    assert_eq!(tokenize("'a\nb'"), Ok(vec![string("'a\nb'")]));
}

#[test]
fn blanks_are_skipped() {
    assert_eq!(tokenize(" \t\r"), Ok(vec![]));
    assert_eq!(tokenize(""), Ok(vec![]));
}

#[test]
fn keywords_scan_as_keywords() {
    assert_eq!(tokenize("candle end if else while"), Ok(vec![
        keyword("candle"), keyword("end"), keyword("if"), keyword("else"), keyword("while"),
    ]));
}

#[test]
fn identifier_with_second_script_letters() {
    let word = "\u{043f}\u{0440}\u{0438}\u{0432}\u{0435}\u{0442}";
    assert_eq!(tokenize(word), Ok(vec![var(word)]));
    let mixed = "x_\u{042F}1";
    assert_eq!(tokenize(mixed), Ok(vec![var(mixed)]));
}

#[test]
fn assignment_statement() {
    assert_eq!(tokenize("x = 1,y"), Ok(vec![
        var("x"), op("="), num("1"), op(","), var("y"),
    ]));
}

#[test]
fn starts_with_scans_a_numeric_prefix() {
    let input = chars("12x");
    let (rest, result) = Token::<Vec<char>>::starts_with(&input);
    assert_eq!(rest, &['x']);
    assert_eq!(result, Ok(num("12")));
}

#[test]
fn starts_with_consumes_nothing_on_unexpected_character() {
    let input = chars("@ab");
    let (rest, result) = Token::<Vec<char>>::starts_with(&input);
    assert_eq!(rest, &input[..]);
    assert_eq!(result, Err(LexError::UnexpectedCharacter));
}

#[test]
fn starts_with_reports_unterminated_string() {
    let input = chars("'abc");
    let (rest, result) = Token::<Vec<char>>::starts_with(&input);
    assert!(rest.is_empty());
    assert_eq!(result, Err(LexError::UnterminatedString));
}

#[test]
fn fmt_text_renders_tag_and_payload() {
    assert_eq!(num("3.14").fmt_text(), "Token::Num(\"3.14\")");
    assert_eq!(var("x").fmt_text(), "Token::Var(\"x\")");
    assert_eq!(string("'hi'").fmt_text(), "Token::Str(\"'hi'\")");
    assert_eq!(op(">=").fmt_text(), "Token::Op(\">=\")");
    assert_eq!(keyword("while").fmt_text(), "Token::Keyword(\"while\")");
    assert_eq!(Token::LBr(chars("(")).fmt_text(), "Token::LBr(\"(\")");
    assert_eq!(Token::RBr(chars(")")).fmt_text(), "Token::RBr(\")\")");
    assert_eq!(Token::<Vec<char>>::InstrEnd.fmt_text(), "Token::InstrEnd");
}

#[test]
fn whole_program_scans_in_source_order() {
    let source = "candle f(x)\n  if x >= 1\n    print('hi')\n  end\nend\n";
    assert_eq!(tokenize(source), Ok(vec![
        keyword("candle"),
        var("f"),
        Token::LBr(chars("(")),
        var("x"),
        Token::RBr(chars(")")),
        Token::InstrEnd,
        keyword("if"),
        var("x"),
        op(">="),
        num("1"),
        Token::InstrEnd,
        var("print"),
        Token::LBr(chars("(")),
        string("'hi'"),
        Token::RBr(chars(")")),
        Token::InstrEnd,
        keyword("end"),
        Token::InstrEnd,
        keyword("end"),
        Token::InstrEnd,
    ]));
}
