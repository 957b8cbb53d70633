use khawrizm::lexer::{tokenize, Token};

fn s(x: &str) -> String {
    x.to_string()
}

#[test]
fn tokenizes_a_formula() {
    let toks = tokenize("=SUM(a1, B2)*3.5");
    assert_eq!(
        toks,
        vec![
            Token::Function(s("SUM")),
            Token::LeftParen,
            Token::CellRef(s("A1")),
            Token::Comma,
            Token::CellRef(s("B2")),
            Token::RightParen,
            Token::Operator('*'),
            Token::Number(s("3.5")),
        ]
    );
}

#[test]
fn leading_equals_signs_are_dropped() {
    assert_eq!(tokenize("==1"), vec![Token::Number(s("1"))]);
    assert_eq!(tokenize("1=2"), vec![Token::Number(s("1")), Token::Number(s("2"))]);
}

#[test]
fn unknown_characters_are_skipped() {
    assert_eq!(tokenize("a1 & b1 ^ 2"), vec![
        Token::CellRef(s("A1")),
        Token::CellRef(s("B1")),
        Token::Operator('^'),
        Token::Number(s("2")),
    ]);
    assert_eq!(tokenize(""), vec![]);
    assert_eq!(tokenize("==="), vec![]);
}

#[test]
fn numerals_keep_dots_and_names_keep_digits() {
    assert_eq!(tokenize("1.2.3x9"), vec![Token::Number(s("1.2.3")), Token::CellRef(s("X9"))]);
    assert_eq!(tokenize("f ("), vec![Token::CellRef(s("F")), Token::LeftParen]);
    assert_eq!(tokenize("-4/x"), vec![Token::Operator('-'), Token::Number(s("4")), Token::Operator('/'), Token::CellRef(s("X"))]);
}

#[test]
fn letter_case_does_not_matter() {
    let f = "=Sum(a1, b2)*x9 + 1.5";
    assert_eq!(tokenize(&f.to_ascii_uppercase()), tokenize(f));
    assert_eq!(tokenize(&f.to_ascii_lowercase()), tokenize(f));
}
