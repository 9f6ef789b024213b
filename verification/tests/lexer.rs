use nanovm::lexer::{LexingError, Token};

#[test]
fn shoudld_parse() {
    let result = Token::lexer("fn something() {}");
    assert_eq!(
        result,
        &[
            Ok(Token::Fn),
            Ok(Token::Id(String::from("something"))),
            Ok(Token::LPar),
            Ok(Token::RPar),
            Ok(Token::LCurl),
            Ok(Token::RCurl)
        ]
    )
}

#[test]
fn keywords_and_names() {
    let result = Token::lexer("fn return let if else loop break true false fnord truex let_ x1");
    assert_eq!(
        result,
        vec![
            Ok(Token::Fn),
            Ok(Token::Return),
            Ok(Token::Let),
            Ok(Token::If),
            Ok(Token::Else),
            Ok(Token::Loop),
            Ok(Token::Break),
            Ok(Token::Bool(true)),
            Ok(Token::Bool(false)),
            Ok(Token::Id(String::from("fnord"))),
            Ok(Token::Id(String::from("truex"))),
            Ok(Token::Id(String::from("let_"))),
            Ok(Token::Id(String::from("x1"))),
        ]
    );
}

#[test]
fn punctuation_takes_the_longest() {
    let result = Token::lexer("@();{}:+*-===<>!!=..= =");
    assert_eq!(
        result,
        vec![
            Ok(Token::At),
            Ok(Token::LPar),
            Ok(Token::RPar),
            Ok(Token::Semicol),
            Ok(Token::LCurl),
            Ok(Token::RCurl),
            Ok(Token::Colon),
            Ok(Token::Plus),
            Ok(Token::Mult),
            Ok(Token::Minus),
            Ok(Token::Eq),
            Ok(Token::Assign),
            Ok(Token::Smaller),
            Ok(Token::Larger),
            Ok(Token::Not),
            Ok(Token::NotEq),
            Ok(Token::DotDot),
            Ok(Token::Assign),
            Ok(Token::Assign),
        ]
    );
}

#[test]
fn numbers_and_minus() {
    assert_eq!(
        Token::lexer("3-5 - 5 -x 007 -0"),
        vec![
            Ok(Token::Num(3)),
            Ok(Token::Num(-5)),
            Ok(Token::Minus),
            Ok(Token::Num(5)),
            Ok(Token::Minus),
            Ok(Token::Id(String::from("x"))),
            Ok(Token::Num(7)),
            Ok(Token::Num(0)),
        ]
    );
}

#[test]
fn numbers_at_the_limits() {
    assert_eq!(
        Token::lexer("9223372036854775807 -9223372036854775808"),
        vec![Ok(Token::Num(i64::MAX)), Ok(Token::Num(i64::MIN))]
    );
    assert_eq!(
        Token::lexer("9223372036854775808 -9223372036854775809 99999999999999999999999 5"),
        vec![
            Err(LexingError::NumberParseError),
            Err(LexingError::NumberParseError),
            Err(LexingError::NumberParseError),
            Ok(Token::Num(5)),
        ]
    );
}

#[test]
fn each_stray_character_is_an_error() {
    assert_eq!(
        Token::lexer("a # $b . _c \r é"),
        vec![
            Ok(Token::Id(String::from("a"))),
            Err(LexingError::Other),
            Err(LexingError::Other),
            Ok(Token::Id(String::from("b"))),
            Err(LexingError::Other),
            Err(LexingError::Other),
            Ok(Token::Id(String::from("c"))),
            Err(LexingError::Other),
            Err(LexingError::Other),
        ]
    );
}

#[test]
fn blanks_alone_give_nothing() {
    assert_eq!(Token::lexer(""), vec![]);
    assert_eq!(Token::lexer(" \t\n\u{c} "), vec![]);
}

#[test]
fn number_runs_into_a_name() {
    assert_eq!(
        Token::lexer("5abc"),
        vec![Ok(Token::Num(5)), Ok(Token::Id(String::from("abc")))]
    );
}

#[test]
fn the_default_error_is_other() {
    assert_eq!(LexingError::default(), LexingError::Other);
}
