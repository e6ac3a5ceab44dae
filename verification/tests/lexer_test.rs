//! Tests of the scanner: token classification, ordering, and the error
//! model.

use nimc::lexer::lex;
use nimc::lexer::lex_line;
use nimc::lexer::match_identifier;
use nimc::lexer::Keyword;
use nimc::lexer::LexError;
use nimc::lexer::LineError;
use nimc::lexer::Token;

fn lines(v: &[&str]) -> Vec<String> {
    v.iter().map(|s| s.to_string()).collect()
}

#[test]
fn whitespace_only_is_empty() {
    let r = lex(&lines(&["   \t  ", "", "\t\t"])).unwrap();
    assert_eq!(r, Vec::<Token>::new());
}

#[test]
fn empty_file_is_empty() {
    let r = lex(&lines(&[])).unwrap();
    assert_eq!(r, Vec::<Token>::new());
}

#[test]
fn int_main_line_tokens() {
    let r = lex(&lines(&["int main ( ) { return 0 ; }"])).unwrap();
    assert_eq!(
        r,
        vec![
            Token::Keywords(Keyword::Int),
            Token::Identifier("main".to_string()),
            Token::Punctuators("(".to_string()),
            Token::Punctuators(")".to_string()),
            Token::Punctuators("{".to_string()),
            Token::Keywords(Keyword::Return),
            Token::Constant(0),
            Token::Punctuators(";".to_string()),
            Token::Punctuators("}".to_string()),
        ]
    );
}

#[test]
fn near_keywords_stay_identifiers() {
    let r = lex(&lines(&["intx retur returns _int int2"])).unwrap();
    assert_eq!(
        r,
        vec![
            Token::Identifier("intx".to_string()),
            Token::Identifier("retur".to_string()),
            Token::Identifier("returns".to_string()),
            Token::Identifier("_int".to_string()),
            Token::Identifier("int2".to_string()),
        ]
    );
}

#[test]
fn keywords_are_resolved() {
    assert_eq!(match_identifier("int"), Token::Keywords(Keyword::Int));
    assert_eq!(match_identifier("return"), Token::Keywords(Keyword::Return));
    assert_eq!(
        match_identifier("intern"),
        Token::Identifier("intern".to_string())
    );
    assert_eq!(
        match_identifier("Return"),
        Token::Identifier("Return".to_string())
    );
}

#[test]
fn at_sign_is_unrecognized() {
    let e = lex(&lines(&["@"])).unwrap_err();
    match e {
        LexError::UnrecognizedToken { line, col, text } => {
            assert_eq!(line, 1);
            assert_eq!(col, 1);
            assert_eq!(text, "@");
        }
        other => panic!("wrong error: {:?}", other),
    }
}

#[test]
fn digits_glued_to_word_fail() {
    let e = lex(&lines(&["123abc"])).unwrap_err();
    match e {
        LexError::UnrecognizedToken { line, col, text } => {
            assert_eq!(line, 1);
            assert_eq!(col, 1);
            assert_eq!(text, "123abc");
        }
        other => panic!("wrong error: {:?}", other),
    }
}

#[test]
fn scanning_twice_is_identical() {
    let file = lines(&["int main ( )", "{ return 2 ; }"]);
    let first = lex(&file).unwrap();
    let second = lex(&file).unwrap();
    assert_eq!(first, second);
}

#[test]
fn whitespace_runs_do_not_matter() {
    let a = lex(&lines(&["int  main()"])).unwrap();
    let b = lex(&lines(&["int main ( )"])).unwrap();
    assert_eq!(a, b);
}

#[test]
fn error_cites_third_line() {
    let e = lex(&lines(&["int x ;", "return 0 ;", "$"])).unwrap_err();
    match e {
        LexError::UnrecognizedToken { line, text, .. } => {
            assert_eq!(line, 3);
            assert_eq!(text, "$");
        }
        other => panic!("wrong error: {:?}", other),
    }
}

#[test]
fn error_text_is_line_remainder() {
    let e = lex(&lines(&["int x = 3 ;"])).unwrap_err();
    match e {
        LexError::UnrecognizedToken { line, col, text } => {
            assert_eq!(line, 1);
            assert_eq!(col, 7);
            assert_eq!(text, "= 3 ;");
        }
        other => panic!("wrong error: {:?}", other),
    }
}

#[test]
fn largest_constant_fits() {
    let r = lex(&lines(&["2147483647 ;"])).unwrap();
    assert_eq!(
        r,
        vec![
            Token::Constant(2147483647),
            Token::Punctuators(";".to_string()),
        ]
    );
}

#[test]
fn overflowing_constant_fails() {
    let e = lex(&lines(&["2147483648 ;"])).unwrap_err();
    match e {
        LexError::InvalidConstant { line, col, literal } => {
            assert_eq!(line, 1);
            assert_eq!(col, 1);
            assert_eq!(literal, "2147483648");
        }
        other => panic!("wrong error: {:?}", other),
    }
}

#[test]
fn adjacent_punctuators_each_token() {
    let r = lex(&lines(&["(){};"])).unwrap();
    assert_eq!(
        r,
        vec![
            Token::Punctuators("(".to_string()),
            Token::Punctuators(")".to_string()),
            Token::Punctuators("{".to_string()),
            Token::Punctuators("}".to_string()),
            Token::Punctuators(";".to_string()),
        ]
    );
}

#[test]
fn digit_run_before_punctuator_is_constant() {
    let r = lex(&lines(&["42("])).unwrap();
    assert_eq!(
        r,
        vec![Token::Constant(42), Token::Punctuators("(".to_string())]
    );
}

#[test]
fn tokens_keep_source_order_across_lines() {
    let r = lex(&lines(&["int", "main", "(", ")"])).unwrap();
    assert_eq!(
        r,
        vec![
            Token::Keywords(Keyword::Int),
            Token::Identifier("main".to_string()),
            Token::Punctuators("(".to_string()),
            Token::Punctuators(")".to_string()),
        ]
    );
}

#[test]
fn lex_line_reports_offsets() {
    let r = lex_line("return 42 ;").unwrap();
    assert_eq!(
        r,
        vec![
            Token::Keywords(Keyword::Return),
            Token::Constant(42),
            Token::Punctuators(";".to_string()),
        ]
    );
    assert_eq!(lex_line("ab @"), Err(LineError::NoRule { at: 3 }));
    assert_eq!(
        lex_line("  9999999999"),
        Err(LineError::BadConstant { from: 2, to: 12 })
    );
}
