//! Tests of the staged pipeline and the error taxonomy it reports with.

use nimc::cli::CompilerMode;
use nimc::driver::code_emission;
use nimc::driver::compile;
use nimc::driver::gen_asm;
use nimc::driver::parse;
use nimc::errors::CompilerError;
use nimc::errors::SourceLocation;

fn lines(v: &[&str]) -> Vec<String> {
    v.iter().map(|s| s.to_string()).collect()
}

#[test]
fn placeholder_stages_report_internal_errors() {
    match parse().unwrap_err() {
        CompilerError::InternalError { message } => {
            assert_eq!(message, "the parsing stage is not implemented");
        }
        other => panic!("wrong error: {:?}", other),
    }
    match gen_asm().unwrap_err() {
        CompilerError::InternalError { message } => {
            assert_eq!(message, "the assembly generation stage is not implemented");
        }
        other => panic!("wrong error: {:?}", other),
    }
    match code_emission().unwrap_err() {
        CompilerError::InternalError { message } => {
            assert_eq!(message, "the code emission stage is not implemented");
        }
        other => panic!("wrong error: {:?}", other),
    }
}

#[test]
fn compile_stops_after_lexing() {
    let r = compile(
        &"prog.i".to_string(),
        &lines(&["int main ( ) { return 0 ; }"]),
        &CompilerMode::Lex,
    );
    assert_eq!(r.unwrap(), "prog.s");
}

#[test]
fn compile_reports_syntax_error_with_location() {
    let r = compile(
        &"prog.i".to_string(),
        &lines(&["int main ( )", "{ return 0 # ; }"]),
        &CompilerMode::Lex,
    );
    match r.unwrap_err() {
        CompilerError::SyntaxError { message, location } => {
            assert_eq!(message, "unrecognized token: # ; }");
            assert_eq!(location.file().as_str(), "prog.i");
            assert_eq!(location.line(), 2);
            assert_eq!(location.col(), 12);
        }
        other => panic!("wrong error: {:?}", other),
    }
}

#[test]
fn compile_runs_into_unimplemented_parser() {
    let r = compile(
        &"prog.i".to_string(),
        &lines(&["int main ( ) { return 0 ; }"]),
        &CompilerMode::Full,
    );
    match r.unwrap_err() {
        CompilerError::InternalError { message } => {
            assert_eq!(message, "the parsing stage is not implemented");
        }
        other => panic!("wrong error: {:?}", other),
    }
}

#[test]
fn compile_reports_invalid_constant() {
    let r = compile(
        &"prog.i".to_string(),
        &lines(&["int x ;", "return 99999999999 ;"]),
        &CompilerMode::Lex,
    );
    match r.unwrap_err() {
        CompilerError::SyntaxError { message, location } => {
            assert_eq!(message, "invalid constant: 99999999999");
            assert_eq!(location.line(), 2);
            assert_eq!(location.col(), 8);
        }
        other => panic!("wrong error: {:?}", other),
    }
}

#[test]
fn source_location_getters() {
    let loc = SourceLocation::new("lib.c".to_string(), 7, 3);
    assert_eq!(loc.file().as_str(), "lib.c");
    assert_eq!(loc.line(), 7);
    assert_eq!(loc.col(), 3);
}
