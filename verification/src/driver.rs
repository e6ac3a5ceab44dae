//! The staged compilation pipeline: lexical analysis over the source
//! lines, then the later stages, cut short at the selected mode's stage.
//!
//! Reading the source file, invoking the system toolchain around the
//! stages, and cleaning intermediate files up are the outer driver's
//! concerns; this module decides, for lines already read, what each stage
//! yields and where the run stops.

use vstd::prelude::*;

use crate::cli::spec_with_extension;
use crate::cli::with_extension;
use crate::cli::CompilerMode;
use crate::errors::CompilerError;
use crate::errors::CompilerErrorModel;
use crate::errors::SourceLocation;
use crate::errors::SourceLocationModel;
use crate::lexer::lex;
use crate::lexer::scan_model;
use crate::lexer::LexError;
use crate::lexer::LexErrorModel;
use crate::lexer::Token;

verus! {

// ---------------------------------------------------------------------------
// Mapping scan failures to compiler errors
// ---------------------------------------------------------------------------

/// The compiler error a scan failure in `file` maps to: a syntax error
/// naming the offending text, located at the failure's line and column.
pub open spec fn spec_lex_failure(file: Seq<char>, e: LexErrorModel) -> CompilerErrorModel {
    match e {
        LexErrorModel::UnrecognizedToken { line, col, text } => CompilerErrorModel::SyntaxError {
            message: "unrecognized token: "@ + text,
            location: SourceLocationModel { file, line, col },
        },
        LexErrorModel::InvalidConstant { line, col, literal } => CompilerErrorModel::SyntaxError {
            message: "invalid constant: "@ + literal,
            location: SourceLocationModel { file, line, col },
        },
    }
}

/// Maps a scan failure to the compiler's error taxonomy, attributed to
/// `file`.
pub fn lex_failure(file: &String, e: &LexError) -> (r: CompilerError)
    ensures
        r@ == spec_lex_failure(file@, e@),
{
    match e {
        LexError::UnrecognizedToken { line, col, text } => {
            let mut message = "unrecognized token: ".to_owned();
            message.append(text.as_str());
            CompilerError::SyntaxError {
                message,
                location: SourceLocation::new(file.clone(), *line, *col),
            }
        },
        LexError::InvalidConstant { line, col, literal } => {
            let mut message = "invalid constant: ".to_owned();
            message.append(literal.as_str());
            CompilerError::SyntaxError {
                message,
                location: SourceLocation::new(file.clone(), *line, *col),
            }
        },
    }
}

// ---------------------------------------------------------------------------
// The stages after lexical analysis
// ---------------------------------------------------------------------------

/// The parsing stage.  It is not implemented yet: every call reports an
/// internal error, and no run gets past it.
pub fn parse() -> (r: Result<(), CompilerError>)
    ensures
        r matches Err(e) && e@ == (CompilerErrorModel::InternalError {
            message: "the parsing stage is not implemented"@,
        }),
{
    Err(CompilerError::InternalError { message: "the parsing stage is not implemented".to_owned() })
}

/// The assembly generation stage.  It is not implemented yet: every call
/// reports an internal error.
pub fn gen_asm() -> (r: Result<(), CompilerError>)
    ensures
        r matches Err(e) && e@ == (CompilerErrorModel::InternalError {
            message: "the assembly generation stage is not implemented"@,
        }),
{
    Err(
        CompilerError::InternalError {
            message: "the assembly generation stage is not implemented".to_owned(),
        },
    )
}

/// The code emission stage.  It is not implemented yet: every call
/// reports an internal error.
pub fn code_emission() -> (r: Result<(), CompilerError>)
    ensures
        r matches Err(e) && e@ == (CompilerErrorModel::InternalError {
            message: "the code emission stage is not implemented"@,
        }),
{
    Err(
        CompilerError::InternalError {
            message: "the code emission stage is not implemented".to_owned(),
        },
    )
}

// ---------------------------------------------------------------------------
// The pipeline over one source
// ---------------------------------------------------------------------------

/// Runs the compilation stages over the already-read lines of the source
/// at `input_path`, stopping at the stage the mode selects, and names the
/// output path (the input with the `s` extension).
///
/// A scan failure aborts the run with the corresponding syntax error.  A
/// run in lexical-analysis mode stops successfully right after scanning;
/// every further mode runs into the unimplemented parsing stage and
/// reports its error.
pub fn compile(input_path: &String, lines: &Vec<String>, mode: &CompilerMode) -> (r: Result<
    String,
    CompilerError,
>)
    ensures
        ({
            match scan_model(lines.deep_view()) {
                Err(e) => r matches Err(ce) && ce@ == spec_lex_failure(input_path@, e),
                Ok(_) => {
                    if mode is Lex {
                        r matches Ok(p) && p@ == spec_with_extension(input_path@, seq!['s'])
                    } else {
                        r matches Err(ce) && ce@ == (CompilerErrorModel::InternalError {
                            message: "the parsing stage is not implemented"@,
                        })
                    }
                },
            }
        }),
{
    let output_path = with_extension(input_path.as_str(), "s");
    proof {
        reveal_strlit("s");
        assert("s"@ =~= seq!['s']);
    }
    let _tokens: Vec<Token> = match lex(lines) {
        Ok(t) => t,
        Err(e) => {
            return Err(lex_failure(input_path, &e));
        },
    };
    if let CompilerMode::Lex = mode {
        return Ok(output_path);
    }
    match parse() {
        Ok(u) => u,
        Err(e) => {
            return Err(e);
        },
    };
    if let CompilerMode::Parse = mode {
        return Ok(output_path);
    }
    match gen_asm() {
        Ok(u) => u,
        Err(e) => {
            return Err(e);
        },
    };
    if let CompilerMode::Codegen = mode {
        return Ok(output_path);
    }
    match code_emission() {
        Ok(u) => u,
        Err(e) => {
            return Err(e);
        },
    };
    Ok(output_path)
}

} // verus!
