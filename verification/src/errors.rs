//! The structured error model of the compiler: a closed set of error
//! kinds, each attributable to a place in the source where one exists.

use vstd::prelude::*;

verus! {

// ---------------------------------------------------------------------------
// Source locations
// ---------------------------------------------------------------------------

/// A place in a source file: the file's path, and a 1-based line and
/// column.
#[derive(Debug)]
pub struct SourceLocation {
    file: String,
    line: usize,
    col: usize,
}

/// The mathematical value of a [`SourceLocation`].
pub ghost struct SourceLocationModel {
    pub file: Seq<char>,
    pub line: int,
    pub col: int,
}

impl View for SourceLocation {
    type V = SourceLocationModel;

    closed spec fn view(&self) -> SourceLocationModel {
        SourceLocationModel { file: self.file@, line: self.line as int, col: self.col as int }
    }
}

impl SourceLocation {
    /// Builds the location `file:line:col`.
    pub fn new(file: String, line: usize, col: usize) -> (r: SourceLocation)
        ensures
            r@ == (SourceLocationModel { file: file@, line: line as int, col: col as int }),
    {
        SourceLocation { file, line, col }
    }

    /// The file the location lies in.
    pub fn file(&self) -> (r: &String)
        ensures
            r@ == self@.file,
    {
        &self.file
    }

    /// The 1-based line number.
    pub fn line(&self) -> (r: usize)
        ensures
            r as int == self@.line,
    {
        self.line
    }

    /// The 1-based column number.
    pub fn col(&self) -> (r: usize)
        ensures
            r as int == self@.col,
    {
        self.col
    }
}

// ---------------------------------------------------------------------------
// Compiler errors
// ---------------------------------------------------------------------------

/// An error of some compilation stage.
#[derive(Debug)]
pub enum CompilerError {
    SyntaxError { message: String, location: SourceLocation },
    SemanticError { message: String, symbol: String, location: SourceLocation },
    TypeError { message: String, location: SourceLocation },
    CodeGenerationError { message: String },
    InternalError { message: String },
    UnknownError,
}

/// The mathematical value of a [`CompilerError`].
pub ghost enum CompilerErrorModel {
    SyntaxError { message: Seq<char>, location: SourceLocationModel },
    SemanticError { message: Seq<char>, symbol: Seq<char>, location: SourceLocationModel },
    TypeError { message: Seq<char>, location: SourceLocationModel },
    CodeGenerationError { message: Seq<char> },
    InternalError { message: Seq<char> },
    UnknownError,
}

impl View for CompilerError {
    type V = CompilerErrorModel;

    open spec fn view(&self) -> CompilerErrorModel {
        match self {
            CompilerError::SyntaxError { message, location } => CompilerErrorModel::SyntaxError {
                message: message@,
                location: location@,
            },
            CompilerError::SemanticError {
                message,
                symbol,
                location,
            } => CompilerErrorModel::SemanticError {
                message: message@,
                symbol: symbol@,
                location: location@,
            },
            CompilerError::TypeError { message, location } => CompilerErrorModel::TypeError {
                message: message@,
                location: location@,
            },
            CompilerError::CodeGenerationError { message } =>
                CompilerErrorModel::CodeGenerationError { message: message@ },
            CompilerError::InternalError { message } => CompilerErrorModel::InternalError {
                message: message@,
            },
            CompilerError::UnknownError => CompilerErrorModel::UnknownError,
        }
    }
}

} // verus!
