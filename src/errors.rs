use vstd::prelude::*;

verus! {

/// Declares `std::num::ParseIntError`, carried opaque inside `MyError::Parse`.
#[verifier::external_type_specification]
#[verifier::external_body]
pub struct ExParseIntError(std::num::ParseIntError);

/// Declares `std::io::Error`, carried opaque inside `MyError::Io`.
#[verifier::external_type_specification]
#[verifier::external_body]
pub struct ExIoError(std::io::Error);

/// Where in the source a structural error stands, and which one it is.
#[derive(Clone, Copy, Debug, PartialEq, Eq, Structural)]
pub struct CompileError {
    pub line: u32,
    pub col: u32,
    pub kind: CompileErrorKind,
}

#[derive(Clone, Copy, Debug, PartialEq, Eq, Structural)]
pub enum CompileErrorKind {
    UnclosedLeftBracket,
    UnexpectedRightBracket,
}

/// Every failure of the interpreter.
#[derive(Debug)]
pub enum MyError {
    /// A failed read, write or flush of the surrounding program.
    Io(std::io::Error),
    /// A malformed decimal literal given to an input instruction.
    Parse(std::num::ParseIntError),
    /// The source text is not well bracketed.
    Compile(CompileError),
    /// A message of the surrounding program.
    Custom(String),
    /// A move left by `n` cells from cell `ptr`, with `n > ptr`.
    PointerUnderflow { ptr: usize, n: u32 },
    /// A move right by `n` cells from cell `ptr` past the largest addressable cell.
    PointerOverflow { ptr: usize, n: u32 },
    /// A write of a cell value that is not a Unicode scalar value.
    InvalidScalar(u32),
    /// An input value above the cell ceiling.
    InputOutOfRange { value: u32, max: u32 },
    /// An input line of more than one character that is not a decimal literal.
    InputTooLong,
}

impl From<CompileError> for MyError {
    fn from(err: CompileError) -> (r: MyError)
        ensures
            r == MyError::Compile(err),
    {
        MyError::Compile(err)
    }
}

impl vstd::std_specs::convert::FromSpecImpl<CompileError> for MyError {
    open spec fn obeys_from_spec() -> bool {
        true
    }

    open spec fn from_spec(v: CompileError) -> MyError {
        MyError::Compile(v)
    }
}

impl From<std::num::ParseIntError> for MyError {
    fn from(err: std::num::ParseIntError) -> (r: MyError)
        ensures
            r == MyError::Parse(err),
    {
        MyError::Parse(err)
    }
}

impl vstd::std_specs::convert::FromSpecImpl<std::num::ParseIntError> for MyError {
    open spec fn obeys_from_spec() -> bool {
        true
    }

    open spec fn from_spec(v: std::num::ParseIntError) -> MyError {
        MyError::Parse(v)
    }
}

impl From<std::io::Error> for MyError {
    fn from(err: std::io::Error) -> (r: MyError)
        ensures
            r == MyError::Io(err),
    {
        MyError::Io(err)
    }
}

impl vstd::std_specs::convert::FromSpecImpl<std::io::Error> for MyError {
    open spec fn obeys_from_spec() -> bool {
        true
    }

    open spec fn from_spec(v: std::io::Error) -> MyError {
        MyError::Io(v)
    }
}

} // verus!
