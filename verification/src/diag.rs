//! Location-tagged, severity-graded diagnostics.
//!
//! Every deviation from the format is reported as a [`PDBError`]: a severity,
//! a structured kind carrying the values the message speaks of, and a
//! location. A breaking error aborts the whole parse; everything else is
//! accumulated and returned beside the structure.

use vstd::prelude::*;

verus! {

/// Severity of a diagnostic, least to most severe.
#[derive(Clone, Copy, PartialEq, Eq, Structural, Debug)]
pub enum ErrorLevel {
    /// An unrecognized but possibly valid extension record.
    GeneralWarning,
    /// A cosmetic deviation from the format.
    LooseWarning,
    /// A checksum mismatch or an invalid but decodable enumerated code.
    StrictWarning,
    /// The input cannot be used: the parse is aborted.
    BreakingError,
}

impl ErrorLevel {
    /// A breaking error aborts the parse; all other levels are accumulated.
    pub fn is_breaking(&self) -> (r: bool)
        ensures
            r == (*self == ErrorLevel::BreakingError),
    {
        match self {
            ErrorLevel::BreakingError => true,
            _ => false,
        }
    }
}

/// What went wrong, with the values the report speaks of.
#[derive(Clone, Copy, PartialEq, Eq, Structural, Debug)]
pub enum ErrorKind {
    /// The file could not be opened or read at all.
    FileUnreadable,
    /// A line could not be read from the input.
    LineUnreadable,
    /// The leading tag of the line is not a known record kind.
    UnrecognizedTag,
    /// The line is too short to contain the record's mandatory fields.
    RecordTooShort,
    /// A numeric field does not hold a number of the required kind.
    NotANumber,
    /// The remark-type number is not a valid one.
    RemarkTypeInvalid,
    /// The free text of a remark record is over the allowed width.
    RemarkTooLong,
    /// The digit character of the formal charge field is not a digit.
    ChargeNotNumeric,
    /// The sign character of the formal charge field is not `+` or `-`.
    ChargeNotSigned,
    /// A name or identifier field holds a character outside the accepted set.
    InvalidCharacter,
    /// The space-group name does not resolve to a known group.
    UnknownSpaceGroup,
    /// An anisotropic-factor record names an atom serial number that no atom
    /// of the current model carries.
    AnisouUnmatched,
    /// The declared remark count differs from the count in the structure.
    MasterRemarkMismatch { declared: usize, actual: usize },
    /// The checksum field defined to be empty holds a non-zero value.
    MasterEmptyNotZero { declared: usize },
    /// The declared transform count differs from the count in the structure.
    MasterXformMismatch { declared: usize, actual: usize },
    /// The declared atom count differs from the count in the structure.
    MasterCoordMismatch { declared: usize, actual: usize },
}

/// Where in the input a diagnostic points.
#[derive(Clone, PartialEq, Eq, Debug)]
pub enum Context {
    /// No particular place.
    Nowhere,
    /// A whole numbered line.
    FullLine { line_number: usize, text: Vec<char> },
    /// A column range within a numbered line: the half-open byte range
    /// `start..start + len`.
    Range { line_number: usize, text: Vec<char>, start: usize, len: usize },
}

/// Mathematical value of a [`Context`].
pub enum ContextV {
    Nowhere,
    FullLine { line_number: int, text: Seq<char> },
    Range { line_number: int, text: Seq<char>, start: int, len: int },
}

impl View for Context {
    type V = ContextV;

    open spec fn view(&self) -> ContextV {
        match self {
            Context::Nowhere => ContextV::Nowhere,
            Context::FullLine { line_number, text } => ContextV::FullLine {
                line_number: *line_number as int,
                text: text@,
            },
            Context::Range { line_number, text, start, len } => ContextV::Range {
                line_number: *line_number as int,
                text: text@,
                start: *start as int,
                len: *len as int,
            },
        }
    }
}

impl Context {
    /// A whole-line location, keeping a copy of the line's text.
    pub fn full_line(line_number: usize, text: &Vec<char>) -> (r: Context)
        ensures
            r@ == (ContextV::FullLine { line_number: line_number as int, text: text@ }),
    {
        let copy = text.clone();
        proof {
            assert(copy@ =~= text@);
        }
        Context::FullLine { line_number, text: copy }
    }

    /// A column-range location, keeping a copy of the line's text.
    pub fn range(line_number: usize, text: &Vec<char>, start: usize, len: usize) -> (r: Context)
        ensures
            r@ == (ContextV::Range {
                line_number: line_number as int,
                text: text@,
                start: start as int,
                len: len as int,
            }),
    {
        let copy = text.clone();
        proof {
            assert(copy@ =~= text@);
        }
        Context::Range { line_number, text: copy, start, len }
    }
}

/// A graded, located diagnostic.
#[derive(Clone, PartialEq, Eq, Debug)]
pub struct PDBError {
    pub level: ErrorLevel,
    pub kind: ErrorKind,
    pub context: Context,
}

/// Mathematical value of a [`PDBError`].
pub struct PDBErrorV {
    pub level: ErrorLevel,
    pub kind: ErrorKind,
    pub context: ContextV,
}

impl View for PDBError {
    type V = PDBErrorV;

    open spec fn view(&self) -> PDBErrorV {
        PDBErrorV { level: self.level, kind: self.kind, context: self.context@ }
    }
}

impl PDBError {
    pub fn new(level: ErrorLevel, kind: ErrorKind, context: Context) -> (r: PDBError)
        ensures
            r@ == (PDBErrorV { level, kind, context: context@ }),
    {
        PDBError { level, kind, context }
    }
}

} // verus!
