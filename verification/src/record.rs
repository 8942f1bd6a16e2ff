//! The record decoder: pure functions from one fixed-column line (and its
//! 1-based line number) to a typed record or a diagnostic.
//!
//! Dispatch is by the fixed-width leading tag: six characters when the line
//! is long enough, else three, else the line is blank or unrecognized. Each
//! per-tag decoder reads hard-coded column ranges; a line shorter than the
//! minimum for its record kind is rejected before any field is sliced.

use vstd::prelude::*;

use crate::atom::AnisoTensor;
use crate::diag::{Context, ContextV, ErrorKind, ErrorLevel, PDBError, PDBErrorV};
use crate::num::{
    Decimal, digit_value, is_digit_char, is_dec_of, dec_ok, int_ok, int_val, uint_ok, uint_val,
    parse_decimal_field, parse_i64_field, parse_usize_field,
};
use crate::pdb::MasterNumbers;
use crate::tables::spec_valid_remark_type_number;
use crate::transform::Row4;
use vstd::string::StrSliceExecFns;

verus! {

/// One decoded logical unit of input: one line of the file.
#[derive(Clone, PartialEq, Eq, Debug)]
pub enum Record {
    /// A remark line: a type number and free text.
    Remark { number: usize, text: Vec<char> },
    /// A standard or hetero atom.
    Atom {
        hetero: bool,
        serial_number: usize,
        name: Vec<char>,
        alt_loc: char,
        residue_name: Vec<char>,
        chain_id: char,
        residue_serial_number: usize,
        insertion: char,
        x: Decimal,
        y: Decimal,
        z: Decimal,
        occupancy: Decimal,
        b_factor: Decimal,
        segment_id: Vec<char>,
        element: Vec<char>,
        charge: i64,
    },
    /// Anisotropic temperature factors for an atom named by serial number.
    Anisou { serial_number: usize, name: Vec<char>, factors: AnisoTensor },
    /// The unit cell and the space-group name, one record for both.
    Crystal {
        a: Decimal,
        b: Decimal,
        c: Decimal,
        alpha: Decimal,
        beta: Decimal,
        gamma: Decimal,
        space_group: Vec<char>,
        z: usize,
    },
    /// One row of the fractional-coordinate scale matrix.
    Scale { row: usize, values: Row4 },
    /// One row of the origin-transform matrix.
    OrigX { row: usize, values: Row4 },
    /// One row of a non-crystallographic symmetry matrix.
    Mtrix { row: usize, serial_number: usize, values: Row4, given: bool },
    /// The start of a model.
    ModelStart { serial_number: usize },
    /// The declared checksum record.
    Master { numbers: MasterNumbers },
    /// The end of a model.
    EndModel,
    /// A chain terminator.
    Ter,
    /// The end of the coordinate section.
    End,
    /// A blank line.
    Empty,
}

/// A whole-line location.
pub open spec fn full_ctx(ln: int, line: Seq<char>) -> ContextV {
    ContextV::FullLine { line_number: ln, text: line }
}

/// A column-range location.
pub open spec fn range_ctx(ln: int, line: Seq<char>, start: int, len: int) -> ContextV {
    ContextV::Range { line_number: ln, text: line, start, len }
}

/// `r` is exactly the given diagnostic.
pub open spec fn err_at(
    r: Result<Record, PDBError>,
    level: ErrorLevel,
    kind: ErrorKind,
    ctx: ContextV,
) -> bool {
    r is Err && r->Err_0@ == (PDBErrorV { level, kind, context: ctx })
}

/// `r` is a breaking not-a-number diagnostic scoped to the given columns.
pub open spec fn nan_at(
    r: Result<Record, PDBError>,
    ln: int,
    line: Seq<char>,
    start: int,
    len: int,
) -> bool {
    err_at(r, ErrorLevel::BreakingError, ErrorKind::NotANumber, range_ctx(ln, line, start, len))
}

/// `r` is a breaking record-too-short diagnostic over the whole line.
pub open spec fn short_at(r: Result<Record, PDBError>, ln: int, line: Seq<char>) -> bool {
    err_at(r, ErrorLevel::BreakingError, ErrorKind::RecordTooShort, full_ctx(ln, line))
}

/// Whether an atom line carries a formal-charge field.
pub open spec fn charge_present(line: Seq<char>) -> bool {
    line.len() >= 80 && !(line[78] == ' ' && line[79] == ' ')
}

/// The formal charge an atom line carries: a digit and a sign, both blank
/// meaning zero.
pub open spec fn spec_charge_val(line: Seq<char>) -> int {
    if charge_present(line) {
        if line[79] == '-' {
            -digit_value(line[78])
        } else {
            digit_value(line[78])
        }
    } else {
        0
    }
}

/// Copies a column range of the line.
pub fn copy_range(line: &Vec<char>, start: usize, end: usize) -> (r: Vec<char>)
    requires
        start <= end,
        end <= line@.len(),
    ensures
        r@ == line@.subrange(start as int, end as int),
{
    let mut r: Vec<char> = Vec::new();
    let mut i: usize = start;
    while i < end
        invariant
            start <= i <= end,
            end <= line@.len(),
            r@ =~= line@.subrange(start as int, i as int),
        decreases end - i,
    {
        let c = line[i];
        r.push(c);
        proof {
            assert(r@ =~= line@.subrange(start as int, i + 1));
        }
        i = i + 1;
    }
    r
}

/// What decoding an atom line yields, exactly.
pub open spec fn lex_atom_post(
    ln: int,
    line: Seq<char>,
    hetero: bool,
    r: Result<Record, PDBError>,
) -> bool {
    if line.len() < 54 {
        short_at(r, ln, line)
    } else if !uint_ok(line, 7, 11) {
        nan_at(r, ln, line, 7, 4)
    } else if !uint_ok(line, 22, 26) {
        nan_at(r, ln, line, 22, 4)
    } else if !dec_ok(line, 30, 38) {
        nan_at(r, ln, line, 30, 8)
    } else if !dec_ok(line, 38, 46) {
        nan_at(r, ln, line, 38, 8)
    } else if !dec_ok(line, 46, 54) {
        nan_at(r, ln, line, 46, 8)
    } else if line.len() >= 60 && !dec_ok(line, 54, 60) {
        nan_at(r, ln, line, 54, 6)
    } else if line.len() >= 66 && !dec_ok(line, 60, 66) {
        nan_at(r, ln, line, 60, 6)
    } else if charge_present(line) && !is_digit_char(line[78]) {
        err_at(
            r,
            ErrorLevel::BreakingError,
            ErrorKind::ChargeNotNumeric,
            range_ctx(ln, line, 78, 1),
        )
    } else if charge_present(line) && !(line[79] == '-' || line[79] == '+') {
        err_at(
            r,
            ErrorLevel::BreakingError,
            ErrorKind::ChargeNotSigned,
            range_ctx(ln, line, 79, 1),
        )
    } else {
        r is Ok && (r->Ok_0 matches Record::Atom {
            hetero: h,
            serial_number,
            name,
            alt_loc,
            residue_name,
            chain_id,
            residue_serial_number,
            insertion,
            x,
            y,
            z,
            occupancy,
            b_factor,
            segment_id,
            element,
            charge,
        } && {
            &&& h == hetero
            &&& serial_number == uint_val(line, 7, 11)
            &&& name@ == line.subrange(12, 16)
            &&& alt_loc == line[16]
            &&& residue_name@ == line.subrange(17, 20)
            &&& chain_id == line[21]
            &&& residue_serial_number == uint_val(line, 22, 26)
            &&& insertion == line[26]
            &&& is_dec_of(x, line, 30, 38)
            &&& is_dec_of(y, line, 38, 46)
            &&& is_dec_of(z, line, 46, 54)
            &&& (if line.len() >= 60 {
                is_dec_of(occupancy, line, 54, 60)
            } else {
                occupancy == (Decimal { mantissa: 1, frac_digits: 0 })
            })
            &&& (if line.len() >= 66 {
                is_dec_of(b_factor, line, 60, 66)
            } else {
                b_factor == (Decimal { mantissa: 0, frac_digits: 0 })
            })
            &&& segment_id@ == (if line.len() >= 76 {
                line.subrange(72, 76)
            } else {
                seq![' ', ' ', ' ', ' ']
            })
            &&& element@ == (if line.len() >= 78 {
                line.subrange(76, 78)
            } else {
                seq![' ', ' ']
            })
            &&& charge == spec_charge_val(line)
        })
    }
}

/// Decodes an atom line, standard or hetero.
pub fn lex_atom(linenumber: usize, line: &Vec<char>, hetero: bool) -> (r: Result<
    Record,
    PDBError,
>)
    ensures
        lex_atom_post(linenumber as int, line@, hetero, r),
{
    let n = line.len();
    if n < 54 {
        return Err(
            PDBError::new(
                ErrorLevel::BreakingError,
                ErrorKind::RecordTooShort,
                Context::full_line(linenumber, line),
            ),
        );
    }
    let serial_number = match parse_usize_field(line, 7, 11) {
        Ok(v) => v,
        Err(_) => {
            return Err(
                PDBError::new(
                    ErrorLevel::BreakingError,
                    ErrorKind::NotANumber,
                    Context::range(linenumber, line, 7, 4),
                ),
            );
        },
    };
    let residue_serial_number = match parse_usize_field(line, 22, 26) {
        Ok(v) => v,
        Err(_) => {
            return Err(
                PDBError::new(
                    ErrorLevel::BreakingError,
                    ErrorKind::NotANumber,
                    Context::range(linenumber, line, 22, 4),
                ),
            );
        },
    };
    let x = match parse_decimal_field(line, 30, 38) {
        Ok(v) => v,
        Err(_) => {
            return Err(
                PDBError::new(
                    ErrorLevel::BreakingError,
                    ErrorKind::NotANumber,
                    Context::range(linenumber, line, 30, 8),
                ),
            );
        },
    };
    let y = match parse_decimal_field(line, 38, 46) {
        Ok(v) => v,
        Err(_) => {
            return Err(
                PDBError::new(
                    ErrorLevel::BreakingError,
                    ErrorKind::NotANumber,
                    Context::range(linenumber, line, 38, 8),
                ),
            );
        },
    };
    let z = match parse_decimal_field(line, 46, 54) {
        Ok(v) => v,
        Err(_) => {
            return Err(
                PDBError::new(
                    ErrorLevel::BreakingError,
                    ErrorKind::NotANumber,
                    Context::range(linenumber, line, 46, 8),
                ),
            );
        },
    };
    let mut occupancy = Decimal { mantissa: 1, frac_digits: 0 };
    if n >= 60 {
        occupancy = match parse_decimal_field(line, 54, 60) {
            Ok(v) => v,
            Err(_) => {
                return Err(
                    PDBError::new(
                        ErrorLevel::BreakingError,
                        ErrorKind::NotANumber,
                        Context::range(linenumber, line, 54, 6),
                    ),
                );
            },
        };
    }
    let mut b_factor = Decimal { mantissa: 0, frac_digits: 0 };
    if n >= 66 {
        b_factor = match parse_decimal_field(line, 60, 66) {
            Ok(v) => v,
            Err(_) => {
                return Err(
                    PDBError::new(
                        ErrorLevel::BreakingError,
                        ErrorKind::NotANumber,
                        Context::range(linenumber, line, 60, 6),
                    ),
                );
            },
        };
    }
    let mut charge: i64 = 0;
    if n >= 80 {
        let c78 = line[78];
        let c79 = line[79];
        if !(c78 == ' ' && c79 == ' ') {
            if !(c78 >= '0' && c78 <= '9') {
                return Err(
                    PDBError::new(
                        ErrorLevel::BreakingError,
                        ErrorKind::ChargeNotNumeric,
                        Context::range(linenumber, line, 78, 1),
                    ),
                );
            }
            if !(c79 == '-' || c79 == '+') {
                return Err(
                    PDBError::new(
                        ErrorLevel::BreakingError,
                        ErrorKind::ChargeNotSigned,
                        Context::range(linenumber, line, 79, 1),
                    ),
                );
            }
            charge = (c78 as u32 - '0' as u32) as i64;
            if c79 == '-' {
                charge = -charge;
            }
        }
    }
    let name = copy_range(line, 12, 16);
    let alt_loc = line[16];
    let residue_name = copy_range(line, 17, 20);
    let chain_id = line[21];
    let insertion = line[26];
    let segment_id = if n >= 76 {
        copy_range(line, 72, 76)
    } else {
        let mut s: Vec<char> = Vec::new();
        s.push(' ');
        s.push(' ');
        s.push(' ');
        s.push(' ');
        proof {
            assert(s@ =~= seq![' ', ' ', ' ', ' ']);
        }
        s
    };
    let element = if n >= 78 {
        copy_range(line, 76, 78)
    } else {
        let mut s: Vec<char> = Vec::new();
        s.push(' ');
        s.push(' ');
        proof {
            assert(s@ =~= seq![' ', ' ']);
        }
        s
    };
    Ok(
        Record::Atom {
            hetero,
            serial_number,
            name,
            alt_loc,
            residue_name,
            chain_id,
            residue_serial_number,
            insertion,
            x,
            y,
            z,
            occupancy,
            b_factor,
            segment_id,
            element,
            charge,
        },
    )
}

/// What decoding a remark line yields, exactly.
pub open spec fn lex_remark_post(ln: int, line: Seq<char>, r: Result<Record, PDBError>) -> bool {
    if line.len() < 10 {
        short_at(r, ln, line)
    } else if !uint_ok(line, 7, 10) {
        nan_at(r, ln, line, 7, 3)
    } else if !spec_valid_remark_type_number(uint_val(line, 7, 10)) {
        err_at(
            r,
            ErrorLevel::StrictWarning,
            ErrorKind::RemarkTypeInvalid,
            range_ctx(ln, line, 7, 3),
        )
    } else if line.len() > 11 && line.len() - 11 > 70 {
        err_at(
            r,
            ErrorLevel::LooseWarning,
            ErrorKind::RemarkTooLong,
            range_ctx(ln, line, 11, line.len() - 11),
        )
    } else {
        r is Ok && (r->Ok_0 matches Record::Remark { number, text } && {
            &&& number == uint_val(line, 7, 10)
            &&& text@ == (if line.len() > 11 {
                line.subrange(11, line.len() as int)
            } else {
                Seq::<char>::empty()
            })
        })
    }
}

/// Decodes a remark line.
pub fn lex_remark(linenumber: usize, line: &Vec<char>) -> (r: Result<Record, PDBError>)
    ensures
        lex_remark_post(linenumber as int, line@, r),
{
    let n = line.len();
    if n < 10 {
        return Err(
            PDBError::new(
                ErrorLevel::BreakingError,
                ErrorKind::RecordTooShort,
                Context::full_line(linenumber, line),
            ),
        );
    }
    let number = match parse_usize_field(line, 7, 10) {
        Ok(v) => v,
        Err(_) => {
            return Err(
                PDBError::new(
                    ErrorLevel::BreakingError,
                    ErrorKind::NotANumber,
                    Context::range(linenumber, line, 7, 3),
                ),
            );
        },
    };
    if !crate::tables::valid_remark_type_number(number) {
        return Err(
            PDBError::new(
                ErrorLevel::StrictWarning,
                ErrorKind::RemarkTypeInvalid,
                Context::range(linenumber, line, 7, 3),
            ),
        );
    }
    if n > 11 && n - 11 > 70 {
        return Err(
            PDBError::new(
                ErrorLevel::LooseWarning,
                ErrorKind::RemarkTooLong,
                Context::range(linenumber, line, 11, n - 11),
            ),
        );
    }
    let text = if n > 11 {
        copy_range(line, 11, n)
    } else {
        let s: Vec<char> = Vec::new();
        proof {
            assert(s@ =~= Seq::<char>::empty());
        }
        s
    };
    Ok(Record::Remark { number, text })
}

/// What decoding a model-start line yields, exactly.
pub open spec fn lex_model_post(ln: int, line: Seq<char>, r: Result<Record, PDBError>) -> bool {
    if !uint_ok(line, 6, line.len() as int) {
        nan_at(r, ln, line, 6, line.len() - 6)
    } else {
        r is Ok && (r->Ok_0 matches Record::ModelStart { serial_number } && serial_number
            == uint_val(line, 6, line.len() as int))
    }
}

/// Decodes a model-start line: everything after the tag is the serial
/// number.
pub fn lex_model(linenumber: usize, line: &Vec<char>) -> (r: Result<Record, PDBError>)
    requires
        line@.len() > 6,
    ensures
        lex_model_post(linenumber as int, line@, r),
{
    let n = line.len();
    match parse_usize_field(line, 6, n) {
        Ok(v) => Ok(Record::ModelStart { serial_number: v }),
        Err(_) => Err(
            PDBError::new(
                ErrorLevel::BreakingError,
                ErrorKind::NotANumber,
                Context::range(linenumber, line, 6, n - 6),
            ),
        ),
    }
}

/// What decoding an anisotropic-factor line yields, exactly.
pub open spec fn lex_anisou_post(ln: int, line: Seq<char>, r: Result<Record, PDBError>) -> bool {
    if line.len() < 70 {
        short_at(r, ln, line)
    } else if !uint_ok(line, 7, 11) {
        nan_at(r, ln, line, 7, 4)
    } else if !uint_ok(line, 22, 26) {
        nan_at(r, ln, line, 22, 4)
    } else if !int_ok(line, 28, 35) {
        nan_at(r, ln, line, 28, 7)
    } else if !int_ok(line, 35, 42) {
        nan_at(r, ln, line, 35, 7)
    } else if !int_ok(line, 42, 49) {
        nan_at(r, ln, line, 42, 7)
    } else if !int_ok(line, 49, 56) {
        nan_at(r, ln, line, 49, 7)
    } else if !int_ok(line, 56, 63) {
        nan_at(r, ln, line, 56, 7)
    } else if !int_ok(line, 63, 70) {
        nan_at(r, ln, line, 63, 7)
    } else {
        r is Ok && (r->Ok_0 matches Record::Anisou { serial_number, name, factors } && {
            &&& serial_number == uint_val(line, 7, 11)
            &&& name@ == line.subrange(12, 16)
            &&& factors.u11 == int_val(line, 28, 35)
            &&& factors.u12 == int_val(line, 35, 42)
            &&& factors.u13 == int_val(line, 42, 49)
            &&& factors.u21 == int_val(line, 49, 56)
            &&& factors.u22 == int_val(line, 56, 63)
            &&& factors.u23 == int_val(line, 63, 70)
        })
    }
}

/// Decodes an anisotropic-factor line. The six integers encode the real
/// factors times ten thousand.
pub fn lex_anisou(linenumber: usize, line: &Vec<char>) -> (r: Result<Record, PDBError>)
    ensures
        lex_anisou_post(linenumber as int, line@, r),
{
    let n = line.len();
    if n < 70 {
        return Err(
            PDBError::new(
                ErrorLevel::BreakingError,
                ErrorKind::RecordTooShort,
                Context::full_line(linenumber, line),
            ),
        );
    }
    let serial_number = match parse_usize_field(line, 7, 11) {
        Ok(v) => v,
        Err(_) => {
            return Err(
                PDBError::new(
                    ErrorLevel::BreakingError,
                    ErrorKind::NotANumber,
                    Context::range(linenumber, line, 7, 4),
                ),
            );
        },
    };
    match parse_usize_field(line, 22, 26) {
        Ok(_) => (),
        Err(_) => {
            return Err(
                PDBError::new(
                    ErrorLevel::BreakingError,
                    ErrorKind::NotANumber,
                    Context::range(linenumber, line, 22, 4),
                ),
            );
        },
    };
    let u11 = match parse_i64_field(line, 28, 35) {
        Ok(v) => v,
        Err(_) => {
            return Err(
                PDBError::new(
                    ErrorLevel::BreakingError,
                    ErrorKind::NotANumber,
                    Context::range(linenumber, line, 28, 7),
                ),
            );
        },
    };
    let u12 = match parse_i64_field(line, 35, 42) {
        Ok(v) => v,
        Err(_) => {
            return Err(
                PDBError::new(
                    ErrorLevel::BreakingError,
                    ErrorKind::NotANumber,
                    Context::range(linenumber, line, 35, 7),
                ),
            );
        },
    };
    let u13 = match parse_i64_field(line, 42, 49) {
        Ok(v) => v,
        Err(_) => {
            return Err(
                PDBError::new(
                    ErrorLevel::BreakingError,
                    ErrorKind::NotANumber,
                    Context::range(linenumber, line, 42, 7),
                ),
            );
        },
    };
    let u21 = match parse_i64_field(line, 49, 56) {
        Ok(v) => v,
        Err(_) => {
            return Err(
                PDBError::new(
                    ErrorLevel::BreakingError,
                    ErrorKind::NotANumber,
                    Context::range(linenumber, line, 49, 7),
                ),
            );
        },
    };
    let u22 = match parse_i64_field(line, 56, 63) {
        Ok(v) => v,
        Err(_) => {
            return Err(
                PDBError::new(
                    ErrorLevel::BreakingError,
                    ErrorKind::NotANumber,
                    Context::range(linenumber, line, 56, 7),
                ),
            );
        },
    };
    let u23 = match parse_i64_field(line, 63, 70) {
        Ok(v) => v,
        Err(_) => {
            return Err(
                PDBError::new(
                    ErrorLevel::BreakingError,
                    ErrorKind::NotANumber,
                    Context::range(linenumber, line, 63, 7),
                ),
            );
        },
    };
    let name = copy_range(line, 12, 16);
    Ok(
        Record::Anisou {
            serial_number,
            name,
            factors: AnisoTensor { u11, u12, u13, u21, u22, u23 },
        },
    )
}

/// What decoding a unit-cell line yields, exactly.
pub open spec fn lex_cryst_post(ln: int, line: Seq<char>, r: Result<Record, PDBError>) -> bool {
    if line.len() < 55 {
        short_at(r, ln, line)
    } else if !dec_ok(line, 6, 15) {
        nan_at(r, ln, line, 6, 9)
    } else if !dec_ok(line, 15, 24) {
        nan_at(r, ln, line, 15, 9)
    } else if !dec_ok(line, 24, 33) {
        nan_at(r, ln, line, 24, 9)
    } else if !dec_ok(line, 33, 40) {
        nan_at(r, ln, line, 33, 7)
    } else if !dec_ok(line, 40, 47) {
        nan_at(r, ln, line, 40, 7)
    } else if !dec_ok(line, 47, 54) {
        nan_at(r, ln, line, 47, 7)
    } else if line.len() > 66 && !uint_ok(line, 66, line.len() as int) {
        nan_at(r, ln, line, 66, line.len() - 66)
    } else {
        r is Ok && (r->Ok_0 matches Record::Crystal { a, b, c, alpha, beta, gamma, space_group, z }
            && {
            &&& is_dec_of(a, line, 6, 15)
            &&& is_dec_of(b, line, 15, 24)
            &&& is_dec_of(c, line, 24, 33)
            &&& is_dec_of(alpha, line, 33, 40)
            &&& is_dec_of(beta, line, 40, 47)
            &&& is_dec_of(gamma, line, 47, 54)
            &&& space_group@ == line.subrange(
                55,
                if line.len() < 66 {
                    line.len() as int
                } else {
                    66
                },
            )
            &&& z == (if line.len() > 66 {
                uint_val(line, 66, line.len() as int)
            } else {
                1int
            })
        })
    }
}

/// Decodes a unit-cell line: cell dimensions, space group and Z value.
pub fn lex_cryst(linenumber: usize, line: &Vec<char>) -> (r: Result<Record, PDBError>)
    ensures
        lex_cryst_post(linenumber as int, line@, r),
{
    let n = line.len();
    if n < 55 {
        return Err(
            PDBError::new(
                ErrorLevel::BreakingError,
                ErrorKind::RecordTooShort,
                Context::full_line(linenumber, line),
            ),
        );
    }
    let a = match parse_decimal_field(line, 6, 15) {
        Ok(v) => v,
        Err(_) => {
            return Err(
                PDBError::new(
                    ErrorLevel::BreakingError,
                    ErrorKind::NotANumber,
                    Context::range(linenumber, line, 6, 9),
                ),
            );
        },
    };
    let b = match parse_decimal_field(line, 15, 24) {
        Ok(v) => v,
        Err(_) => {
            return Err(
                PDBError::new(
                    ErrorLevel::BreakingError,
                    ErrorKind::NotANumber,
                    Context::range(linenumber, line, 15, 9),
                ),
            );
        },
    };
    let c = match parse_decimal_field(line, 24, 33) {
        Ok(v) => v,
        Err(_) => {
            return Err(
                PDBError::new(
                    ErrorLevel::BreakingError,
                    ErrorKind::NotANumber,
                    Context::range(linenumber, line, 24, 9),
                ),
            );
        },
    };
    let alpha = match parse_decimal_field(line, 33, 40) {
        Ok(v) => v,
        Err(_) => {
            return Err(
                PDBError::new(
                    ErrorLevel::BreakingError,
                    ErrorKind::NotANumber,
                    Context::range(linenumber, line, 33, 7),
                ),
            );
        },
    };
    let beta = match parse_decimal_field(line, 40, 47) {
        Ok(v) => v,
        Err(_) => {
            return Err(
                PDBError::new(
                    ErrorLevel::BreakingError,
                    ErrorKind::NotANumber,
                    Context::range(linenumber, line, 40, 7),
                ),
            );
        },
    };
    let gamma = match parse_decimal_field(line, 47, 54) {
        Ok(v) => v,
        Err(_) => {
            return Err(
                PDBError::new(
                    ErrorLevel::BreakingError,
                    ErrorKind::NotANumber,
                    Context::range(linenumber, line, 47, 7),
                ),
            );
        },
    };
    let mut z: usize = 1;
    if n > 66 {
        z = match parse_usize_field(line, 66, n) {
            Ok(v) => v,
            Err(_) => {
                return Err(
                    PDBError::new(
                        ErrorLevel::BreakingError,
                        ErrorKind::NotANumber,
                        Context::range(linenumber, line, 66, n - 66),
                    ),
                );
            },
        };
    }
    let end = if n < 66 {
        n
    } else {
        66
    };
    let space_group = copy_range(line, 55, end);
    Ok(Record::Crystal { a, b, c, alpha, beta, gamma, space_group, z })
}

/// Whether `values` holds the four reals of a transform-row line.
pub open spec fn is_row_of(values: Row4, line: Seq<char>) -> bool {
    &&& is_dec_of(values.a, line, 10, 20)
    &&& is_dec_of(values.b, line, 20, 30)
    &&& is_dec_of(values.c, line, 30, 40)
    &&& is_dec_of(values.d, line, 45, 55)
}

/// Whether a transform-row line decodes, and where it first fails.
pub open spec fn row_fields_post(ln: int, line: Seq<char>, r: Result<Record, PDBError>) -> bool {
    if !dec_ok(line, 10, 20) {
        nan_at(r, ln, line, 10, 10)
    } else if !dec_ok(line, 20, 30) {
        nan_at(r, ln, line, 20, 10)
    } else if !dec_ok(line, 30, 40) {
        nan_at(r, ln, line, 30, 10)
    } else {
        !dec_ok(line, 45, 55) && nan_at(r, ln, line, 45, 10)
    }
}

pub open spec fn row_fields_ok(line: Seq<char>) -> bool {
    dec_ok(line, 10, 20) && dec_ok(line, 20, 30) && dec_ok(line, 30, 40) && dec_ok(line, 45, 55)
}

/// Reads the four reals of a transform-row line.
fn parse_row_fields(linenumber: usize, line: &Vec<char>) -> (r: Result<Row4, PDBError>)
    requires
        line@.len() >= 55,
    ensures
        r is Ok <==> row_fields_ok(line@),
        r is Ok ==> is_row_of(r->Ok_0, line@),
        r is Err ==> ({
            let e: Result<Record, PDBError> = Result::Err(r->Err_0);
            row_fields_post(linenumber as int, line@, e)
        }),
{
    let a = match parse_decimal_field(line, 10, 20) {
        Ok(v) => v,
        Err(_) => {
            return Err(
                PDBError::new(
                    ErrorLevel::BreakingError,
                    ErrorKind::NotANumber,
                    Context::range(linenumber, line, 10, 10),
                ),
            );
        },
    };
    let b = match parse_decimal_field(line, 20, 30) {
        Ok(v) => v,
        Err(_) => {
            return Err(
                PDBError::new(
                    ErrorLevel::BreakingError,
                    ErrorKind::NotANumber,
                    Context::range(linenumber, line, 20, 10),
                ),
            );
        },
    };
    let c = match parse_decimal_field(line, 30, 40) {
        Ok(v) => v,
        Err(_) => {
            return Err(
                PDBError::new(
                    ErrorLevel::BreakingError,
                    ErrorKind::NotANumber,
                    Context::range(linenumber, line, 30, 10),
                ),
            );
        },
    };
    let d = match parse_decimal_field(line, 45, 55) {
        Ok(v) => v,
        Err(_) => {
            return Err(
                PDBError::new(
                    ErrorLevel::BreakingError,
                    ErrorKind::NotANumber,
                    Context::range(linenumber, line, 45, 10),
                ),
            );
        },
    };
    Ok(Row4 { a, b, c, d })
}

/// What decoding a scale-row line yields, exactly.
pub open spec fn lex_scale_post(
    ln: int,
    line: Seq<char>,
    row: int,
    r: Result<Record, PDBError>,
) -> bool {
    if line.len() < 55 {
        short_at(r, ln, line)
    } else if !row_fields_ok(line) {
        row_fields_post(ln, line, r)
    } else {
        r is Ok && (r->Ok_0 matches Record::Scale { row: n, values } && n == row && is_row_of(
            values,
            line,
        ))
    }
}

/// Decodes a scale-row line; `row` says which of the three rows it is.
pub fn lex_scale(linenumber: usize, line: &Vec<char>, row: usize) -> (r: Result<Record, PDBError>)
    requires
        row < 3,
    ensures
        lex_scale_post(linenumber as int, line@, row as int, r),
{
    let n = line.len();
    if n < 55 {
        return Err(
            PDBError::new(
                ErrorLevel::BreakingError,
                ErrorKind::RecordTooShort,
                Context::full_line(linenumber, line),
            ),
        );
    }
    match parse_row_fields(linenumber, line) {
        Ok(values) => Ok(Record::Scale { row, values }),
        Err(e) => Err(e),
    }
}

/// What decoding an origin-transform-row line yields, exactly.
pub open spec fn lex_origx_post(
    ln: int,
    line: Seq<char>,
    row: int,
    r: Result<Record, PDBError>,
) -> bool {
    if line.len() < 55 {
        short_at(r, ln, line)
    } else if !row_fields_ok(line) {
        row_fields_post(ln, line, r)
    } else {
        r is Ok && (r->Ok_0 matches Record::OrigX { row: n, values } && n == row && is_row_of(
            values,
            line,
        ))
    }
}

/// Decodes an origin-transform-row line.
pub fn lex_origx(linenumber: usize, line: &Vec<char>, row: usize) -> (r: Result<Record, PDBError>)
    requires
        row < 3,
    ensures
        lex_origx_post(linenumber as int, line@, row as int, r),
{
    let n = line.len();
    if n < 55 {
        return Err(
            PDBError::new(
                ErrorLevel::BreakingError,
                ErrorKind::RecordTooShort,
                Context::full_line(linenumber, line),
            ),
        );
    }
    match parse_row_fields(linenumber, line) {
        Ok(values) => Ok(Record::OrigX { row, values }),
        Err(e) => Err(e),
    }
}

/// What decoding a non-crystallographic-symmetry-row line yields, exactly.
pub open spec fn lex_mtrix_post(
    ln: int,
    line: Seq<char>,
    row: int,
    r: Result<Record, PDBError>,
) -> bool {
    if line.len() < 55 {
        short_at(r, ln, line)
    } else if !uint_ok(line, 7, 10) {
        nan_at(r, ln, line, 7, 3)
    } else if !row_fields_ok(line) {
        row_fields_post(ln, line, r)
    } else {
        r is Ok && (r->Ok_0 matches Record::Mtrix { row: n, serial_number, values, given } && {
            &&& n == row
            &&& serial_number == uint_val(line, 7, 10)
            &&& is_row_of(values, line)
            &&& given == (line.len() >= 60 && line[59] == '1')
        })
    }
}

/// Decodes a non-crystallographic-symmetry-row line, carrying its serial
/// number and given-flag.
pub fn lex_mtrix(linenumber: usize, line: &Vec<char>, row: usize) -> (r: Result<Record, PDBError>)
    requires
        row < 3,
    ensures
        lex_mtrix_post(linenumber as int, line@, row as int, r),
{
    let n = line.len();
    if n < 55 {
        return Err(
            PDBError::new(
                ErrorLevel::BreakingError,
                ErrorKind::RecordTooShort,
                Context::full_line(linenumber, line),
            ),
        );
    }
    let serial_number = match parse_usize_field(line, 7, 10) {
        Ok(v) => v,
        Err(_) => {
            return Err(
                PDBError::new(
                    ErrorLevel::BreakingError,
                    ErrorKind::NotANumber,
                    Context::range(linenumber, line, 7, 3),
                ),
            );
        },
    };
    let values = match parse_row_fields(linenumber, line) {
        Ok(v) => v,
        Err(e) => {
            return Err(e);
        },
    };
    let mut given = false;
    if n >= 60 {
        given = line[59] == '1';
    }
    Ok(Record::Mtrix { row, serial_number, values, given })
}

/// What decoding a checksum line yields, exactly.
pub open spec fn lex_master_post(ln: int, line: Seq<char>, r: Result<Record, PDBError>) -> bool {
    if line.len() < 70 {
        short_at(r, ln, line)
    } else if !uint_ok(line, 10, 15) {
        nan_at(r, ln, line, 10, 5)
    } else if !uint_ok(line, 15, 20) {
        nan_at(r, ln, line, 15, 5)
    } else if !uint_ok(line, 20, 25) {
        nan_at(r, ln, line, 20, 5)
    } else if !uint_ok(line, 25, 30) {
        nan_at(r, ln, line, 25, 5)
    } else if !uint_ok(line, 30, 35) {
        nan_at(r, ln, line, 30, 5)
    } else if !uint_ok(line, 35, 40) {
        nan_at(r, ln, line, 35, 5)
    } else if !uint_ok(line, 40, 45) {
        nan_at(r, ln, line, 40, 5)
    } else if !uint_ok(line, 45, 50) {
        nan_at(r, ln, line, 45, 5)
    } else if !uint_ok(line, 50, 55) {
        nan_at(r, ln, line, 50, 5)
    } else if !uint_ok(line, 55, 60) {
        nan_at(r, ln, line, 55, 5)
    } else if !uint_ok(line, 60, 65) {
        nan_at(r, ln, line, 60, 5)
    } else if !uint_ok(line, 65, 70) {
        nan_at(r, ln, line, 65, 5)
    } else {
        r is Ok && (r->Ok_0 matches Record::Master { numbers } && {
            &&& numbers.num_remark == uint_val(line, 10, 15)
            &&& numbers.num_empty == uint_val(line, 15, 20)
            &&& numbers.num_het == uint_val(line, 20, 25)
            &&& numbers.num_helix == uint_val(line, 25, 30)
            &&& numbers.num_sheet == uint_val(line, 30, 35)
            &&& numbers.num_turn == uint_val(line, 35, 40)
            &&& numbers.num_site == uint_val(line, 40, 45)
            &&& numbers.num_xform == uint_val(line, 45, 50)
            &&& numbers.num_coord == uint_val(line, 50, 55)
            &&& numbers.num_ter == uint_val(line, 55, 60)
            &&& numbers.num_connect == uint_val(line, 60, 65)
            &&& numbers.num_seq == uint_val(line, 65, 70)
        })
    }
}

/// Decodes a checksum line: the twelve declared counts.
pub fn lex_master(linenumber: usize, line: &Vec<char>) -> (r: Result<Record, PDBError>)
    ensures
        lex_master_post(linenumber as int, line@, r),
{
    let n = line.len();
    if n < 70 {
        return Err(
            PDBError::new(
                ErrorLevel::BreakingError,
                ErrorKind::RecordTooShort,
                Context::full_line(linenumber, line),
            ),
        );
    }
    let num_remark = match parse_usize_field(line, 10, 15) {
        Ok(v) => v,
        Err(_) => {
            return Err(
                PDBError::new(
                    ErrorLevel::BreakingError,
                    ErrorKind::NotANumber,
                    Context::range(linenumber, line, 10, 5),
                ),
            );
        },
    };
    let num_empty = match parse_usize_field(line, 15, 20) {
        Ok(v) => v,
        Err(_) => {
            return Err(
                PDBError::new(
                    ErrorLevel::BreakingError,
                    ErrorKind::NotANumber,
                    Context::range(linenumber, line, 15, 5),
                ),
            );
        },
    };
    let num_het = match parse_usize_field(line, 20, 25) {
        Ok(v) => v,
        Err(_) => {
            return Err(
                PDBError::new(
                    ErrorLevel::BreakingError,
                    ErrorKind::NotANumber,
                    Context::range(linenumber, line, 20, 5),
                ),
            );
        },
    };
    let num_helix = match parse_usize_field(line, 25, 30) {
        Ok(v) => v,
        Err(_) => {
            return Err(
                PDBError::new(
                    ErrorLevel::BreakingError,
                    ErrorKind::NotANumber,
                    Context::range(linenumber, line, 25, 5),
                ),
            );
        },
    };
    let num_sheet = match parse_usize_field(line, 30, 35) {
        Ok(v) => v,
        Err(_) => {
            return Err(
                PDBError::new(
                    ErrorLevel::BreakingError,
                    ErrorKind::NotANumber,
                    Context::range(linenumber, line, 30, 5),
                ),
            );
        },
    };
    let num_turn = match parse_usize_field(line, 35, 40) {
        Ok(v) => v,
        Err(_) => {
            return Err(
                PDBError::new(
                    ErrorLevel::BreakingError,
                    ErrorKind::NotANumber,
                    Context::range(linenumber, line, 35, 5),
                ),
            );
        },
    };
    let num_site = match parse_usize_field(line, 40, 45) {
        Ok(v) => v,
        Err(_) => {
            return Err(
                PDBError::new(
                    ErrorLevel::BreakingError,
                    ErrorKind::NotANumber,
                    Context::range(linenumber, line, 40, 5),
                ),
            );
        },
    };
    let num_xform = match parse_usize_field(line, 45, 50) {
        Ok(v) => v,
        Err(_) => {
            return Err(
                PDBError::new(
                    ErrorLevel::BreakingError,
                    ErrorKind::NotANumber,
                    Context::range(linenumber, line, 45, 5),
                ),
            );
        },
    };
    let num_coord = match parse_usize_field(line, 50, 55) {
        Ok(v) => v,
        Err(_) => {
            return Err(
                PDBError::new(
                    ErrorLevel::BreakingError,
                    ErrorKind::NotANumber,
                    Context::range(linenumber, line, 50, 5),
                ),
            );
        },
    };
    let num_ter = match parse_usize_field(line, 55, 60) {
        Ok(v) => v,
        Err(_) => {
            return Err(
                PDBError::new(
                    ErrorLevel::BreakingError,
                    ErrorKind::NotANumber,
                    Context::range(linenumber, line, 55, 5),
                ),
            );
        },
    };
    let num_connect = match parse_usize_field(line, 60, 65) {
        Ok(v) => v,
        Err(_) => {
            return Err(
                PDBError::new(
                    ErrorLevel::BreakingError,
                    ErrorKind::NotANumber,
                    Context::range(linenumber, line, 60, 5),
                ),
            );
        },
    };
    let num_seq = match parse_usize_field(line, 65, 70) {
        Ok(v) => v,
        Err(_) => {
            return Err(
                PDBError::new(
                    ErrorLevel::BreakingError,
                    ErrorKind::NotANumber,
                    Context::range(linenumber, line, 65, 5),
                ),
            );
        },
    };
    Ok(
        Record::Master {
            numbers: MasterNumbers {
                num_remark,
                num_empty,
                num_het,
                num_helix,
                num_sheet,
                num_turn,
                num_site,
                num_xform,
                num_coord,
                num_ter,
                num_connect,
                num_seq,
            },
        },
    )
}

/// Compares the first `k` characters of the line with `s`.
pub fn prefix_eq(line: &Vec<char>, k: usize, s: &str) -> (r: bool)
    requires
        k <= line@.len(),
    ensures
        r == (line@.subrange(0, k as int) == s@),
{
    let n = s.unicode_len();
    if n != k {
        proof {
            assert(line@.subrange(0, k as int).len() == k);
        }
        return false;
    }
    let mut i: usize = 0;
    while i < k
        invariant
            0 <= i <= k <= line@.len(),
            k as nat == s@.len(),
            forall|j: int| 0 <= j < i ==> line@[j] == s@[j],
        decreases k - i,
    {
        let c = line[i];
        let d = s.get_char(i);
        if c != d {
            proof {
                assert(line@.subrange(0, k as int)[i as int] != s@[i as int]);
            }
            return false;
        }
        i = i + 1;
    }
    proof {
        assert(line@.subrange(0, k as int) =~= s@);
    }
    true
}

/// `r` is the low-severity unrecognized-tag diagnostic.
pub open spec fn unrecognized_at(r: Result<Record, PDBError>, ln: int, line: Seq<char>) -> bool {
    err_at(r, ErrorLevel::GeneralWarning, ErrorKind::UnrecognizedTag, full_ctx(ln, line))
}

/// What decoding one line yields, exactly: dispatch by the leading tag, then
/// the per-tag decoder's outcome.
pub open spec fn decode_line_post(ln: int, line: Seq<char>, r: Result<Record, PDBError>) -> bool {
    if line.len() > 6 {
        let tag = line.subrange(0, 6);
        if tag == "REMARK"@ {
            lex_remark_post(ln, line, r)
        } else if tag == "ATOM  "@ {
            lex_atom_post(ln, line, false, r)
        } else if tag == "ANISOU"@ {
            lex_anisou_post(ln, line, r)
        } else if tag == "HETATM"@ {
            lex_atom_post(ln, line, true, r)
        } else if tag == "CRYST1"@ {
            lex_cryst_post(ln, line, r)
        } else if tag == "SCALE1"@ {
            lex_scale_post(ln, line, 0, r)
        } else if tag == "SCALE2"@ {
            lex_scale_post(ln, line, 1, r)
        } else if tag == "SCALE3"@ {
            lex_scale_post(ln, line, 2, r)
        } else if tag == "ORIGX1"@ {
            lex_origx_post(ln, line, 0, r)
        } else if tag == "ORIGX2"@ {
            lex_origx_post(ln, line, 1, r)
        } else if tag == "ORIGX3"@ {
            lex_origx_post(ln, line, 2, r)
        } else if tag == "MTRIX1"@ {
            lex_mtrix_post(ln, line, 0, r)
        } else if tag == "MTRIX2"@ {
            lex_mtrix_post(ln, line, 1, r)
        } else if tag == "MTRIX3"@ {
            lex_mtrix_post(ln, line, 2, r)
        } else if tag == "MODEL "@ {
            lex_model_post(ln, line, r)
        } else if tag == "MASTER"@ {
            lex_master_post(ln, line, r)
        } else if tag == "ENDMDL"@ {
            r is Ok && r->Ok_0 is EndModel
        } else if tag == "TER   "@ {
            r is Ok && r->Ok_0 is Ter
        } else if tag == "END   "@ {
            r is Ok && r->Ok_0 is End
        } else {
            unrecognized_at(r, ln, line)
        }
    } else if line.len() > 2 {
        let tag = line.subrange(0, 3);
        if tag == "TER"@ {
            r is Ok && r->Ok_0 is Ter
        } else if tag == "END"@ {
            r is Ok && r->Ok_0 is End
        } else {
            unrecognized_at(r, ln, line)
        }
    } else if line.len() > 0 {
        unrecognized_at(r, ln, line)
    } else {
        r is Ok && r->Ok_0 is Empty
    }
}

/// Decodes one line of the file into a typed record or a diagnostic.
pub fn decode_line(linenumber: usize, line: &Vec<char>) -> (r: Result<Record, PDBError>)
    ensures
        decode_line_post(linenumber as int, line@, r),
{
    let n = line.len();
    if n > 6 {
        if prefix_eq(line, 6, "REMARK") {
            return lex_remark(linenumber, line);
        }
        if prefix_eq(line, 6, "ATOM  ") {
            return lex_atom(linenumber, line, false);
        }
        if prefix_eq(line, 6, "ANISOU") {
            return lex_anisou(linenumber, line);
        }
        if prefix_eq(line, 6, "HETATM") {
            return lex_atom(linenumber, line, true);
        }
        if prefix_eq(line, 6, "CRYST1") {
            return lex_cryst(linenumber, line);
        }
        if prefix_eq(line, 6, "SCALE1") {
            return lex_scale(linenumber, line, 0);
        }
        if prefix_eq(line, 6, "SCALE2") {
            return lex_scale(linenumber, line, 1);
        }
        if prefix_eq(line, 6, "SCALE3") {
            return lex_scale(linenumber, line, 2);
        }
        if prefix_eq(line, 6, "ORIGX1") {
            return lex_origx(linenumber, line, 0);
        }
        if prefix_eq(line, 6, "ORIGX2") {
            return lex_origx(linenumber, line, 1);
        }
        if prefix_eq(line, 6, "ORIGX3") {
            return lex_origx(linenumber, line, 2);
        }
        if prefix_eq(line, 6, "MTRIX1") {
            return lex_mtrix(linenumber, line, 0);
        }
        if prefix_eq(line, 6, "MTRIX2") {
            return lex_mtrix(linenumber, line, 1);
        }
        if prefix_eq(line, 6, "MTRIX3") {
            return lex_mtrix(linenumber, line, 2);
        }
        if prefix_eq(line, 6, "MODEL ") {
            return lex_model(linenumber, line);
        }
        if prefix_eq(line, 6, "MASTER") {
            return lex_master(linenumber, line);
        }
        if prefix_eq(line, 6, "ENDMDL") {
            return Ok(Record::EndModel);
        }
        if prefix_eq(line, 6, "TER   ") {
            return Ok(Record::Ter);
        }
        if prefix_eq(line, 6, "END   ") {
            return Ok(Record::End);
        }
        return Err(
            PDBError::new(
                ErrorLevel::GeneralWarning,
                ErrorKind::UnrecognizedTag,
                Context::full_line(linenumber, line),
            ),
        );
    } else if n > 2 {
        if prefix_eq(line, 3, "TER") {
            return Ok(Record::Ter);
        }
        if prefix_eq(line, 3, "END") {
            return Ok(Record::End);
        }
        return Err(
            PDBError::new(
                ErrorLevel::GeneralWarning,
                ErrorKind::UnrecognizedTag,
                Context::full_line(linenumber, line),
            ),
        );
    } else if n > 0 {
        return Err(
            PDBError::new(
                ErrorLevel::GeneralWarning,
                ErrorKind::UnrecognizedTag,
                Context::full_line(linenumber, line),
            ),
        );
    }
    Ok(Record::Empty)
}

} // verus!
