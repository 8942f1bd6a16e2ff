use pdbtbx::atom::{AnisoTensor, Atom};
use pdbtbx::builder::BuildState;
use pdbtbx::diag::{Context, ErrorKind, ErrorLevel};
use pdbtbx::model::Model;
use pdbtbx::num::{Decimal, parse_decimal_field, parse_i64_field, parse_usize_field};
use pdbtbx::parser::parse_lines;
use pdbtbx::pdb::Symmetry;
use pdbtbx::record::{Record, decode_line};
use pdbtbx::tables::{resolve_space_group, valid_remark_type_number};
use pdbtbx::transform::{Row4, RowMatrix};

fn chars(s: &str) -> Vec<char> {
    s.chars().collect()
}

fn dec(mantissa: i64, frac_digits: usize) -> Decimal {
    Decimal { mantissa, frac_digits }
}

fn test_atom(serial: usize) -> Atom {
    Atom::new(
        serial,
        chars(" N  "),
        ' ',
        dec(11104, 3),
        dec(6134, 3),
        dec(-6504, 3),
        dec(100, 2),
        dec(0, 2),
        chars("    "),
        chars(" N"),
        0,
    )
    .unwrap()
}

const ATOM_LINE: &str =
    "ATOM      1  N   MET A   1      11.104   6.134  -6.504  1.00  0.00           N  ";
const ATOM_LINE_CHARGED: &str =
    "ATOM      2  CA  MET A   1      12.560   7.047  -6.351  1.00  0.00           N1-";
const HETATM_LINE: &str =
    "HETATM    3  O   HOH A   5       1.000   2.000   3.000  1.00  0.00           N  ";

#[test]
fn parse_usize_field_reads_padded_digits() {
    let line = chars("  42 ");
    assert_eq!(parse_usize_field(&line, 0, 5), Ok(42));
    assert_eq!(parse_usize_field(&line, 0, 2), Err(()));
    let plus = chars(" +7");
    assert_eq!(parse_usize_field(&plus, 0, 3), Ok(7));
    let neg = chars("  -7");
    assert_eq!(parse_usize_field(&neg, 0, 4), Err(()));
}

#[test]
fn parse_usize_field_discards_interior_whitespace() {
    let line = chars("1 2");
    assert_eq!(parse_usize_field(&line, 0, 3), Ok(12));
}

#[test]
fn parse_i64_field_reads_signed_digits() {
    let line = chars("   -200");
    assert_eq!(parse_i64_field(&line, 0, 7), Ok(-200));
    let line = chars("   1234");
    assert_eq!(parse_i64_field(&line, 0, 7), Ok(1234));
    let line = chars("  12.5 ");
    assert_eq!(parse_i64_field(&line, 0, 7), Err(()));
}

#[test]
fn parse_decimal_field_is_exact() {
    let line = chars("  11.104");
    assert_eq!(parse_decimal_field(&line, 0, 8), Ok(dec(11104, 3)));
    let line = chars("  -6.504");
    assert_eq!(parse_decimal_field(&line, 0, 8), Ok(dec(-6504, 3)));
    let line = chars("     .5 ");
    assert_eq!(parse_decimal_field(&line, 0, 8), Ok(dec(5, 1)));
    let line = chars("     12.");
    assert_eq!(parse_decimal_field(&line, 0, 8), Ok(dec(12, 0)));
    let line = chars("      42");
    assert_eq!(parse_decimal_field(&line, 0, 8), Ok(dec(42, 0)));
    let line = chars("  1.2.3 ");
    assert_eq!(parse_decimal_field(&line, 0, 8), Err(()));
    let line = chars("       .");
    assert_eq!(parse_decimal_field(&line, 0, 8), Err(()));
    let line = chars("   abc  ");
    assert_eq!(parse_decimal_field(&line, 0, 8), Err(()));
}

#[test]
fn decode_atom_reproduces_all_fields() {
    let line = chars(ATOM_LINE);
    let rec = decode_line(1, &line).unwrap();
    match rec {
        Record::Atom {
            hetero,
            serial_number,
            name,
            alt_loc,
            residue_name,
            chain_id,
            residue_serial_number,
            insertion,
            x,
            y,
            z,
            occupancy,
            b_factor,
            segment_id,
            element,
            charge,
        } => {
            assert!(!hetero);
            assert_eq!(serial_number, 1);
            assert_eq!(name, chars(" N  "));
            assert_eq!(alt_loc, ' ');
            assert_eq!(residue_name, chars("MET"));
            assert_eq!(chain_id, 'A');
            assert_eq!(residue_serial_number, 1);
            assert_eq!(insertion, ' ');
            assert_eq!(x, dec(11104, 3));
            assert_eq!(y, dec(6134, 3));
            assert_eq!(z, dec(-6504, 3));
            assert_eq!(occupancy, dec(100, 2));
            assert_eq!(b_factor, dec(0, 2));
            assert_eq!(segment_id, chars("    "));
            assert_eq!(element, chars(" N"));
            assert_eq!(charge, 0);
        }
        other => panic!("expected an atom record, got {:?}", other),
    }
}

#[test]
fn decode_atom_negative_charge() {
    let line = chars(ATOM_LINE_CHARGED);
    match decode_line(1, &line).unwrap() {
        Record::Atom { charge, serial_number, .. } => {
            assert_eq!(serial_number, 2);
            assert_eq!(charge, -1);
        }
        other => panic!("expected an atom record, got {:?}", other),
    }
}

#[test]
fn truncated_atom_is_fatal_and_parse_returns_only_that() {
    // A line of length 40 tagged as an atom is too short for its
    // coordinate fields.
    let line = format!("{}{}", "ATOM  ", " ".repeat(34));
    assert_eq!(line.len(), 40);
    let e = decode_line(1, &chars(&line)).unwrap_err();
    assert_eq!(e.level, ErrorLevel::BreakingError);
    assert_eq!(e.kind, ErrorKind::RecordTooShort);
    let r = parse_lines(&vec![chars(&line)]);
    let e = r.unwrap_err();
    assert_eq!(e.level, ErrorLevel::BreakingError);
    assert_eq!(e.kind, ErrorKind::RecordTooShort);
    match e.context {
        Context::FullLine { line_number, text } => {
            assert_eq!(line_number, 1);
            assert_eq!(text, chars(&line));
        }
        other => panic!("expected a full-line context, got {:?}", other),
    }
}

#[test]
fn the_first_breaking_diagnostic_is_the_one_returned() {
    // Non-fatal deviations before the fatal line do not displace it.
    let short = format!("{}{}", "ATOM  ", " ".repeat(34));
    let lines = vec![
        chars("FOOBAR junk"),
        chars("REMARK   7"),
        chars(&short),
        chars(ATOM_LINE),
    ];
    let e = parse_lines(&lines).unwrap_err();
    assert_eq!(e.kind, ErrorKind::RecordTooShort);
    match e.context {
        Context::FullLine { line_number, .. } => assert_eq!(line_number, 3),
        other => panic!("expected a full-line context, got {:?}", other),
    }
}

#[test]
fn malformed_charge_digit_is_fatal_at_the_digit_column() {
    // A digit field of '+' with sign '-' fails on the digit column, not
    // the sign column.
    let line: String = format!("{}+-", &ATOM_LINE[..78]);
    let e = decode_line(1, &chars(&line)).unwrap_err();
    assert_eq!(e.level, ErrorLevel::BreakingError);
    assert_eq!(e.kind, ErrorKind::ChargeNotNumeric);
    match e.context {
        Context::Range { start, len, .. } => {
            assert_eq!(start, 78);
            assert_eq!(len, 1);
        }
        other => panic!("expected a column range, got {:?}", other),
    }
}

#[test]
fn malformed_charge_sign_is_fatal_at_the_sign_column() {
    let line: String = format!("{}3*", &ATOM_LINE[..78]);
    let e = decode_line(1, &chars(&line)).unwrap_err();
    assert_eq!(e.level, ErrorLevel::BreakingError);
    assert_eq!(e.kind, ErrorKind::ChargeNotSigned);
    match e.context {
        Context::Range { start, len, .. } => {
            assert_eq!(start, 79);
            assert_eq!(len, 1);
        }
        other => panic!("expected a column range, got {:?}", other),
    }
}

#[test]
fn remark_decodes_number_and_text() {
    let line = chars("REMARK   2 RESOLUTION.    1.74 ANGSTROMS.");
    match decode_line(1, &line).unwrap() {
        Record::Remark { number, text } => {
            assert_eq!(number, 2);
            assert_eq!(text, chars("RESOLUTION.    1.74 ANGSTROMS."));
        }
        other => panic!("expected a remark record, got {:?}", other),
    }
}

#[test]
fn remark_with_invalid_type_number_is_a_strict_warning() {
    let line = chars("REMARK   7");
    let e = decode_line(1, &line).unwrap_err();
    assert_eq!(e.level, ErrorLevel::StrictWarning);
    assert_eq!(e.kind, ErrorKind::RemarkTypeInvalid);
}

#[test]
fn remark_with_oversized_text_is_a_loose_warning() {
    let line = format!("REMARK 999 {}", "X".repeat(71));
    let e = decode_line(1, &chars(&line)).unwrap_err();
    assert_eq!(e.level, ErrorLevel::LooseWarning);
    assert_eq!(e.kind, ErrorKind::RemarkTooLong);
}

#[test]
fn unrecognized_tag_is_a_general_warning() {
    let line = chars("FOOBAR something");
    let e = decode_line(1, &line).unwrap_err();
    assert_eq!(e.level, ErrorLevel::GeneralWarning);
    assert_eq!(e.kind, ErrorKind::UnrecognizedTag);
}

#[test]
fn not_a_number_in_a_mandatory_field_is_fatal() {
    let mut s = String::from(ATOM_LINE);
    s.replace_range(30..38, "  xx.yyy");
    let e = decode_line(1, &chars(&s)).unwrap_err();
    assert_eq!(e.level, ErrorLevel::BreakingError);
    assert_eq!(e.kind, ErrorKind::NotANumber);
    match e.context {
        Context::Range { start, len, .. } => {
            assert_eq!(start, 30);
            assert_eq!(len, 8);
        }
        other => panic!("expected a column range, got {:?}", other),
    }
}

#[test]
fn upsert_same_chain_same_residue_creates_nothing_new() {
    let mut m = Model::new(0);
    m.add_atom(test_atom(1), 'A', 1, chars("MET"));
    m.add_atom(test_atom(2), 'A', 1, chars("MET"));
    assert_eq!(m.chain_count(), 1);
    assert_eq!(m.residue_count(), 1);
    assert_eq!(m.atom_count(), 2);
}

#[test]
fn upsert_same_chain_two_serials_creates_two_residues() {
    let mut m = Model::new(0);
    m.add_atom(test_atom(1), 'A', 1, chars("MET"));
    m.add_atom(test_atom(2), 'A', 2, chars("GLY"));
    assert_eq!(m.chain_count(), 1);
    assert_eq!(m.residue_count(), 2);
    assert_eq!(m.atom_count(), 2);
}

#[test]
fn upsert_keeps_first_insertion_order() {
    let mut m = Model::new(0);
    m.add_atom(test_atom(1), 'B', 9, chars("MET"));
    m.add_atom(test_atom(2), 'A', 3, chars("GLY"));
    m.add_atom(test_atom(3), 'B', 1, chars("ALA"));
    m.add_atom(test_atom(4), 'B', 9, chars("MET"));
    let ids: Vec<char> = m.chains().iter().map(|c| c.id).collect();
    assert_eq!(ids, vec!['B', 'A']);
    let serials: Vec<usize> =
        m.chains()[0].residues.iter().map(|r| r.serial_number).collect();
    assert_eq!(serials, vec![9, 1]);
    let atoms: Vec<usize> = m.all_atoms().iter().map(|a| a.serial_number).collect();
    assert_eq!(atoms, vec![1, 4, 3, 2]);
}

#[test]
fn hetero_partition_is_separate() {
    let mut m = Model::new(0);
    m.add_atom(test_atom(1), 'A', 1, chars("MET"));
    m.add_hetero_atom(test_atom(2), 'A', 5, chars("HOH"));
    assert_eq!(m.chain_count(), 1);
    assert_eq!(m.total_chain_count(), 2);
    assert_eq!(m.atom_count(), 1);
    assert_eq!(m.total_atom_count(), 2);
    assert_eq!(m.hetero_chains().len(), 1);
}

#[test]
fn model_accessors_traverse_in_order() {
    let mut m = Model::new(7);
    m.add_atom(test_atom(1), 'A', 1, chars("MET"));
    m.add_hetero_atom(test_atom(2), 'W', 5, chars("HOH"));
    assert_eq!(m.serial_number(), 7);
    assert_eq!(m.chain(0).unwrap().id, 'A');
    assert_eq!(m.chain(1).unwrap().id, 'W');
    assert!(m.chain(2).is_none());
    assert_eq!(m.residue(0).unwrap().serial_number, 1);
    assert_eq!(m.residue(1).unwrap().serial_number, 5);
    assert!(m.residue(2).is_none());
    assert_eq!(m.atom(0).unwrap().serial_number, 1);
    assert_eq!(m.atom(1).unwrap().serial_number, 2);
    assert!(m.atom(2).is_none());
    assert_eq!(m.all_chains().len(), 2);
    assert_eq!(m.all_residues().len(), 2);
    assert_eq!(m.residues().len(), 1);
    assert_eq!(m.hetero_residues().len(), 1);
    assert_eq!(m.atoms().len(), 1);
    assert_eq!(m.hetero_atoms().len(), 1);
}

#[test]
fn remove_chain_id_removes_the_first_match() {
    let mut m = Model::new(0);
    m.add_atom(test_atom(1), 'A', 1, chars("MET"));
    m.add_atom(test_atom(2), 'B', 1, chars("GLY"));
    assert!(m.remove_chain_id('A'));
    assert_eq!(m.chain_count(), 1);
    assert_eq!(m.chains()[0].id, 'B');
    assert!(!m.remove_chain_id('A'));
}

#[test]
fn join_appends_both_partitions() {
    let mut a = Model::new(0);
    a.add_atom(test_atom(1), 'A', 1, chars("MET"));
    let mut b = Model::new(1);
    b.add_atom(test_atom(2), 'B', 1, chars("GLY"));
    b.add_hetero_atom(test_atom(3), 'W', 9, chars("HOH"));
    a.join(b);
    assert_eq!(a.serial_number(), 0);
    assert_eq!(a.chain_count(), 2);
    assert_eq!(a.total_atom_count(), 3);
}

#[test]
fn set_serial_number_changes_only_the_serial() {
    let mut m = Model::new(0);
    m.add_atom(test_atom(1), 'A', 1, chars("MET"));
    m.set_serial_number(9);
    assert_eq!(m.serial_number(), 9);
    assert_eq!(m.atom_count(), 1);
}

#[test]
fn empty_model_guard_drops_no_model_but_keeps_none_empty() {
    // Two model-start records with no atom between them yield no empty
    // model; the one atom that follows lands in a model with the second
    // serial number.
    let lines = vec![
        chars("MODEL        1"),
        chars("MODEL        2"),
        chars(ATOM_LINE),
        chars("ENDMDL"),
    ];
    let (pdb, errors) = parse_lines(&lines).unwrap();
    assert!(errors.is_empty());
    assert_eq!(pdb.model_count(), 1);
    assert_eq!(pdb.models()[0].serial_number(), 2);
    assert_eq!(pdb.models()[0].atom_count(), 1);
}

#[test]
fn scale_matrix_is_valid_only_after_its_third_row() {
    let r0 = Row4 { a: dec(2, 2), b: dec(0, 6), c: dec(0, 6), d: dec(0, 5) };
    let r1 = Row4 { a: dec(0, 6), b: dec(3, 2), c: dec(0, 6), d: dec(0, 5) };
    let r2 = Row4 { a: dec(0, 6), b: dec(0, 6), c: dec(4, 2), d: dec(0, 5) };
    let mut m = RowMatrix::new();
    assert!(!m.valid());
    m.set_row(0, r0);
    assert!(!m.valid());
    m.set_row(1, r1);
    assert!(!m.valid());
    m.set_row(2, r2);
    assert!(m.valid());
    assert_eq!(m.row0, Some(r0));
    assert_eq!(m.row1, Some(r1));
    assert_eq!(m.row2, Some(r2));
}

#[test]
fn scale_rows_assemble_through_the_parser() {
    let l1 = chars("SCALE1      0.020000  0.000000  0.000000        0.00000");
    let l2 = chars("SCALE2      0.000000  0.020000  0.000000        0.00000");
    let l3 = chars("SCALE3      0.000000  0.000000  0.020000        0.00000");
    let (pdb, errors) = parse_lines(&vec![l1.clone(), l2.clone()]).unwrap();
    assert!(errors.is_empty());
    assert!(!pdb.scale().unwrap().valid());
    let (pdb, errors) = parse_lines(&vec![l1, l2, l3]).unwrap();
    assert!(errors.is_empty());
    let m = pdb.scale().unwrap();
    assert!(m.valid());
    assert_eq!(m.row0.unwrap().a, dec(20000, 6));
    assert_eq!(m.row1.unwrap().b, dec(20000, 6));
    assert_eq!(m.row2.unwrap().c, dec(20000, 6));
}

#[test]
fn mtrix_rows_are_keyed_by_serial_number() {
    let l1 = chars("MTRIX1   1  1.000000  0.000000  0.000000        0.00000    1");
    let l2 = chars("MTRIX2   1  0.000000  1.000000  0.000000        0.00000    1");
    let l3 = chars("MTRIX3   1  0.000000  0.000000  1.000000        0.00000    1");
    let (pdb, errors) = parse_lines(&vec![l1, l2, l3]).unwrap();
    assert!(errors.is_empty());
    assert_eq!(pdb.mtrix().len(), 1);
    let m = pdb.mtrix()[0];
    assert_eq!(m.serial_number, 1);
    assert!(m.contained);
    assert!(m.valid());
}

#[test]
fn cryst_sets_unit_cell_and_known_space_group() {
    let line = chars("CRYST1   50.000   60.000   70.000  90.00  90.00  90.00 P 21 21 21    4");
    let (pdb, errors) = parse_lines(&vec![line]).unwrap();
    assert!(errors.is_empty());
    let cell = pdb.unit_cell().unwrap();
    assert_eq!(cell.a, dec(50000, 3));
    assert_eq!(cell.b, dec(60000, 3));
    assert_eq!(cell.c, dec(70000, 3));
    assert_eq!(cell.alpha, dec(9000, 2));
    let sym = pdb.symmetry().as_ref().unwrap();
    assert_eq!(sym.name, chars("P 21 21 21"));
}

#[test]
fn unknown_space_group_is_a_strict_warning_and_leaves_symmetry_unset() {
    let line = chars("CRYST1   50.000   60.000   70.000  90.00  90.00  90.00 Q FOO         4");
    let (pdb, errors) = parse_lines(&vec![line]).unwrap();
    assert_eq!(errors.len(), 1);
    assert_eq!(errors[0].level, ErrorLevel::StrictWarning);
    assert_eq!(errors[0].kind, ErrorKind::UnknownSpaceGroup);
    assert!(pdb.symmetry().is_none());
    assert!(pdb.unit_cell().is_some());
}

#[test]
fn symmetry_resolves_trimmed_names() {
    assert!(resolve_space_group(&chars("P 1")));
    assert!(resolve_space_group(&chars("P 21 21 21   ")));
    assert!(!resolve_space_group(&chars("NOT A GROUP")));
    assert!(Symmetry::new(&chars("C 2  ")).is_some());
    assert!(Symmetry::new(&chars("")).is_none());
}

#[test]
fn remark_table_accepts_documented_numbers_only() {
    assert!(valid_remark_type_number(0));
    assert!(valid_remark_type_number(2));
    assert!(valid_remark_type_number(350));
    assert!(valid_remark_type_number(999));
    assert!(!valid_remark_type_number(7));
    assert!(!valid_remark_type_number(1000));
}

#[test]
fn anisou_attaches_to_the_most_recent_matching_atom() {
    let lines = vec![
        chars(ATOM_LINE),
        chars("ANISOU    1  N   MET A   1     1234   -200    300   4000     50      6          "),
    ];
    let (pdb, errors) = parse_lines(&lines).unwrap();
    assert!(errors.is_empty());
    let m = &pdb.models()[0];
    let a = m.atom(0).unwrap();
    assert_eq!(
        a.anisotropic,
        Some(AnisoTensor { u11: 1234, u12: -200, u13: 300, u21: 4000, u22: 50, u23: 6 })
    );
}

#[test]
fn anisou_without_a_matching_atom_is_a_general_warning() {
    let lines = vec![
        chars(ATOM_LINE),
        chars("ANISOU   99  N   MET A   1     1234   -200    300   4000     50      6          "),
    ];
    let (pdb, errors) = parse_lines(&lines).unwrap();
    assert_eq!(errors.len(), 1);
    assert_eq!(errors[0].level, ErrorLevel::GeneralWarning);
    assert_eq!(errors[0].kind, ErrorKind::AnisouUnmatched);
    assert_eq!(pdb.models()[0].atom(0).unwrap().anisotropic, None);
}

#[test]
fn master_checksum_mismatch_names_both_values() {
    // One atom in the structure, three declared: exactly one strict
    // warning carrying both counts.
    let lines = vec![
        chars(ATOM_LINE),
        chars("MASTER        0    0    0    0    0    0    0    0    3    0    0    0"),
    ];
    let (_pdb, errors) = parse_lines(&lines).unwrap();
    let coords: Vec<_> = errors
        .iter()
        .filter(|e| matches!(e.kind, ErrorKind::MasterCoordMismatch { .. }))
        .collect();
    assert_eq!(coords.len(), 1);
    assert_eq!(coords[0].level, ErrorLevel::StrictWarning);
    assert_eq!(coords[0].kind, ErrorKind::MasterCoordMismatch { declared: 3, actual: 1 });
}

#[test]
fn master_checksum_that_agrees_is_silent() {
    let lines = vec![
        chars("REMARK   2 SOMETHING"),
        chars(ATOM_LINE),
        chars("MASTER        1    0    0    0    0    0    0    0    1    0    0    0"),
    ];
    let (pdb, errors) = parse_lines(&lines).unwrap();
    assert!(errors.is_empty());
    assert_eq!(pdb.model_count(), 1);
}

#[test]
fn master_empty_field_must_be_zero() {
    let lines = vec![chars(
        "MASTER        0    5    0    0    0    0    0    0    0    0    0    0",
    )];
    let (_pdb, errors) = parse_lines(&lines).unwrap();
    assert_eq!(errors.len(), 1);
    assert_eq!(errors[0].level, ErrorLevel::LooseWarning);
    assert_eq!(errors[0].kind, ErrorKind::MasterEmptyNotZero { declared: 5 });
}

#[test]
fn master_counts_remarks_and_transforms() {
    let lines = vec![
        chars("REMARK   2 A"),
        chars("REMARK   3 B"),
        chars("SCALE1      0.020000  0.000000  0.000000        0.00000"),
        chars("SCALE2      0.000000  0.020000  0.000000        0.00000"),
        chars("SCALE3      0.000000  0.000000  0.020000        0.00000"),
        chars("MASTER        2    0    0    0    0    0    0    3    0    0    0    0"),
    ];
    let (_pdb, errors) = parse_lines(&lines).unwrap();
    assert!(errors.is_empty());
    // An incomplete scale matrix does not count.
    let lines = vec![
        chars("SCALE1      0.020000  0.000000  0.000000        0.00000"),
        chars("MASTER        0    0    0    0    0    0    0    3    0    0    0    0"),
    ];
    let (_pdb, errors) = parse_lines(&lines).unwrap();
    assert_eq!(errors.len(), 1);
    assert_eq!(errors[0].kind, ErrorKind::MasterXformMismatch { declared: 3, actual: 0 });
}

#[test]
fn invalid_characters_in_an_atom_are_fatal() {
    let mut s = String::from(ATOM_LINE);
    s.replace_range(12..16, "\u{1}N  ");
    let e = parse_lines(&vec![chars(&s)]).unwrap_err();
    assert_eq!(e.level, ErrorLevel::BreakingError);
    assert_eq!(e.kind, ErrorKind::InvalidCharacter);
}

#[test]
fn hetero_atoms_go_to_their_own_partition_through_the_parser() {
    let lines = vec![chars(ATOM_LINE), chars(ATOM_LINE_CHARGED), chars(HETATM_LINE)];
    let (pdb, errors) = parse_lines(&lines).unwrap();
    assert!(errors.is_empty());
    assert_eq!(pdb.model_count(), 1);
    let m = &pdb.models()[0];
    assert_eq!(m.atom_count(), 2);
    assert_eq!(m.total_atom_count(), 3);
    assert_eq!(m.hetero_chains().len(), 1);
    assert_eq!(pdb.total_atom_count(), 3);
}

#[test]
fn blank_and_terminator_lines_carry_no_structure() {
    let lines = vec![
        chars(""),
        chars(ATOM_LINE),
        chars("TER"),
        chars("END"),
    ];
    let (pdb, errors) = parse_lines(&lines).unwrap();
    assert!(errors.is_empty());
    assert_eq!(pdb.model_count(), 1);
    assert_eq!(pdb.models()[0].total_atom_count(), 1);
}

#[test]
fn non_fatal_decode_errors_accumulate_in_order() {
    let lines = vec![
        chars("FOOBAR junk"),
        chars(ATOM_LINE),
        chars("REMARK   7"),
    ];
    let (pdb, errors) = parse_lines(&lines).unwrap();
    assert_eq!(errors.len(), 2);
    assert_eq!(errors[0].kind, ErrorKind::UnrecognizedTag);
    assert_eq!(errors[1].kind, ErrorKind::RemarkTypeInvalid);
    assert_eq!(pdb.models()[0].total_atom_count(), 1);
}

#[test]
fn builder_step_can_be_fed_synthetic_records() {
    let mut st = BuildState::new();
    let ctx_line = chars("");
    let w = st
        .step(Record::ModelStart { serial_number: 4 }, 1, &ctx_line)
        .unwrap();
    assert!(w.is_none());
    assert_eq!(st.current.serial_number(), 4);
    let w = st.step(Record::Empty, 2, &ctx_line).unwrap();
    assert!(w.is_none());
    st.finish();
    assert_eq!(st.pdb.model_count(), 0);
}

#[test]
fn charge_round_trip_on_every_signed_digit() {
    for d in 0..=9u32 {
        for sign in ['+', '-'] {
            let digit = char::from_digit(d, 10).unwrap();
            let mut s = String::from(&ATOM_LINE[..78]);
            s.push(digit);
            s.push(sign);
            match decode_line(1, &chars(&s)).unwrap() {
                Record::Atom { charge, .. } => {
                    let expected = if sign == '-' { -(d as i64) } else { d as i64 };
                    assert_eq!(charge, expected);
                }
                other => panic!("expected an atom record, got {:?}", other),
            }
        }
    }
}

#[test]
fn anisou_integers_round_trip_through_the_fixed_point_scale() {
    // The six integers are the real factors times ten thousand; scaling
    // the stored value back up recovers each encoded integer exactly.
    let line =
        chars("ANISOU    1  N   MET A   1     1234   -200    300   4000     50      6          ");
    match decode_line(1, &line).unwrap() {
        Record::Anisou { factors, .. } => {
            let encoded = [1234i64, -200, 300, 4000, 50, 6];
            let stored =
                [factors.u11, factors.u12, factors.u13, factors.u21, factors.u22, factors.u23];
            assert_eq!(stored, encoded);
            for (s, e) in stored.iter().zip(encoded.iter()) {
                let value = Decimal { mantissa: *s, frac_digits: 4 };
                assert_eq!(value.mantissa, *e);
            }
        }
        other => panic!("expected an anisotropic record, got {:?}", other),
    }
}

#[test]
fn endmdl_between_models_keeps_both() {
    let lines = vec![
        chars("MODEL        1"),
        chars(ATOM_LINE),
        chars("ENDMDL"),
        chars("MODEL        2"),
        chars(ATOM_LINE_CHARGED),
        chars("ENDMDL"),
    ];
    let (pdb, errors) = parse_lines(&lines).unwrap();
    assert!(errors.is_empty());
    assert_eq!(pdb.model_count(), 2);
    assert_eq!(pdb.models()[0].serial_number(), 1);
    assert_eq!(pdb.models()[1].serial_number(), 2);
    assert_eq!(pdb.total_atom_count(), 2);
}

#[test]
fn set_anisou_by_serial_picks_the_most_recent_match() {
    let mut m = Model::new(0);
    m.add_atom(test_atom(5), 'A', 1, chars("MET"));
    m.add_atom(test_atom(5), 'A', 2, chars("GLY"));
    let t = AnisoTensor { u11: 1, u12: 2, u13: 3, u21: 4, u22: 5, u23: 6 };
    assert!(m.set_anisou_by_serial(5, t));
    // The second insertion is the most recent one.
    assert_eq!(m.atom(0).unwrap().anisotropic, None);
    assert_eq!(m.atom(1).unwrap().anisotropic, Some(t));
    assert!(!m.set_anisou_by_serial(77, t));
}

#[test]
fn remove_atoms_by_keeps_the_skeleton() {
    let mut m = Model::new(0);
    m.add_atom(test_atom(1), 'A', 1, chars("MET"));
    m.add_atom(test_atom(2), 'A', 1, chars("MET"));
    m.add_hetero_atom(test_atom(3), 'W', 9, chars("HOH"));
    m.remove_atoms_by(|a: &Atom| a.serial_number == 2);
    assert_eq!(m.chain_count(), 1);
    assert_eq!(m.residue_count(), 1);
    assert_eq!(m.atom_count(), 1);
    assert_eq!(m.total_atom_count(), 2);
    assert_eq!(m.atom(0).unwrap().serial_number, 1);
}

#[test]
fn remove_residues_by_keeps_the_chains() {
    let mut m = Model::new(0);
    m.add_atom(test_atom(1), 'A', 1, chars("MET"));
    m.add_atom(test_atom(2), 'A', 2, chars("GLY"));
    m.remove_residues_by(|r: &pdbtbx::chain::Residue| r.serial_number == 1);
    assert_eq!(m.chain_count(), 1);
    assert_eq!(m.residue_count(), 1);
    assert_eq!(m.residue(0).unwrap().serial_number, 2);
}

#[test]
fn remove_chains_by_filters_both_partitions() {
    let mut m = Model::new(0);
    m.add_atom(test_atom(1), 'A', 1, chars("MET"));
    m.add_atom(test_atom(2), 'B', 1, chars("GLY"));
    m.add_hetero_atom(test_atom(3), 'A', 9, chars("HOH"));
    m.remove_chains_by(|c: &pdbtbx::chain::Chain| c.id == 'A');
    assert_eq!(m.chain_count(), 1);
    assert_eq!(m.chains()[0].id, 'B');
    assert_eq!(m.hetero_chains().len(), 0);
}

#[test]
fn model_start_with_bad_serial_is_fatal() {
    let line = chars("MODEL   four");
    let e = decode_line(1, &line).unwrap_err();
    assert_eq!(e.level, ErrorLevel::BreakingError);
    assert_eq!(e.kind, ErrorKind::NotANumber);
}

#[test]
fn master_too_short_is_fatal() {
    let line = chars("MASTER      2");
    let e = decode_line(1, &line).unwrap_err();
    assert_eq!(e.level, ErrorLevel::BreakingError);
    assert_eq!(e.kind, ErrorKind::RecordTooShort);
}

#[test]
fn origx_rows_assemble_like_scale_rows() {
    let l1 = chars("ORIGX1      1.000000  0.000000  0.000000        0.00000");
    let l2 = chars("ORIGX2      0.000000  1.000000  0.000000        0.00000");
    let l3 = chars("ORIGX3      0.000000  0.000000  1.000000        0.00000");
    let (pdb, errors) = parse_lines(&vec![l1, l2, l3]).unwrap();
    assert!(errors.is_empty());
    let m = pdb.origx().unwrap();
    assert!(m.valid());
    assert_eq!(m.row0.unwrap().a, dec(1000000, 6));
}
