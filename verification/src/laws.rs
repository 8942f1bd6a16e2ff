//! Properties the library keeps, stated and proved over the same spec
//! functions its contracts use.

use vstd::prelude::*;

use crate::builder::{fresh_model, spec_step};
use crate::chain::{
    ChainV, chain_matches, chain_upsert, res_matches, residue_upsert, res_with_atom,
    chain_with_atom,
};
use crate::atom::AtomV;
use crate::diag::{ContextV, ErrorKind, ErrorLevel, PDBErrorV};
use crate::model::{ModelV, all_chains_of};
use crate::num::{digit_value, find_index, is_digit_char, lemma_find_index_spec};
use crate::pdb::{PDBV, pdb_total_atoms};
use crate::record::Record;
use crate::transform::{Row4, RowMatrix, matrix_valid, matrix_with_row};
use crate::validate::master_diags;

verus! {

/// The digit character whose numeric value is `d`.
pub open spec fn digit_char_of(d: int) -> char {
    if d == 0 {
        '0'
    } else if d == 1 {
        '1'
    } else if d == 2 {
        '2'
    } else if d == 3 {
        '3'
    } else if d == 4 {
        '4'
    } else if d == 5 {
        '5'
    } else if d == 6 {
        '6'
    } else if d == 7 {
        '7'
    } else if d == 8 {
        '8'
    } else {
        '9'
    }
}

/// The two characters that encode a formal charge: the digit of its
/// magnitude, then its sign.
pub open spec fn encode_charge(v: int) -> (char, char) {
    (
        digit_char_of(
            if v < 0 {
                -v
            } else {
                v
            },
        ),
        if v < 0 {
            '-'
        } else {
            '+'
        },
    )
}

/// A decoded formal charge survives re-encoding: the encoding of the value
/// is a well-formed charge field that decodes to the same value, and for a
/// field read from a line it reproduces the original digit character, and
/// the original sign character whenever the value is not zero (a zero
/// carries no sign of its own).
pub proof fn lemma_charge_round_trip(digit: char, sign: char)
    requires
        is_digit_char(digit),
        sign == '-' || sign == '+',
    ensures
        ({
            let v = if sign == '-' {
                -digit_value(digit)
            } else {
                digit_value(digit)
            };
            let (dc, sc) = encode_charge(v);
            &&& -9 <= v <= 9
            &&& is_digit_char(dc)
            &&& (sc == '-' || sc == '+')
            &&& (if sc == '-' {
                -digit_value(dc)
            } else {
                digit_value(dc)
            }) == v
            &&& dc == digit
            &&& (v != 0 ==> sc == sign)
        }),
{
    assert(0 <= digit_value(digit) <= 9);
    let m = digit_value(digit);
    assert(digit_char_of(m) as u32 == digit as u32);
    assert(digit_char_of(m) == digit);
}

/// Insertion order invariant: an upsert never reorders or rewrites what is
/// already there. Chain identifiers keep their positions, every residue
/// keeps its serial number and position, and every atom already inserted
/// stays at its position; at most one chain is appended at the end.
pub proof fn lemma_upsert_preserves_order(
    cs: Seq<ChainV>,
    id: char,
    rsn: int,
    rname: Seq<char>,
    a: AtomV,
)
    ensures
        ({
            let cs2 = chain_upsert(cs, id, rsn, rname, a);
            &&& cs.len() <= cs2.len() <= cs.len() + 1
            &&& forall|i: int| 0 <= i < cs.len() ==> (#[trigger] cs2[i]).id == cs[i].id
            &&& forall|i: int|
                0 <= i < cs.len() ==> (#[trigger] cs2[i]).residues.len() >= cs[i].residues.len()
            &&& forall|i: int, j: int|
                0 <= i < cs.len() && 0 <= j < cs[i].residues.len() ==> (#[trigger] cs2[i].residues[j]).serial_number
                    == cs[i].residues[j].serial_number
            &&& forall|i: int, j: int, k: int|
                0 <= i < cs.len() && 0 <= j < cs[i].residues.len() && 0 <= k
                    < cs[i].residues[j].atoms.len() ==> (#[trigger] cs2[i].residues[j].atoms[k])
                    == cs[i].residues[j].atoms[k]
        }),
{
    lemma_find_index_spec(cs, chain_matches(id));
    let f = find_index(cs, chain_matches(id));
    let cs2 = chain_upsert(cs, id, rsn, rname, a);
    if f >= 0 {
        let rs = cs[f].residues;
        lemma_find_index_spec(rs, res_matches(rsn));
        let g = find_index(rs, res_matches(rsn));
        let rs2 = residue_upsert(rs, rsn, rname, a);
        assert(cs2[f].residues == rs2);
        if g >= 0 {
            assert(rs2[g].serial_number == rs[g].serial_number);
            assert(forall|k: int|
                0 <= k < rs[g].atoms.len() ==> (#[trigger] rs2[g].atoms[k]) == rs[g].atoms[k]);
        }
    }
}

/// Idempotent upsert, first half: inserting two atoms with the same chain
/// identifier and residue serial number (same partition) creates no second
/// chain and no second residue: the second insertion changes no chain count
/// and no residue count.
pub proof fn lemma_upsert_idempotent(
    cs: Seq<ChainV>,
    id: char,
    rsn: int,
    rn1: Seq<char>,
    a1: AtomV,
    rn2: Seq<char>,
    a2: AtomV,
)
    ensures
        ({
            let one = chain_upsert(cs, id, rsn, rn1, a1);
            let two = chain_upsert(one, id, rsn, rn2, a2);
            &&& two.len() == one.len()
            &&& forall|i: int|
                0 <= i < one.len() ==> (#[trigger] two[i]).residues.len()
                    == one[i].residues.len()
        }),
{
    lemma_find_index_spec(cs, chain_matches(id));
    let f = find_index(cs, chain_matches(id));
    let one = chain_upsert(cs, id, rsn, rn1, a1);
    let f1 = if f < 0 {
        cs.len() as int
    } else {
        f
    };
    assert(one[f1].id == id);
    assert forall|k: int| 0 <= k < f1 implies !chain_matches(id)(one[k]) by {
        assert(one[k] == cs[k]);
    }
    crate::chain::lemma_find_index_is(one, chain_matches(id), f1);
    let rs1 = one[f1].residues;
    lemma_find_index_spec(rs1, res_matches(rsn));
    let g1 = find_index(rs1, res_matches(rsn));
    if f < 0 {
        assert(rs1 =~= seq![res_with_atom(rsn, rn1, a1)]);
        assert(rs1[0].serial_number == rsn);
        assert(g1 == 0);
    } else {
        let rs0 = cs[f].residues;
        lemma_find_index_spec(rs0, res_matches(rsn));
        let g0 = find_index(rs0, res_matches(rsn));
        let gx = if g0 < 0 {
            rs0.len() as int
        } else {
            g0
        };
        assert(rs1[gx].serial_number == rsn);
        assert forall|k: int| 0 <= k < gx implies !res_matches(rsn)(rs1[k]) by {
            assert(rs1[k] == rs0[k]);
        }
        crate::chain::lemma_find_index_is(rs1, res_matches(rsn), gx);
    }
    let two = chain_upsert(one, id, rsn, rn2, a2);
    assert(two.len() == one.len());
    let g = find_index(rs1, res_matches(rsn));
    assert(g >= 0);
    assert(two[f1].residues == rs1.update(
        g,
        crate::chain::ResidueV { atoms: rs1[g].atoms.push(a2), ..rs1[g] },
    ));
    assert forall|i: int| 0 <= i < one.len() implies (#[trigger] two[i]).residues.len()
        == one[i].residues.len() by {
        if i != f1 {
            assert(two[i] == one[i]);
        }
    }
}

/// Idempotent upsert, second half: inserting two atoms with the same chain
/// identifier but different residue serial numbers into a model without
/// that chain creates exactly one chain holding exactly two residues.
pub proof fn lemma_upsert_two_residues(
    cs: Seq<ChainV>,
    id: char,
    rsn1: int,
    rn1: Seq<char>,
    a1: AtomV,
    rsn2: int,
    rn2: Seq<char>,
    a2: AtomV,
)
    requires
        find_index(cs, chain_matches(id)) == -1,
        rsn1 != rsn2,
    ensures
        ({
            let one = chain_upsert(cs, id, rsn1, rn1, a1);
            let two = chain_upsert(one, id, rsn2, rn2, a2);
            &&& two.len() == cs.len() + 1
            &&& two[cs.len() as int].id == id
            &&& two[cs.len() as int].residues.len() == 2
            &&& two[cs.len() as int].residues[0].serial_number == rsn1
            &&& two[cs.len() as int].residues[1].serial_number == rsn2
        }),
{
    lemma_find_index_spec(cs, chain_matches(id));
    let one = chain_upsert(cs, id, rsn1, rn1, a1);
    let f1 = cs.len() as int;
    assert(one == cs.push(chain_with_atom(id, rsn1, rn1, a1)));
    assert(one[f1].id == id);
    assert forall|k: int| 0 <= k < f1 implies !chain_matches(id)(one[k]) by {
        assert(one[k] == cs[k]);
    }
    crate::chain::lemma_find_index_is(one, chain_matches(id), f1);
    let rs1 = one[f1].residues;
    assert(rs1 =~= seq![res_with_atom(rsn1, rn1, a1)]);
    assert(rs1[0].serial_number == rsn1);
    assert forall|k: int| 0 <= k < rs1.len() implies !res_matches(rsn2)(rs1[k]) by {}
    crate::chain::lemma_find_index_none(rs1, res_matches(rsn2));
    let two = chain_upsert(one, id, rsn2, rn2, a2);
    assert(two[f1].residues == rs1.push(res_with_atom(rsn2, rn2, a2)));
}

/// Checksum reconciliation: a declared checksum whose atom count differs
/// from the true total yields exactly one diagnostic about the atom count,
/// a strict warning standing last and naming the declared and the true
/// value; no other diagnostic of the validator speaks of the atom count.
pub proof fn lemma_checksum_reconciliation(p: PDBV)
    requires
        p.master is Some,
        p.master->0.num_coord != pdb_total_atoms(p.models),
        0 <= pdb_total_atoms(p.models) <= usize::MAX,
    ensures
        ({
            let d = master_diags(p);
            &&& d.len() >= 1
            &&& d.last() == (PDBErrorV {
                level: ErrorLevel::StrictWarning,
                kind: ErrorKind::MasterCoordMismatch {
                    declared: p.master->0.num_coord,
                    actual: pdb_total_atoms(p.models) as usize,
                },
                context: ContextV::Nowhere,
            })
            &&& forall|i: int|
                0 <= i < d.len() - 1 ==> !((#[trigger] d[i]).kind matches
                    ErrorKind::MasterCoordMismatch { .. })
        }),
{
    let d = master_diags(p);
    let n = p.master->0;
    assert(n.num_coord != pdb_total_atoms(p.models) as usize);
}

/// Empty-model guard: a model-start record immediately followed by another
/// model-start record, with no atom between, appends no model to the
/// structure; only the serial number of the fresh accumulator changes.
pub proof fn lemma_empty_model_guard(p: PDBV, m: ModelV, n1: usize, n2: usize)
    ensures
        ({
            let s1 = spec_step(p, m, Record::ModelStart { serial_number: n1 });
            let s2 = spec_step(s1.pdb, s1.current, Record::ModelStart { serial_number: n2 });
            &&& s2.pdb.models == s1.pdb.models
            &&& s2.pdb == s1.pdb
            &&& s2.current == fresh_model(n2 as int)
        }),
{
    let s1 = spec_step(p, m, Record::ModelStart { serial_number: n1 });
    assert(all_chains_of(s1.current) =~= Seq::<ChainV>::empty());
    assert(crate::chain::sum_chain_atoms(all_chains_of(s1.current)) == 0);
}

/// Multi-line matrix assembly: a matrix built row by row is invalid until
/// all three row records have been supplied, and immediately after the
/// third it is valid and holds exactly the submitted rows.
pub proof fn lemma_matrix_assembly(r0: Row4, r1: Row4, r2: Row4)
    ensures
        ({
            let m0 = RowMatrix {
                row0: Option::<Row4>::None,
                row1: Option::<Row4>::None,
                row2: Option::<Row4>::None,
            };
            let m1 = matrix_with_row(m0, 0, r0);
            let m2 = matrix_with_row(m1, 1, r1);
            let m3 = matrix_with_row(m2, 2, r2);
            &&& !matrix_valid(m0)
            &&& !matrix_valid(m1)
            &&& !matrix_valid(m2)
            &&& matrix_valid(m3)
            &&& m3.row0 == Some(r0)
            &&& m3.row1 == Some(r1)
            &&& m3.row2 == Some(r2)
        }),
{
}

} // verus!
