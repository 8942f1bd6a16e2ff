//! The validator: a single post-pass that recomputes derived counts from the
//! finished structure and compares them against the declared checksum
//! record, when one was present. Every diagnostic it emits is non-fatal.

use vstd::prelude::*;

use crate::diag::{Context, ContextV, ErrorKind, ErrorLevel, PDBError, PDBErrorV};
use crate::pdb::{
    PDB, PDBV, count_valid_mtrix, lemma_count_valid_mtrix_bounds, lemma_pdb_total_atoms_ge_elem,
    pdb_total_atoms, pdb_xform_count,
};
use crate::transform::matrix_valid;

verus! {

/// The diagnostics checksum reconciliation yields, in order: remark count,
/// the always-empty field, transform tally, atom count. Each mismatch names
/// the declared and the recomputed value; no record declared means no
/// diagnostics.
pub open spec fn master_diags(p: PDBV) -> Seq<PDBErrorV> {
    match p.master {
        Option::None => Seq::<PDBErrorV>::empty(),
        Option::Some(n) => (if n.num_remark != p.remarks.len() {
            seq![
                PDBErrorV {
                    level: ErrorLevel::StrictWarning,
                    kind: ErrorKind::MasterRemarkMismatch {
                        declared: n.num_remark,
                        actual: p.remarks.len() as usize,
                    },
                    context: ContextV::Nowhere,
                },
            ]
        } else {
            Seq::<PDBErrorV>::empty()
        }) + (if n.num_empty != 0 {
            seq![
                PDBErrorV {
                    level: ErrorLevel::LooseWarning,
                    kind: ErrorKind::MasterEmptyNotZero { declared: n.num_empty },
                    context: ContextV::Nowhere,
                },
            ]
        } else {
            Seq::<PDBErrorV>::empty()
        }) + (if n.num_xform != pdb_xform_count(p) {
            seq![
                PDBErrorV {
                    level: ErrorLevel::StrictWarning,
                    kind: ErrorKind::MasterXformMismatch {
                        declared: n.num_xform,
                        actual: pdb_xform_count(p) as usize,
                    },
                    context: ContextV::Nowhere,
                },
            ]
        } else {
            Seq::<PDBErrorV>::empty()
        }) + (if n.num_coord != pdb_total_atoms(p.models) {
            seq![
                PDBErrorV {
                    level: ErrorLevel::StrictWarning,
                    kind: ErrorKind::MasterCoordMismatch {
                        declared: n.num_coord,
                        actual: pdb_total_atoms(p.models) as usize,
                    },
                    context: ContextV::Nowhere,
                },
            ]
        } else {
            Seq::<PDBErrorV>::empty()
        }),
    }
}

/// The transform tally of the finished structure, as a machine word.
fn xform_count(pdb: &PDB) -> (r: usize)
    requires
        pdb_xform_count(pdb@) <= usize::MAX,
    ensures
        r == pdb_xform_count(pdb@),
{
    proof {
        lemma_count_valid_mtrix_bounds(pdb@.mtrix);
    }
    let mut xf: usize = 0;
    match pdb.origx() {
        Some(m) => {
            if m.valid() {
                xf = 3;
            }
        },
        None => {},
    }
    match pdb.scale() {
        Some(m) => {
            if m.valid() {
                xf = xf + 3;
            }
        },
        None => {},
    }
    let ghost base = xf as int;
    let ms = pdb.mtrix();
    let n = ms.len();
    let mut i: usize = 0;
    while i < n
        invariant
            0 <= i <= n,
            n == ms@.len(),
            ms@ == pdb@.mtrix,
            base + 3 * count_valid_mtrix(pdb@.mtrix) <= usize::MAX,
            xf == base + 3 * count_valid_mtrix(pdb@.mtrix.subrange(0, i as int)),
        decreases n - i,
    {
        proof {
            assert(pdb@.mtrix.subrange(0, i + 1).drop_last() =~= pdb@.mtrix.subrange(
                0,
                i as int,
            ));
            assert(pdb@.mtrix.subrange(0, i + 1).last() == pdb@.mtrix[i as int]);
            lemma_count_valid_mtrix_bounds(pdb@.mtrix.subrange(0, i as int));
            lemma_count_valid_mtrix_prefix(pdb@.mtrix, i + 1);
        }
        let m = ms[i];
        if m.valid() {
            xf = xf + 3;
        }
        i = i + 1;
    }
    proof {
        assert(pdb@.mtrix.subrange(0, n as int) =~= pdb@.mtrix);
    }
    xf
}

/// A prefix of the matrix list never counts more valid matrices than the
/// whole.
proof fn lemma_count_valid_mtrix_prefix(ms: Seq<crate::transform::MtriX>, i: int)
    requires
        0 <= i <= ms.len(),
    ensures
        count_valid_mtrix(ms.subrange(0, i)) <= count_valid_mtrix(ms),
    decreases ms.len() - i,
{
    if i < ms.len() {
        lemma_count_valid_mtrix_prefix(ms, i + 1);
        assert(ms.subrange(0, i + 1).drop_last() =~= ms.subrange(0, i));
    } else {
        assert(ms.subrange(0, i) =~= ms);
    }
}

/// Reconciles the finished structure against its declared checksum record:
/// the result is exactly [`master_diags`] of the structure.
pub fn validate(pdb: &PDB) -> (r: Vec<PDBError>)
    requires
        pdb_total_atoms(pdb@.models) <= usize::MAX,
        pdb_xform_count(pdb@) <= usize::MAX,
    ensures
        r@.map_values(|e: PDBError| e@) == master_diags(pdb@),
{
    let mut r: Vec<PDBError> = Vec::new();
    let numbers = match pdb.master() {
        Some(n) => n,
        None => {
            proof {
                assert(r@.map_values(|e: PDBError| e@) =~= master_diags(pdb@));
            }
            return r;
        },
    };
    let remark_actual = pdb.remark_count();
    if numbers.num_remark != remark_actual {
        r.push(
            PDBError::new(
                ErrorLevel::StrictWarning,
                ErrorKind::MasterRemarkMismatch {
                    declared: numbers.num_remark,
                    actual: remark_actual,
                },
                Context::Nowhere,
            ),
        );
    }
    if numbers.num_empty != 0 {
        r.push(
            PDBError::new(
                ErrorLevel::LooseWarning,
                ErrorKind::MasterEmptyNotZero { declared: numbers.num_empty },
                Context::Nowhere,
            ),
        );
    }
    let xform_actual = xform_count(pdb);
    if numbers.num_xform != xform_actual {
        r.push(
            PDBError::new(
                ErrorLevel::StrictWarning,
                ErrorKind::MasterXformMismatch {
                    declared: numbers.num_xform,
                    actual: xform_actual,
                },
                Context::Nowhere,
            ),
        );
    }
    proof {
        assert forall|i: int| 0 <= i < pdb@.models.len() implies crate::chain::sum_chain_atoms(
            crate::model::all_chains_of(#[trigger] pdb@.models[i]),
        ) <= usize::MAX by {
            lemma_pdb_total_atoms_ge_elem(pdb@.models, i);
            crate::pdb::lemma_pdb_total_atoms_nonneg(pdb@.models);
        }
    }
    let coord_actual = pdb.total_atom_count();
    if numbers.num_coord != coord_actual {
        r.push(
            PDBError::new(
                ErrorLevel::StrictWarning,
                ErrorKind::MasterCoordMismatch {
                    declared: numbers.num_coord,
                    actual: coord_actual,
                },
                Context::Nowhere,
            ),
        );
    }
    proof {
        assert(r@.map_values(|e: PDBError| e@) =~= master_diags(pdb@));
    }
    r
}

} // verus!
