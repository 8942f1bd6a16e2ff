//! The structure builder: one forward pass that folds the decoded record
//! stream, in file order, into the structure being built and its current
//! model accumulator.
//!
//! The fold is explicit state threaded through [`BuildState::step`]: state
//! in, record in, state out, so the builder can be exercised on synthetic
//! record sequences without any input handling.

use vstd::prelude::*;

use crate::atom::{Atom, AtomV, atom_fields_valid, check_id_text, is_valid_id_char, valid_id_text};
use crate::chain::{chain_upsert, sum_chain_atoms};
use crate::diag::{Context, ErrorKind, ErrorLevel, PDBError, PDBErrorV};
use crate::model::{Model, ModelV, all_chains_of, spec_model_has_serial, spec_model_set_anisou};
use crate::pdb::{MasterNumbers, PDB, PDBV, RemarkV, Symmetry, SymmetryV, mtrix_upsert};
use crate::record::{Record, full_ctx};
use crate::tables::{spec_known_space_group, trim_trailing};
use crate::transform::{Row4, RowMatrix, UnitCell, matrix_with_row};

verus! {

/// The builder's state: the structure being built, and the current model
/// accumulator the atom records fall into.
pub struct BuildState {
    pub pdb: PDB,
    pub current: Model,
}

/// Mathematical value of a builder state.
pub struct StepV {
    pub pdb: PDBV,
    pub current: ModelV,
}

/// An empty model accumulator.
pub open spec fn fresh_model(serial: int) -> ModelV {
    ModelV {
        serial_number: serial,
        chains: Seq::<crate::chain::ChainV>::empty(),
        hetero_chains: Seq::<crate::chain::ChainV>::empty(),
    }
}

/// The matrix a row record falls into: the one already started, or a fresh
/// one.
pub open spec fn or_fresh(o: Option<RowMatrix>) -> RowMatrix {
    match o {
        Option::Some(x) => x,
        Option::None => RowMatrix {
            row0: Option::<Row4>::None,
            row1: Option::<Row4>::None,
            row2: Option::<Row4>::None,
        },
    }
}

/// Whether an atom record's text fields allow its atom and chain to be
/// built; any other record raises no such question.
pub open spec fn atom_record_valid(rec: Record) -> bool {
    rec matches Record::Atom {
        name,
        alt_loc,
        segment_id,
        element,
        chain_id,
        residue_name,
        ..
    } ==> atom_fields_valid(name@, alt_loc, segment_id@, element@) && is_valid_id_char(chain_id)
        && valid_id_text(residue_name@)
}

/// The record on which the builder aborts: an atom whose text fields cannot
/// be built.
pub open spec fn step_fatal(rec: Record) -> bool {
    !atom_record_valid(rec)
}

/// The non-fatal diagnostic one step emits, when it emits one.
pub open spec fn step_warning(m: ModelV, rec: Record, ln: int, line: Seq<char>) -> Option<
    PDBErrorV,
> {
    match rec {
        Record::Anisou { serial_number, .. } => if !spec_model_has_serial(
            m,
            serial_number as int,
        ) {
            Option::Some(
                PDBErrorV {
                    level: ErrorLevel::GeneralWarning,
                    kind: ErrorKind::AnisouUnmatched,
                    context: full_ctx(ln, line),
                },
            )
        } else {
            Option::None
        },
        Record::Crystal { space_group, .. } => if !spec_known_space_group(
            trim_trailing(space_group@),
        ) {
            Option::Some(
                PDBErrorV {
                    level: ErrorLevel::StrictWarning,
                    kind: ErrorKind::UnknownSpaceGroup,
                    context: full_ctx(ln, line),
                },
            )
        } else {
            Option::None
        },
        _ => Option::None,
    }
}

/// How one record changes the builder's state.
pub open spec fn spec_step(p: PDBV, m: ModelV, rec: Record) -> StepV {
    match rec {
        Record::Remark { number, text } => StepV {
            pdb: PDBV {
                remarks: p.remarks.push(RemarkV { number: number as int, text: text@ }),
                ..p
            },
            current: m,
        },
        Record::Atom {
            hetero,
            serial_number,
            name,
            alt_loc,
            residue_name,
            chain_id,
            residue_serial_number,
            insertion: _,
            x,
            y,
            z,
            occupancy,
            b_factor,
            segment_id,
            element,
            charge,
        } => {
            let av = AtomV {
                serial_number: serial_number as int,
                name: name@,
                alt_loc,
                x,
                y,
                z,
                occupancy,
                b_factor,
                segment_id: segment_id@,
                element: element@,
                charge: charge as int,
                anisotropic: Option::None,
            };
            if hetero {
                StepV {
                    pdb: p,
                    current: ModelV {
                        hetero_chains: chain_upsert(
                            m.hetero_chains,
                            chain_id,
                            residue_serial_number as int,
                            residue_name@,
                            av,
                        ),
                        ..m
                    },
                }
            } else {
                StepV {
                    pdb: p,
                    current: ModelV {
                        chains: chain_upsert(
                            m.chains,
                            chain_id,
                            residue_serial_number as int,
                            residue_name@,
                            av,
                        ),
                        ..m
                    },
                }
            }
        },
        Record::Anisou { serial_number, name: _, factors } => StepV {
            pdb: p,
            current: spec_model_set_anisou(m, serial_number as int, factors),
        },
        Record::ModelStart { serial_number } => {
            if sum_chain_atoms(all_chains_of(m)) > 0 {
                StepV {
                    pdb: PDBV { models: p.models.push(m), ..p },
                    current: fresh_model(serial_number as int),
                }
            } else {
                StepV { pdb: p, current: fresh_model(serial_number as int) }
            }
        },
        Record::Crystal { a, b, c, alpha, beta, gamma, space_group, z: _ } => {
            let cell = UnitCell { a, b, c, alpha, beta, gamma };
            let sym = if spec_known_space_group(trim_trailing(space_group@)) {
                Option::Some(SymmetryV { name: trim_trailing(space_group@) })
            } else {
                p.symmetry
            };
            StepV {
                pdb: PDBV { unit_cell: Option::Some(cell), symmetry: sym, ..p },
                current: m,
            }
        },
        Record::Scale { row, values } => StepV {
            pdb: PDBV {
                scale: Option::Some(matrix_with_row(or_fresh(p.scale), row as int, values)),
                ..p
            },
            current: m,
        },
        Record::OrigX { row, values } => StepV {
            pdb: PDBV {
                origx: Option::Some(matrix_with_row(or_fresh(p.origx), row as int, values)),
                ..p
            },
            current: m,
        },
        Record::Mtrix { row, serial_number, values, given } => StepV {
            pdb: PDBV {
                mtrix: mtrix_upsert(p.mtrix, serial_number as int, row as int, values, given),
                ..p
            },
            current: m,
        },
        Record::Master { numbers } => {
            if sum_chain_atoms(all_chains_of(m)) > 0 {
                StepV {
                    pdb: PDBV {
                        models: p.models.push(m),
                        master: Option::Some(numbers),
                        ..p
                    },
                    current: fresh_model(0),
                }
            } else {
                StepV { pdb: PDBV { master: Option::Some(numbers), ..p }, current: m }
            }
        },
        Record::EndModel => StepV { pdb: p, current: m },
        Record::Ter => StepV { pdb: p, current: m },
        Record::End => StepV { pdb: p, current: m },
        Record::Empty => StepV { pdb: p, current: m },
    }
}

/// How the stream's end finalizes the state: a non-empty accumulator is
/// appended, exactly once.
pub open spec fn spec_finish(p: PDBV, m: ModelV) -> PDBV {
    if sum_chain_atoms(all_chains_of(m)) > 0 {
        PDBV { models: p.models.push(m), ..p }
    } else {
        p
    }
}

/// The atoms a builder state holds, finished models and accumulator
/// together.
pub open spec fn state_atoms(s: StepV) -> int {
    crate::pdb::pdb_total_atoms(s.pdb.models) + sum_chain_atoms(all_chains_of(s.current))
}

/// One step adds at most one atom, and at most one matrix.
pub proof fn lemma_spec_step_growth(p: PDBV, m: ModelV, rec: Record)
    ensures
        state_atoms(spec_step(p, m, rec)) <= state_atoms(StepV { pdb: p, current: m }) + 1,
        spec_step(p, m, rec).pdb.mtrix.len() <= p.mtrix.len() + 1,
{
    let s2 = spec_step(p, m, rec);
    crate::chain::lemma_sum_chain_atoms_nonneg(m.chains);
    crate::chain::lemma_sum_chain_atoms_nonneg(m.hetero_chains);
    crate::chain::lemma_sum_chain_atoms_nonneg(all_chains_of(m));
    match rec {
        Record::Atom {
            hetero,
            serial_number,
            name,
            alt_loc,
            residue_name,
            chain_id,
            residue_serial_number,
            insertion: _,
            x,
            y,
            z,
            occupancy,
            b_factor,
            segment_id,
            element,
            charge,
        } => {
            let av = AtomV {
                serial_number: serial_number as int,
                name: name@,
                alt_loc,
                x,
                y,
                z,
                occupancy,
                b_factor,
                segment_id: segment_id@,
                element: element@,
                charge: charge as int,
                anisotropic: Option::None,
            };
            crate::model::lemma_sum_split_atoms(m.chains, m.hetero_chains);
            if hetero {
                crate::chain::lemma_chain_upsert_atoms(
                    m.hetero_chains,
                    chain_id,
                    residue_serial_number as int,
                    residue_name@,
                    av,
                );
                crate::model::lemma_sum_split_atoms(
                    m.chains,
                    chain_upsert(
                        m.hetero_chains,
                        chain_id,
                        residue_serial_number as int,
                        residue_name@,
                        av,
                    ),
                );
                assert(s2.current.chains == m.chains);
                assert(s2.current.hetero_chains == chain_upsert(
                    m.hetero_chains,
                    chain_id,
                    residue_serial_number as int,
                    residue_name@,
                    av,
                ));
                assert(sum_chain_atoms(all_chains_of(s2.current)) == sum_chain_atoms(
                    all_chains_of(m),
                ) + 1);
            } else {
                crate::chain::lemma_chain_upsert_atoms(
                    m.chains,
                    chain_id,
                    residue_serial_number as int,
                    residue_name@,
                    av,
                );
                crate::model::lemma_sum_split_atoms(
                    chain_upsert(
                        m.chains,
                        chain_id,
                        residue_serial_number as int,
                        residue_name@,
                        av,
                    ),
                    m.hetero_chains,
                );
                assert(s2.current.hetero_chains == m.hetero_chains);
                assert(s2.current.chains == chain_upsert(
                    m.chains,
                    chain_id,
                    residue_serial_number as int,
                    residue_name@,
                    av,
                ));
                assert(sum_chain_atoms(all_chains_of(s2.current)) == sum_chain_atoms(
                    all_chains_of(m),
                ) + 1);
            }
            assert(state_atoms(s2) <= state_atoms(StepV { pdb: p, current: m }) + 1);
        },
        Record::Anisou { serial_number, name: _, factors } => {
            let m2 = spec_model_set_anisou(m, serial_number as int, factors);
            crate::model::lemma_sum_split_atoms(m.chains, m.hetero_chains);
            crate::model::lemma_sum_split_atoms(m2.chains, m2.hetero_chains);
            crate::chain::lemma_chains_set_anisou_atoms(
                m.hetero_chains,
                serial_number as int,
                factors,
            );
            crate::chain::lemma_chains_set_anisou_atoms(m.chains, serial_number as int, factors);
        },
        Record::ModelStart { serial_number } => {
            if sum_chain_atoms(all_chains_of(m)) > 0 {
                assert(p.models.push(m).drop_last() =~= p.models);
                assert(p.models.push(m).last() == m);
            }
            assert(all_chains_of(fresh_model(serial_number as int)) =~= Seq::<
                crate::chain::ChainV,
            >::empty());
        },
        Record::Master { numbers } => {
            if sum_chain_atoms(all_chains_of(m)) > 0 {
                assert(p.models.push(m).drop_last() =~= p.models);
                assert(p.models.push(m).last() == m);
            }
            assert(all_chains_of(fresh_model(0)) =~= Seq::<crate::chain::ChainV>::empty());
        },
        Record::Mtrix { row, serial_number, values, given } => {
            crate::num::lemma_find_index_spec(
                p.mtrix,
                crate::pdb::mtrix_matches(serial_number as int),
            );
        },
        _ => {},
    }
}

impl BuildState {
    /// The state a parse starts from: an empty structure and an empty
    /// current model with serial number zero.
    pub fn new() -> (r: BuildState)
        ensures
            r.pdb@ == (PDBV {
                remarks: Seq::<RemarkV>::empty(),
                unit_cell: Option::None,
                symmetry: Option::None,
                scale: Option::None,
                origx: Option::None,
                mtrix: Seq::<crate::transform::MtriX>::empty(),
                models: Seq::<ModelV>::empty(),
                master: Option::None,
            }),
            r.current@ == fresh_model(0),
    {
        let r = BuildState { pdb: PDB::new(), current: Model::new(0) };
        proof {
            assert(r.pdb@.remarks =~= Seq::<RemarkV>::empty());
            assert(r.pdb@.mtrix =~= Seq::<crate::transform::MtriX>::empty());
            assert(r.pdb@.models =~= Seq::<ModelV>::empty());
        }
        r
    }

    /// Folds one record into the state. A fatal condition (an atom whose
    /// text fields cannot be built) leaves the state unchanged and yields
    /// the breaking diagnostic; otherwise the state advances as
    /// [`spec_step`] says, possibly beside one non-fatal diagnostic.
    pub fn step(&mut self, rec: Record, linenumber: usize, line: &Vec<char>) -> (r: Result<
        Option<PDBError>,
        PDBError,
    >)
        ensures
            r is Ok <==> !step_fatal(rec),
            r is Err ==> *final(self) == *old(self) && r->Err_0@ == (PDBErrorV {
                level: ErrorLevel::BreakingError,
                kind: ErrorKind::InvalidCharacter,
                context: full_ctx(linenumber as int, line@),
            }),
            r is Ok ==> (StepV { pdb: final(self).pdb@, current: final(self).current@ })
                == spec_step(old(self).pdb@, old(self).current@, rec),
            r is Ok ==> (match step_warning(
                old(self).current@,
                rec,
                linenumber as int,
                line@,
            ) {
                Option::Some(w) => r->Ok_0 is Some && r->Ok_0->0@ == w,
                Option::None => r->Ok_0 is None,
            }),
    {
        match rec {
            Record::Remark { number, text } => {
                self.pdb.add_remark(number, text);
                Ok(None)
            },
            Record::Atom {
                hetero,
                serial_number,
                name,
                alt_loc,
                residue_name,
                chain_id,
                residue_serial_number,
                insertion: _,
                x,
                y,
                z,
                occupancy,
                b_factor,
                segment_id,
                element,
                charge,
            } => {
                let built = Atom::new(
                    serial_number,
                    name,
                    alt_loc,
                    x,
                    y,
                    z,
                    occupancy,
                    b_factor,
                    segment_id,
                    element,
                    charge,
                );
                match built {
                    Some(atom) => {
                        if !(chain_id >= ' ' && chain_id <= '~') || !check_id_text(
                            &residue_name,
                        ) {
                            return Err(
                                PDBError::new(
                                    ErrorLevel::BreakingError,
                                    ErrorKind::InvalidCharacter,
                                    Context::full_line(linenumber, line),
                                ),
                            );
                        }
                        if hetero {
                            self.current.add_hetero_atom(
                                atom,
                                chain_id,
                                residue_serial_number,
                                residue_name,
                            );
                        } else {
                            self.current.add_atom(
                                atom,
                                chain_id,
                                residue_serial_number,
                                residue_name,
                            );
                        }
                        Ok(None)
                    },
                    None => Err(
                        PDBError::new(
                            ErrorLevel::BreakingError,
                            ErrorKind::InvalidCharacter,
                            Context::full_line(linenumber, line),
                        ),
                    ),
                }
            },
            Record::Anisou { serial_number, name: _, factors } => {
                let found = self.current.set_anisou_by_serial(serial_number, factors);
                if found {
                    Ok(None)
                } else {
                    Ok(
                        Some(
                            PDBError::new(
                                ErrorLevel::GeneralWarning,
                                ErrorKind::AnisouUnmatched,
                                Context::full_line(linenumber, line),
                            ),
                        ),
                    )
                }
            },
            Record::ModelStart { serial_number } => {
                if self.current.has_atoms() {
                    let mut tmp = Model::new(serial_number);
                    core::mem::swap(&mut self.current, &mut tmp);
                    self.pdb.add_model(tmp);
                } else {
                    self.current = Model::new(serial_number);
                }
                Ok(None)
            },
            Record::Crystal { a, b, c, alpha, beta, gamma, space_group, z: _ } => {
                self.pdb.set_unit_cell(UnitCell::new(a, b, c, alpha, beta, gamma));
                match Symmetry::new(&space_group) {
                    Some(sym) => {
                        self.pdb.set_symmetry(sym);
                        Ok(None)
                    },
                    None => Ok(
                        Some(
                            PDBError::new(
                                ErrorLevel::StrictWarning,
                                ErrorKind::UnknownSpaceGroup,
                                Context::full_line(linenumber, line),
                            ),
                        ),
                    ),
                }
            },
            Record::Scale { row, values } => {
                self.pdb.set_scale_row(row, values);
                Ok(None)
            },
            Record::OrigX { row, values } => {
                self.pdb.set_origx_row(row, values);
                Ok(None)
            },
            Record::Mtrix { row, serial_number, values, given } => {
                self.pdb.set_mtrix_row(serial_number, row, values, given);
                Ok(None)
            },
            Record::Master { numbers } => {
                if self.current.has_atoms() {
                    let mut tmp = Model::new(0);
                    core::mem::swap(&mut self.current, &mut tmp);
                    self.pdb.add_model(tmp);
                }
                self.pdb.set_master(numbers);
                Ok(None)
            },
            Record::EndModel => Ok(None),
            Record::Ter => Ok(None),
            Record::End => Ok(None),
            Record::Empty => Ok(None),
        }
    }

    /// Finalizes the state at stream end: a non-empty current accumulator
    /// is appended to the structure, exactly once.
    pub fn finish(&mut self)
        ensures
            final(self).pdb@ == spec_finish(old(self).pdb@, old(self).current@),
    {
        if self.current.has_atoms() {
            let mut tmp = Model::new(0);
            core::mem::swap(&mut self.current, &mut tmp);
            self.pdb.add_model(tmp);
        }
    }
}

} // verus!
