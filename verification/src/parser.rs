//! The top-level driver: a strict left-to-right fold over the input's
//! lines. Each line is decoded, the result is folded into the builder's
//! state, and after the stream ends the validator runs over the finished
//! structure. Decoding and validation diagnostics are merged, in encounter
//! order, with validation last.
//!
//! A single breaking condition aborts the parse at once, discarding the
//! partially built structure and returning only that diagnostic; every
//! other diagnostic is accumulated and returned beside the structure.

use vstd::prelude::*;

use crate::builder::{BuildState, StepV, lemma_spec_step_growth, spec_finish, spec_step,
    state_atoms, step_fatal, step_warning};
use crate::chain::sum_chain_atoms;
use crate::diag::{ErrorKind, ErrorLevel, PDBError, PDBErrorV};
use crate::model::all_chains_of;
use crate::pdb::{PDB, lemma_count_valid_mtrix_bounds, pdb_total_atoms, pdb_xform_count};
use crate::record::{Record, decode_line, decode_line_post, full_ctx};
use crate::validate::{master_diags, validate};

verus! {

/// Every diagnostic the validator can yield is non-fatal.
pub proof fn lemma_master_diags_nonfatal(p: crate::pdb::PDBV)
    ensures
        forall|k: int| 0 <= k < master_diags(p).len() ==> (#[trigger] master_diags(p)[k]).level
            != ErrorLevel::BreakingError,
{
    let d = master_diags(p);
    assert forall|k: int| 0 <= k < d.len() implies (#[trigger] d[k]).level
        != ErrorLevel::BreakingError by {
        match p.master {
            Option::None => {},
            Option::Some(n) => {},
        }
    }
}

/// The state a parse starts from: an empty structure and an empty current
/// model with serial number zero.
pub open spec fn initial_state() -> StepV {
    StepV {
        pdb: crate::pdb::PDBV {
            remarks: Seq::<crate::pdb::RemarkV>::empty(),
            unit_cell: Option::None,
            symmetry: Option::None,
            scale: Option::None,
            origx: Option::None,
            mtrix: Seq::<crate::transform::MtriX>::empty(),
            models: Seq::<crate::model::ModelV>::empty(),
            master: Option::None,
        },
        current: crate::builder::fresh_model(0),
    }
}

/// How one line advances the builder's state: when its decode yields a
/// record, the state steps by it; when it yields a non-fatal diagnostic,
/// the state is unchanged.
pub open spec fn line_advances(ln: int, line: Seq<char>, s: StepV, s2: StepV) -> bool {
    exists|r: Result<Record, PDBError>|
        #[trigger] decode_line_post(ln, line, r) && (match r {
            Result::Ok(rec) => !step_fatal(rec) && s2 == spec_step(s.pdb, s.current, rec),
            Result::Err(e) => e@.level != ErrorLevel::BreakingError && s2 == s,
        })
}

/// How one line advances the builder's state and what it contributes to
/// the accumulated diagnostics: a decoded record steps the state and may
/// emit the builder's warning; a non-fatal decode diagnostic leaves the
/// state unchanged and is itself accumulated.
pub open spec fn line_outcome(
    ln: int,
    line: Seq<char>,
    s: StepV,
    s2: StepV,
    d: Option<PDBErrorV>,
) -> bool {
    exists|r: Result<Record, PDBError>|
        #[trigger] decode_line_post(ln, line, r) && (match r {
            Result::Ok(rec) => {
                &&& !step_fatal(rec)
                &&& s2 == spec_step(s.pdb, s.current, rec)
                &&& d == step_warning(s.current, rec, ln, line)
            },
            Result::Err(e) => {
                &&& e@.level != ErrorLevel::BreakingError
                &&& s2 == s
                &&& d == Option::Some(e@)
            },
        })
}

/// A line on which the parse must abort, with exactly the diagnostic `e`:
/// either the line decodes to a breaking diagnostic, or it decodes to an
/// atom record whose text fields cannot be built.
pub open spec fn line_fatal(ln: int, line: Seq<char>, e: PDBErrorV) -> bool {
    exists|r: Result<Record, PDBError>|
        #[trigger] decode_line_post(ln, line, r) && (match r {
            Result::Ok(rec) => step_fatal(rec) && e == (PDBErrorV {
                level: ErrorLevel::BreakingError,
                kind: ErrorKind::InvalidCharacter,
                context: full_ctx(ln, line),
            }),
            Result::Err(er) => er@.level == ErrorLevel::BreakingError && e == er@,
        })
}

/// The diagnostics the lines contribute, in line order: each line's
/// optional diagnostic, flattened.
pub open spec fn collect_diags(ds: Seq<Option<PDBErrorV>>) -> Seq<PDBErrorV>
    decreases ds.len(),
{
    if ds.len() == 0 {
        Seq::empty()
    } else {
        collect_diags(ds.drop_last()) + (match ds.last() {
            Option::Some(e) => seq![e],
            Option::None => Seq::<PDBErrorV>::empty(),
        })
    }
}

/// Parses the lines of one file, 1-based line numbers in order, into a
/// structure and its diagnostics.
///
/// A breaking diagnostic — an unusable line or field, or an atom whose
/// text fields cannot be built — aborts the whole parse: the first such
/// diagnostic is returned alone and the partial structure is discarded.
/// Otherwise the structure is exactly the fold of the decoded records, and
/// beside it stand all non-fatal diagnostics, in encounter order, with the
/// validator's checksum findings at the end.
pub fn parse_lines(lines: &Vec<Vec<char>>) -> (r: Result<(PDB, Vec<PDBError>), PDBError>)
    requires
        lines@.len() * 3 + 6 <= usize::MAX,
    ensures
        r is Err ==> r->Err_0@.level == ErrorLevel::BreakingError,
        // An abort returns the first breaking diagnostic: some line is
        // fatal, every line before it advanced the state, and the returned
        // error is exactly that line's diagnostic.
        r is Err ==> (exists|i: int, sts: Seq<StepV>|
            0 <= i < lines@.len() && sts.len() == i + 1 && sts[0] == initial_state() && (
            forall|k: int|
                0 <= k < i ==> line_advances(k + 1, lines@[k]@, sts[k], #[trigger] sts[k + 1]))
                && line_fatal(i + 1, lines@[i]@, r->Err_0@)),
        r is Ok ==> (forall|k: int|
            0 <= k < r->Ok_0.1@.len() ==> (#[trigger] r->Ok_0.1@[k])@.level
                != ErrorLevel::BreakingError),
        // A successful parse is exactly the fold: every line advances the
        // state, the structure is the finalized last state, and the
        // diagnostics are each line's contribution, in line order, followed
        // by the validator's findings.
        r is Ok ==> (exists|sts: Seq<StepV>, ds: Seq<Option<PDBErrorV>>|
            sts.len() == lines@.len() + 1 && ds.len() == lines@.len() && sts[0]
                == initial_state() && r->Ok_0.0@ == spec_finish(
                sts[lines@.len() as int].pdb,
                sts[lines@.len() as int].current,
            ) && (forall|i: int|
                0 <= i < lines@.len() ==> line_outcome(
                    i + 1,
                    lines@[i]@,
                    sts[i],
                    #[trigger] sts[i + 1],
                    ds[i],
                )) && r->Ok_0.1@.map_values(|e: PDBError| e@) == collect_diags(ds)
                + master_diags(r->Ok_0.0@)),
{
    let mut st = BuildState::new();
    let mut errors: Vec<PDBError> = Vec::new();
    let mut sts: Ghost<Seq<StepV>> = Ghost(Seq::empty().push(initial_state()));
    let mut ds: Ghost<Seq<Option<PDBErrorV>>> = Ghost(Seq::empty());
    proof {
        assert(st.pdb@ == initial_state().pdb);
        assert(st.current@ == initial_state().current);
        assert(errors@.map_values(|e: PDBError| e@) =~= collect_diags(ds@));
    }
    let n = lines.len();
    let mut i: usize = 0;
    while i < n
        invariant
            0 <= i <= n,
            n == lines@.len(),
            lines@.len() * 3 + 6 <= usize::MAX,
            state_atoms(StepV { pdb: st.pdb@, current: st.current@ }) <= i,
            st.pdb@.mtrix.len() <= i,
            sts@.len() == i + 1,
            ds@.len() == i,
            sts@[0] == initial_state(),
            sts@[i as int] == (StepV { pdb: st.pdb@, current: st.current@ }),
            forall|k: int|
                0 <= k < i ==> line_advances(k + 1, lines@[k]@, sts@[k], #[trigger] sts@[k + 1]),
            forall|k: int|
                0 <= k < i ==> line_outcome(
                    k + 1,
                    lines@[k]@,
                    sts@[k],
                    #[trigger] sts@[k + 1],
                    ds@[k],
                ),
            errors@.map_values(|e: PDBError| e@) == collect_diags(ds@),
            forall|k: int|
                0 <= k < errors@.len() ==> (#[trigger] errors@[k])@.level
                    != ErrorLevel::BreakingError,
        decreases n - i,
    {
        let linenumber = i + 1;
        match decode_line(linenumber, &lines[i]) {
            Ok(rec) => {
                let ghost recg = rec;
                let ghost p0 = st.pdb@;
                let ghost m0 = st.current@;
                match st.step(rec, linenumber, &lines[i]) {
                    Ok(warn) => {
                        let ghost d = step_warning(
                            m0,
                            recg,
                            linenumber as int,
                            lines@[i as int]@,
                        );
                        proof {
                            lemma_spec_step_growth(p0, m0, recg);
                            let s2 = StepV { pdb: st.pdb@, current: st.current@ };
                            assert(decode_line_post(
                                i + 1,
                                lines@[i as int]@,
                                Result::<Record, PDBError>::Ok(recg),
                            ));
                            assert(line_advances(
                                i + 1,
                                lines@[i as int]@,
                                sts@[i as int],
                                s2,
                            ));
                            assert(line_outcome(
                                i + 1,
                                lines@[i as int]@,
                                sts@[i as int],
                                s2,
                                d,
                            ));
                            assert(ds@.push(d).drop_last() =~= ds@);
                            assert(ds@.push(d).last() == d);
                            sts@ = sts@.push(s2);
                            ds@ = ds@.push(d);
                        }
                        match warn {
                            Some(w) => {
                                proof {
                                    assert(w@.level != ErrorLevel::BreakingError);
                                    assert(d == Option::Some(w@));
                                }
                                errors.push(w);
                                proof {
                                    assert(errors@.map_values(|e: PDBError| e@)
                                        =~= collect_diags(ds@));
                                }
                            },
                            None => {
                                proof {
                                    assert(d is None);
                                    assert(errors@.map_values(|e: PDBError| e@)
                                        =~= collect_diags(ds@));
                                }
                            },
                        }
                    },
                    Err(e) => {
                        proof {
                            assert(decode_line_post(
                                i + 1,
                                lines@[i as int]@,
                                Result::<Record, PDBError>::Ok(recg),
                            ));
                            assert(step_fatal(recg));
                            assert(line_fatal(i + 1, lines@[i as int]@, e@));
                        }
                        return Err(e);
                    },
                }
            },
            Err(e) => {
                if e.level.is_breaking() {
                    proof {
                        assert(decode_line_post(
                            i + 1,
                            lines@[i as int]@,
                            Result::<Record, PDBError>::Err(e),
                        ));
                        assert(line_fatal(i + 1, lines@[i as int]@, e@));
                    }
                    return Err(e);
                }
                proof {
                    let s2 = StepV { pdb: st.pdb@, current: st.current@ };
                    assert(decode_line_post(
                        i + 1,
                        lines@[i as int]@,
                        Result::<Record, PDBError>::Err(e),
                    ));
                    assert(line_advances(i + 1, lines@[i as int]@, sts@[i as int], s2));
                    assert(line_outcome(
                        i + 1,
                        lines@[i as int]@,
                        sts@[i as int],
                        s2,
                        Option::Some(e@),
                    ));
                    assert(ds@.push(Option::Some(e@)).drop_last() =~= ds@);
                    assert(ds@.push(Option::Some(e@)).last() == Option::Some(e@));
                    sts@ = sts@.push(s2);
                    ds@ = ds@.push(Option::Some(e@));
                }
                errors.push(e);
                proof {
                    assert(errors@.map_values(|e2: PDBError| e2@) =~= collect_diags(ds@));
                }
            },
        }
        i = i + 1;
    }
    let ghost pf = st.pdb@;
    let ghost mf = st.current@;
    proof {
        assert(sts@[n as int] == (StepV { pdb: pf, current: mf }));
    }
    st.finish();
    proof {
        if sum_chain_atoms(all_chains_of(mf)) > 0 {
            assert(pf.models.push(mf).drop_last() =~= pf.models);
            assert(pf.models.push(mf).last() == mf);
        }
        crate::chain::lemma_sum_chain_atoms_nonneg(all_chains_of(mf));
        crate::pdb::lemma_pdb_total_atoms_nonneg(pf.models);
        assert(pdb_total_atoms(st.pdb@.models) <= n);
        lemma_count_valid_mtrix_bounds(st.pdb@.mtrix);
        assert(pdb_xform_count(st.pdb@) <= 6 + 3 * st.pdb@.mtrix.len());
        assert(pdb_xform_count(st.pdb@) <= usize::MAX);
    }
    let ghost before = errors@;
    let mut vdiags = validate(&st.pdb);
    let ghost vd = vdiags@;
    proof {
        lemma_master_diags_nonfatal(st.pdb@);
    }
    errors.append(&mut vdiags);
    let BuildState { pdb, current: _ } = st;
    proof {
        let es = errors@.map_values(|e: PDBError| e@);
        let d = master_diags(pdb@);
        assert(errors@ == before + vd);
        assert(vd.map_values(|e: PDBError| e@) == d);
        assert forall|k: int| 0 <= k < errors@.len() implies (#[trigger] errors@[k])@.level
            != ErrorLevel::BreakingError by {
            if k >= before.len() {
                assert(errors@[k] == vd[k - before.len()]);
                assert(vd.map_values(|e: PDBError| e@)[k - before.len()] == vd[k
                    - before.len()]@);
                assert(d[k - before.len()].level != ErrorLevel::BreakingError);
            } else {
                assert(errors@[k] == before[k]);
            }
        }
        assert(es =~= collect_diags(ds@) + d);
    }
    Ok((pdb, errors))
}

} // verus!
