//! The top-level structure: models, remarks, crystallographic data, and the
//! declared checksum record, when one was present.

use vstd::prelude::*;

use crate::model::{Model, ModelV, all_chains_of};
use crate::chain::sum_chain_atoms;
use crate::num::find_index;
use crate::tables::{trim_trailing, spec_known_space_group, resolve_space_group,
    trim_trailing_spaces};
use crate::transform::{MtriX, Row4, RowMatrix, UnitCell, matrix_valid, matrix_with_row};

verus! {

/// One remark: a type number and a line of free text. Duplicates are
/// allowed; insertion order carries no meaning.
#[derive(Clone, PartialEq, Eq, Debug)]
pub struct Remark {
    pub number: usize,
    pub text: Vec<char>,
}

/// Mathematical value of a [`Remark`].
pub struct RemarkV {
    pub number: int,
    pub text: Seq<char>,
}

impl View for Remark {
    type V = RemarkV;

    open spec fn view(&self) -> RemarkV {
        RemarkV { number: self.number as int, text: self.text@ }
    }
}

/// The space-group descriptor, kept only when its name resolves.
#[derive(Clone, PartialEq, Eq, Debug)]
pub struct Symmetry {
    pub name: Vec<char>,
}

/// Mathematical value of a [`Symmetry`].
pub struct SymmetryV {
    pub name: Seq<char>,
}

impl View for Symmetry {
    type V = SymmetryV;

    open spec fn view(&self) -> SymmetryV {
        SymmetryV { name: self.name@ }
    }
}

impl Symmetry {
    /// Resolves a space-group name: the descriptor exists only when the
    /// name, with trailing whitespace discarded, is in the lookup table.
    pub fn new(name: &Vec<char>) -> (r: Option<Symmetry>)
        ensures
            r is Some <==> spec_known_space_group(trim_trailing(name@)),
            r is Some ==> r->0@.name == trim_trailing(name@),
    {
        if resolve_space_group(name) {
            Some(Symmetry { name: trim_trailing_spaces(name) })
        } else {
            None
        }
    }
}

/// The twelve counts a checksum record declares, in file order.
#[derive(Clone, Copy, PartialEq, Eq, Structural, Debug)]
pub struct MasterNumbers {
    pub num_remark: usize,
    /// Defined by the format to be zero.
    pub num_empty: usize,
    pub num_het: usize,
    pub num_helix: usize,
    pub num_sheet: usize,
    pub num_turn: usize,
    pub num_site: usize,
    pub num_xform: usize,
    pub num_coord: usize,
    pub num_ter: usize,
    pub num_connect: usize,
    pub num_seq: usize,
}

/// The top-level structure of a parsed file.
#[derive(PartialEq, Eq, Debug)]
pub struct PDB {
    /// The remark lines, keyed by type number, in encounter order.
    pub remarks: Vec<Remark>,
    /// The unit cell, at most one.
    pub unit_cell: Option<UnitCell>,
    /// The symmetry descriptor, at most one.
    pub symmetry: Option<Symmetry>,
    /// The fractional-coordinate scale matrix, at most one.
    pub scale: Option<RowMatrix>,
    /// The origin-transform matrix, at most one.
    pub origx: Option<RowMatrix>,
    /// The non-crystallographic symmetry matrices, unique by serial number.
    pub mtrix: Vec<MtriX>,
    /// The models, in encounter order.
    pub models: Vec<Model>,
    /// The declared checksum record, when one was present.
    pub master: Option<MasterNumbers>,
}

/// Mathematical value of a [`PDB`].
pub struct PDBV {
    pub remarks: Seq<RemarkV>,
    pub unit_cell: Option<UnitCell>,
    pub symmetry: Option<SymmetryV>,
    pub scale: Option<RowMatrix>,
    pub origx: Option<RowMatrix>,
    pub mtrix: Seq<MtriX>,
    pub models: Seq<ModelV>,
    pub master: Option<MasterNumbers>,
}

impl View for PDB {
    type V = PDBV;

    open spec fn view(&self) -> PDBV {
        PDBV {
            remarks: self.remarks@.map_values(|r: Remark| r@),
            unit_cell: self.unit_cell,
            symmetry: match self.symmetry {
                Option::Some(s) => Option::Some(s@),
                Option::None => Option::None,
            },
            scale: self.scale,
            origx: self.origx,
            mtrix: self.mtrix@,
            models: self.models@.map_values(|m: Model| m@),
            master: self.master,
        }
    }
}

/// Atom total over every model and both partitions.
pub open spec fn pdb_total_atoms(models: Seq<ModelV>) -> int
    decreases models.len(),
{
    if models.len() == 0 {
        0
    } else {
        pdb_total_atoms(models.drop_last()) + sum_chain_atoms(all_chains_of(models.last()))
    }
}

pub proof fn lemma_pdb_total_atoms_nonneg(models: Seq<ModelV>)
    ensures
        pdb_total_atoms(models) >= 0,
    decreases models.len(),
{
    if models.len() > 0 {
        lemma_pdb_total_atoms_nonneg(models.drop_last());
        crate::chain::lemma_sum_chain_atoms_nonneg(all_chains_of(models.last()));
    }
}

pub proof fn lemma_pdb_total_atoms_prefix(models: Seq<ModelV>, i: int)
    requires
        0 <= i <= models.len(),
    ensures
        pdb_total_atoms(models.subrange(0, i)) <= pdb_total_atoms(models),
    decreases models.len() - i,
{
    if i < models.len() {
        lemma_pdb_total_atoms_prefix(models, i + 1);
        assert(models.subrange(0, i + 1).drop_last() =~= models.subrange(0, i));
        crate::chain::lemma_sum_chain_atoms_nonneg(all_chains_of(models[i]));
    } else {
        assert(models.subrange(0, i) =~= models);
    }
}

/// No one model holds more atoms than all models together.
pub proof fn lemma_pdb_total_atoms_ge_elem(models: Seq<ModelV>, i: int)
    requires
        0 <= i < models.len(),
    ensures
        sum_chain_atoms(all_chains_of(models[i])) <= pdb_total_atoms(models),
    decreases models.len(),
{
    if models.len() > 0 {
        if i == models.len() - 1 {
            lemma_pdb_total_atoms_nonneg(models.drop_last());
        } else {
            lemma_pdb_total_atoms_ge_elem(models.drop_last(), i);
            crate::chain::lemma_sum_chain_atoms_nonneg(all_chains_of(models.last()));
            assert(models.drop_last()[i] == models[i]);
        }
    }
}

/// Count of valid non-crystallographic symmetry matrices.
pub open spec fn count_valid_mtrix(ms: Seq<MtriX>) -> int
    decreases ms.len(),
{
    if ms.len() == 0 {
        0
    } else {
        count_valid_mtrix(ms.drop_last()) + if matrix_valid(ms.last().matrix) {
            1int
        } else {
            0int
        }
    }
}

pub proof fn lemma_count_valid_mtrix_bounds(ms: Seq<MtriX>)
    ensures
        0 <= count_valid_mtrix(ms) <= ms.len(),
    decreases ms.len(),
{
    if ms.len() > 0 {
        lemma_count_valid_mtrix_bounds(ms.drop_last());
    }
}

/// The transform tally a checksum compares against: each fully supplied
/// origin transform and scale matrix counts its three rows, and so does each
/// fully supplied non-crystallographic symmetry matrix.
pub open spec fn pdb_xform_count(p: PDBV) -> int {
    (if p.origx is Some && matrix_valid(p.origx->0) {
        3int
    } else {
        0int
    }) + (if p.scale is Some && matrix_valid(p.scale->0) {
        3int
    } else {
        0int
    }) + 3 * count_valid_mtrix(p.mtrix)
}

/// The key a non-crystallographic symmetry matrix is found by.
pub open spec fn mtrix_matches(ser: int) -> spec_fn(MtriX) -> bool {
    |m: MtriX| m.serial_number == ser
}

/// Find-or-create row insertion into the matrix list.
pub open spec fn mtrix_upsert(ms: Seq<MtriX>, ser: int, n: int, row: Row4, given: bool) -> Seq<
    MtriX,
> {
    let i = find_index(ms, mtrix_matches(ser));
    if i < 0 {
        ms.push(
            MtriX {
                serial_number: ser as usize,
                contained: given,
                matrix: matrix_with_row(
                    RowMatrix {
                        row0: Option::<Row4>::None,
                        row1: Option::<Row4>::None,
                        row2: Option::<Row4>::None,
                    },
                    n,
                    row,
                ),
            },
        )
    } else {
        ms.update(
            i,
            MtriX {
                serial_number: ms[i].serial_number,
                contained: given,
                matrix: matrix_with_row(ms[i].matrix, n, row),
            },
        )
    }
}

impl PDB {
    /// A fresh, empty structure.
    pub fn new() -> (r: PDB)
        ensures
            r@.remarks == Seq::<RemarkV>::empty(),
            r@.unit_cell is None,
            r@.symmetry is None,
            r@.scale is None,
            r@.origx is None,
            r@.mtrix == Seq::<MtriX>::empty(),
            r@.models == Seq::<ModelV>::empty(),
            r@.master is None,
    {
        let p = PDB {
            remarks: Vec::new(),
            unit_cell: None,
            symmetry: None,
            scale: None,
            origx: None,
            mtrix: Vec::new(),
            models: Vec::new(),
            master: None,
        };
        proof {
            assert(p@.remarks =~= Seq::<RemarkV>::empty());
            assert(p@.models =~= Seq::<ModelV>::empty());
        }
        p
    }

    /// Appends one remark line under its type number.
    pub fn add_remark(&mut self, number: usize, text: Vec<char>)
        ensures
            final(self)@ == (PDBV {
                remarks: old(self)@.remarks.push(
                    RemarkV { number: number as int, text: text@ },
                ),
                ..old(self)@
            }),
    {
        self.remarks.push(Remark { number, text });
        proof {
            assert(self@.remarks =~= old(self)@.remarks.push(
                RemarkV { number: number as int, text: text@ },
            ));
        }
    }

    /// The number of remark lines.
    pub fn remark_count(&self) -> (r: usize)
        ensures
            r == self@.remarks.len(),
    {
        self.remarks.len()
    }

    /// Whether a scale matrix has been started.
    pub fn has_scale(&self) -> (r: bool)
        ensures
            r == (self@.scale is Some),
    {
        self.scale.is_some()
    }

    /// The scale matrix, when one has been started.
    pub fn scale(&self) -> (r: Option<RowMatrix>)
        ensures
            r == self@.scale,
    {
        self.scale
    }

    /// Whether an origin-transform matrix has been started.
    pub fn has_origx(&self) -> (r: bool)
        ensures
            r == (self@.origx is Some),
    {
        self.origx.is_some()
    }

    /// The origin-transform matrix, when one has been started.
    pub fn origx(&self) -> (r: Option<RowMatrix>)
        ensures
            r == self@.origx,
    {
        self.origx
    }

    /// Sets one row of the scale matrix, starting the matrix when this is
    /// its first row record.
    pub fn set_scale_row(&mut self, n: usize, row: Row4)
        ensures
            final(self)@ == (PDBV {
                scale: Option::Some(
                    matrix_with_row(
                        match old(self)@.scale {
                            Option::Some(m) => m,
                            Option::None => RowMatrix {
                                row0: Option::<Row4>::None,
                                row1: Option::<Row4>::None,
                                row2: Option::<Row4>::None,
                            },
                        },
                        n as int,
                        row,
                    ),
                ),
                ..old(self)@
            }),
    {
        let mut m = match self.scale {
            Some(m) => m,
            None => RowMatrix::new(),
        };
        m.set_row(n, row);
        self.scale = Some(m);
    }

    /// Sets one row of the origin-transform matrix, starting the matrix when
    /// this is its first row record.
    pub fn set_origx_row(&mut self, n: usize, row: Row4)
        ensures
            final(self)@ == (PDBV {
                origx: Option::Some(
                    matrix_with_row(
                        match old(self)@.origx {
                            Option::Some(m) => m,
                            Option::None => RowMatrix {
                                row0: Option::<Row4>::None,
                                row1: Option::<Row4>::None,
                                row2: Option::<Row4>::None,
                            },
                        },
                        n as int,
                        row,
                    ),
                ),
                ..old(self)@
            }),
    {
        let mut m = match self.origx {
            Some(m) => m,
            None => RowMatrix::new(),
        };
        m.set_row(n, row);
        self.origx = Some(m);
    }

    /// Sets one row of the non-crystallographic symmetry matrix with the
    /// given serial number, creating the matrix when none carries it yet,
    /// and records the record's given-flag.
    pub fn set_mtrix_row(&mut self, serial: usize, n: usize, row: Row4, given: bool)
        ensures
            final(self)@ == (PDBV {
                mtrix: mtrix_upsert(old(self)@.mtrix, serial as int, n as int, row, given),
                ..old(self)@
            }),
    {
        let ghost msv = self@.mtrix;
        let ghost p = mtrix_matches(serial as int);
        let len = self.mtrix.len();
        let mut i: usize = 0;
        while i < len
            invariant
                0 <= i <= len,
                *self == *old(self),
                msv == self@.mtrix,
                len == self.mtrix@.len(),
                p == mtrix_matches(serial as int),
                forall|k: int| 0 <= k < i ==> msv[k].serial_number != serial,
            decreases len - i,
        {
            if self.mtrix[i].serial_number == serial {
                proof {
                    assert(p(msv[i as int]));
                    assert forall|k: int| 0 <= k < i as int implies !p(msv[k]) by {}
                    crate::chain::lemma_find_index_is(msv, p, i as int);
                }
                let mut m = self.mtrix[i];
                m.set_row(n, row);
                m.contained = given;
                self.mtrix.set(i, m);
                proof {
                    assert(self@.mtrix =~= mtrix_upsert(
                        msv,
                        serial as int,
                        n as int,
                        row,
                        given,
                    ));
                }
                return ;
            }
            i = i + 1;
        }
        proof {
            assert forall|k: int| 0 <= k < msv.len() implies !p(msv[k]) by {}
            crate::chain::lemma_find_index_none(msv, p);
        }
        let mut m = MtriX::new();
        m.serial_number = serial;
        m.set_row(n, row);
        m.contained = given;
        self.mtrix.push(m);
        proof {
            assert(self@.mtrix =~= mtrix_upsert(msv, serial as int, n as int, row, given));
        }
    }

    /// The non-crystallographic symmetry matrices, in encounter order.
    pub fn mtrix(&self) -> (r: &Vec<MtriX>)
        ensures
            r@ == self@.mtrix,
    {
        &self.mtrix
    }

    /// Sets the unit cell; at most one is kept, the last record wins.
    pub fn set_unit_cell(&mut self, cell: UnitCell)
        ensures
            final(self)@ == (PDBV { unit_cell: Option::Some(cell), ..old(self)@ }),
    {
        self.unit_cell = Some(cell);
    }

    /// The unit cell, when one was supplied.
    pub fn unit_cell(&self) -> (r: Option<UnitCell>)
        ensures
            r == self@.unit_cell,
    {
        self.unit_cell
    }

    /// Sets the symmetry descriptor; at most one is kept.
    pub fn set_symmetry(&mut self, symmetry: Symmetry)
        ensures
            final(self)@ == (PDBV { symmetry: Option::Some(symmetry@), ..old(self)@ }),
    {
        self.symmetry = Some(symmetry);
    }

    /// The symmetry descriptor, when one was kept.
    pub fn symmetry(&self) -> (r: &Option<Symmetry>)
        ensures
            ({
                match r {
                    Option::Some(s) => self@.symmetry == Option::Some(s@),
                    Option::None => self@.symmetry is None,
                }
            }),
    {
        &self.symmetry
    }

    /// Appends a finished model.
    pub fn add_model(&mut self, model: Model)
        ensures
            final(self)@ == (PDBV { models: old(self)@.models.push(model@), ..old(self)@ }),
    {
        self.models.push(model);
        proof {
            assert(self@.models =~= old(self)@.models.push(model@));
        }
    }

    /// The number of models.
    pub fn model_count(&self) -> (r: usize)
        ensures
            r == self@.models.len(),
    {
        self.models.len()
    }

    /// The models, in encounter order.
    pub fn models(&self) -> (r: &Vec<Model>)
        ensures
            r@.map_values(|m: Model| m@) == self@.models,
    {
        &self.models
    }

    /// Records the declared checksum; the last record wins.
    pub fn set_master(&mut self, master: MasterNumbers)
        ensures
            final(self)@ == (PDBV { master: Option::Some(master), ..old(self)@ }),
    {
        self.master = Some(master);
    }

    /// The declared checksum record, when one was present.
    pub fn master(&self) -> (r: Option<MasterNumbers>)
        ensures
            r == self@.master,
    {
        self.master
    }

    /// The number of atoms over every model, both partitions included.
    pub fn total_atom_count(&self) -> (r: usize)
        requires
            pdb_total_atoms(self@.models) <= usize::MAX,
            forall|i: int| 0 <= i < self@.models.len() ==> sum_chain_atoms(
                all_chains_of(#[trigger] self@.models[i]),
            ) <= usize::MAX,
        ensures
            r == pdb_total_atoms(self@.models),
    {
        let ghost msv = self@.models;
        let n = self.models.len();
        let mut acc: usize = 0;
        let mut i: usize = 0;
        while i < n
            invariant
                0 <= i <= n,
                n == self.models@.len(),
                msv == self@.models,
                pdb_total_atoms(msv) <= usize::MAX,
                forall|k: int| 0 <= k < msv.len() ==> sum_chain_atoms(
                    all_chains_of(#[trigger] msv[k]),
                ) <= usize::MAX,
                acc == pdb_total_atoms(msv.subrange(0, i as int)),
            decreases n - i,
        {
            proof {
                assert(msv.subrange(0, i + 1).drop_last() =~= msv.subrange(0, i as int));
                assert(msv.subrange(0, i + 1).last() == msv[i as int]);
                lemma_pdb_total_atoms_prefix(msv, i + 1);
                lemma_pdb_total_atoms_nonneg(msv.subrange(0, i as int));
                crate::chain::lemma_sum_chain_atoms_nonneg(all_chains_of(msv[i as int]));
                assert(msv[i as int] == self.models@[i as int]@);
            }
            let k = self.models[i].total_atom_count();
            acc = acc + k;
            i = i + 1;
        }
        proof {
            assert(msv.subrange(0, n as int) =~= msv);
        }
        acc
    }
}

} // verus!
