//! A model: two partitioned ordered lists of chains, one for standard atoms
//! and one for hetero atoms.
//!
//! An atom's own hetero flag decides which partition it belongs to. A chain
//! identifier may appear once in each partition, but is never duplicated
//! within one. Iteration order over chains, residues and atoms always equals
//! first-insertion order: growth is stable and append-only.

use vstd::prelude::*;

use crate::atom::{AnisoTensor, Atom, AtomV, is_valid_id_char, valid_id_text};
use crate::chain::{
    Chain, ChainV, ResidueV, Residue, chain_contains, chain_matches, chain_upsert,
    chains_set_anisou, sum_chain_atoms, sum_chain_residues, sum_res_atoms,
    lemma_sum_chain_atoms_nonneg, lemma_sum_chain_atoms_prefix,
    lemma_sum_chain_residues_nonneg, lemma_sum_chain_residues_prefix,
};
use crate::num::{find_index, find_last};

verus! {

/// A model containing multiple chains.
#[derive(PartialEq, Eq, Debug)]
pub struct Model {
    /// The serial number of this model.
    pub serial_number: usize,
    /// The chains of standard atoms, in first-insertion order.
    pub chains: Vec<Chain>,
    /// The chains of hetero atoms, in first-insertion order.
    pub hetero_chains: Vec<Chain>,
}

/// Mathematical value of a [`Model`].
pub struct ModelV {
    pub serial_number: int,
    pub chains: Seq<ChainV>,
    pub hetero_chains: Seq<ChainV>,
}

impl View for Model {
    type V = ModelV;

    open spec fn view(&self) -> ModelV {
        ModelV {
            serial_number: self.serial_number as int,
            chains: self.chains@.map_values(|c: Chain| c@),
            hetero_chains: self.hetero_chains@.map_values(|c: Chain| c@),
        }
    }
}

/// Both partitions of a model, standard first: a combined view is a
/// concatenation, never a merge.
pub open spec fn all_chains_of(m: ModelV) -> Seq<ChainV> {
    m.chains + m.hetero_chains
}

/// Index of the first chain with the given identifier, as `find_index` sees
/// it.
fn find_chain_index(v: &Vec<Chain>, id: char) -> (r: Option<usize>)
    ensures
        ({
            let f = find_index(v@.map_values(|c: Chain| c@), chain_matches(id));
            match r {
                Option::Some(i) => f == i && i < v@.len(),
                Option::None => f == -1,
            }
        }),
{
    let ghost csv = v@.map_values(|c: Chain| c@);
    let ghost p = chain_matches(id);
    let n = v.len();
    let mut i: usize = 0;
    while i < n
        invariant
            0 <= i <= n,
            n == v@.len(),
            csv == v@.map_values(|c: Chain| c@),
            p == chain_matches(id),
            forall|k: int| 0 <= k < i ==> csv[k].id != id,
        decreases n - i,
    {
        if v[i].id == id {
            proof {
                assert(csv[i as int] == v@[i as int]@);
                assert(p(csv[i as int]));
                assert forall|k: int| 0 <= k < i as int implies !p(csv[k]) by {}
                crate::chain::lemma_find_index_is(csv, p, i as int);
            }
            return Some(i);
        }
        proof {
            assert(csv[i as int] == v@[i as int]@);
        }
        i = i + 1;
    }
    proof {
        assert forall|k: int| 0 <= k < csv.len() implies !p(csv[k]) by {}
        crate::chain::lemma_find_index_none(csv, p);
    }
    None
}

impl Model {
    /// A fresh, empty model with the given serial number.
    pub fn new(serial_number: usize) -> (r: Model)
        ensures
            r@.serial_number == serial_number as int,
            r@.chains == Seq::<ChainV>::empty(),
            r@.hetero_chains == Seq::<ChainV>::empty(),
    {
        let m = Model { serial_number, chains: Vec::new(), hetero_chains: Vec::new() };
        proof {
            assert(m@.chains =~= Seq::<ChainV>::empty());
            assert(m@.hetero_chains =~= Seq::<ChainV>::empty());
        }
        m
    }

    /// The serial number of this model.
    pub fn serial_number(&self) -> (r: usize)
        ensures
            r == self.serial_number,
    {
        self.serial_number
    }

    /// Sets the serial number of this model.
    pub fn set_serial_number(&mut self, new_number: usize)
        ensures
            *final(self) == (Model { serial_number: new_number, ..*old(self) }),
    {
        self.serial_number = new_number;
    }

    /// The number of chains, disregarding all hetero chains.
    pub fn chain_count(&self) -> (r: usize)
        ensures
            r == self@.chains.len(),
    {
        self.chains.len()
    }

    /// The number of residues, disregarding all hetero residues.
    pub fn residue_count(&self) -> (r: usize)
        requires
            sum_chain_residues(self@.chains) <= usize::MAX,
        ensures
            r == sum_chain_residues(self@.chains),
    {
        sum_residues_vec(&self.chains)
    }

    /// The number of atoms, disregarding all hetero atoms.
    pub fn atom_count(&self) -> (r: usize)
        requires
            sum_chain_atoms(self@.chains) <= usize::MAX,
        ensures
            r == sum_chain_atoms(self@.chains),
    {
        sum_atoms_vec(&self.chains)
    }

    /// The number of chains, including all hetero chains.
    pub fn total_chain_count(&self) -> (r: usize)
        requires
            self@.chains.len() + self@.hetero_chains.len() <= usize::MAX,
        ensures
            r == all_chains_of(self@).len(),
    {
        self.chains.len() + self.hetero_chains.len()
    }

    /// The number of residues, including all hetero residues.
    pub fn total_residue_count(&self) -> (r: usize)
        requires
            sum_chain_residues(all_chains_of(self@)) <= usize::MAX,
        ensures
            r == sum_chain_residues(all_chains_of(self@)),
    {
        proof {
            lemma_sum_split_residues(self@.chains, self@.hetero_chains);
            lemma_sum_chain_residues_nonneg(self@.chains);
            lemma_sum_chain_residues_nonneg(self@.hetero_chains);
        }
        let a = sum_residues_vec(&self.chains);
        let b = sum_residues_vec(&self.hetero_chains);
        a + b
    }

    /// The number of atoms, including all hetero atoms.
    pub fn total_atom_count(&self) -> (r: usize)
        requires
            sum_chain_atoms(all_chains_of(self@)) <= usize::MAX,
        ensures
            r == sum_chain_atoms(all_chains_of(self@)),
    {
        proof {
            lemma_sum_split_atoms(self@.chains, self@.hetero_chains);
            lemma_sum_chain_atoms_nonneg(self@.chains);
            lemma_sum_chain_atoms_nonneg(self@.hetero_chains);
        }
        let a = sum_atoms_vec(&self.chains);
        let b = sum_atoms_vec(&self.hetero_chains);
        a + b
    }

    /// The chains, disregarding all hetero chains, in insertion order.
    pub fn chains(&self) -> (r: &Vec<Chain>)
        ensures
            r@.map_values(|c: Chain| c@) == self@.chains,
    {
        &self.chains
    }

    /// The hetero chains, in insertion order.
    pub fn hetero_chains(&self) -> (r: &Vec<Chain>)
        ensures
            r@.map_values(|c: Chain| c@) == self@.hetero_chains,
    {
        &self.hetero_chains
    }

    /// All chains, standard then hetero, in insertion order.
    pub fn all_chains(&self) -> (r: Vec<&Chain>)
        ensures
            r@.len() == all_chains_of(self@).len(),
            forall|k: int|
                0 <= k < r@.len() ==> (#[trigger] r@[k])@ == all_chains_of(self@)[k],
    {
        let ghost acv = all_chains_of(self@);
        let mut r: Vec<&Chain> = Vec::new();
        let n = self.chains.len();
        let mut i: usize = 0;
        while i < n
            invariant
                0 <= i <= n,
                n == self.chains@.len(),
                acv == all_chains_of(self@),
                r@.len() == i,
                forall|k: int| 0 <= k < i ==> (#[trigger] r@[k])@ == acv[k],
            decreases n - i,
        {
            let x = &self.chains[i];
            r.push(x);
            proof {
                assert(x@ == self@.chains[i as int]);
            }
            i = i + 1;
        }
        let m = self.hetero_chains.len();
        let mut j: usize = 0;
        while j < m
            invariant
                0 <= j <= m,
                n == self.chains@.len(),
                m == self.hetero_chains@.len(),
                acv == all_chains_of(self@),
                r@.len() == n + j,
                forall|k: int| 0 <= k < n + j ==> (#[trigger] r@[k])@ == acv[k],
            decreases m - j,
        {
            let x = &self.hetero_chains[j];
            r.push(x);
            proof {
                assert(x@ == self@.hetero_chains[j as int]);
            }
            j = j + 1;
        }
        r
    }

    /// All residues of the standard chains, in traversal order.
    pub fn residues(&self) -> (r: Vec<&Residue>)
        ensures
            r@.len() == flat_residues(self@.chains).len(),
            forall|k: int|
                0 <= k < r@.len() ==> (#[trigger] r@[k])@ == flat_residues(self@.chains)[k],
    {
        residues_of(&self.chains)
    }

    /// All residues of the hetero chains, in traversal order.
    pub fn hetero_residues(&self) -> (r: Vec<&Residue>)
        ensures
            r@.len() == flat_residues(self@.hetero_chains).len(),
            forall|k: int|
                0 <= k < r@.len() ==> (#[trigger] r@[k])@ == flat_residues(
                    self@.hetero_chains,
                )[k],
    {
        residues_of(&self.hetero_chains)
    }

    /// All residues, standard then hetero, in traversal order.
    pub fn all_residues(&self) -> (r: Vec<&Residue>)
        ensures
            r@.len() == flat_residues(all_chains_of(self@)).len(),
            forall|k: int|
                0 <= k < r@.len() ==> (#[trigger] r@[k])@ == flat_residues(
                    all_chains_of(self@),
                )[k],
    {
        let mut r = residues_of(&self.chains);
        let mut h = residues_of(&self.hetero_chains);
        let ghost rv = r@;
        let ghost hv = h@;
        r.append(&mut h);
        proof {
            lemma_flat_residues_add(self@.chains, self@.hetero_chains);
            assert(r@ == rv + hv);
        }
        r
    }

    /// All atoms of the standard chains, in traversal order.
    pub fn atoms(&self) -> (r: Vec<&Atom>)
        ensures
            r@.len() == flat_atoms(self@.chains).len(),
            forall|k: int|
                0 <= k < r@.len() ==> (#[trigger] r@[k])@ == flat_atoms(self@.chains)[k],
    {
        let rs = self.residues();
        proof {
            assert(rs@.map_values(|x: &Residue| x@) =~= flat_residues(self@.chains));
        }
        atoms_of_residues(&rs)
    }

    /// All atoms of the hetero chains, in traversal order.
    pub fn hetero_atoms(&self) -> (r: Vec<&Atom>)
        ensures
            r@.len() == flat_atoms(self@.hetero_chains).len(),
            forall|k: int|
                0 <= k < r@.len() ==> (#[trigger] r@[k])@ == flat_atoms(self@.hetero_chains)[k],
    {
        let rs = self.hetero_residues();
        proof {
            assert(rs@.map_values(|x: &Residue| x@) =~= flat_residues(self@.hetero_chains));
        }
        atoms_of_residues(&rs)
    }

    /// All atoms, standard then hetero, in traversal order.
    pub fn all_atoms(&self) -> (r: Vec<&Atom>)
        ensures
            r@.len() == flat_atoms(all_chains_of(self@)).len(),
            forall|k: int|
                0 <= k < r@.len() ==> (#[trigger] r@[k])@ == flat_atoms(all_chains_of(self@))[k],
    {
        let rs = self.all_residues();
        proof {
            assert(rs@.map_values(|x: &Residue| x@) =~= flat_residues(all_chains_of(self@)));
        }
        atoms_of_residues(&rs)
    }

    /// The chain at the given position of the combined traversal, standard
    /// partition first.
    pub fn chain(&self, index: usize) -> (r: Option<&Chain>)
        ensures
            ({
                match r {
                    Option::Some(c) => index < all_chains_of(self@).len() && c@ == all_chains_of(
                        self@,
                    )[index as int],
                    Option::None => index >= all_chains_of(self@).len(),
                }
            }),
    {
        if index < self.chains.len() {
            let c = &self.chains[index];
            proof {
                assert(c@ == self@.chains[index as int]);
            }
            Some(c)
        } else {
            let j = index - self.chains.len();
            if j < self.hetero_chains.len() {
                let c = &self.hetero_chains[j];
                proof {
                    assert(c@ == self@.hetero_chains[j as int]);
                }
                Some(c)
            } else {
                None
            }
        }
    }

    /// The residue at the given position of the combined traversal.
    pub fn residue(&self, index: usize) -> (r: Option<&Residue>)
        ensures
            ({
                match r {
                    Option::Some(x) => index < flat_residues(all_chains_of(self@)).len() && x@
                        == flat_residues(all_chains_of(self@))[index as int],
                    Option::None => index >= flat_residues(all_chains_of(self@)).len(),
                }
            }),
    {
        let rs = self.all_residues();
        if index < rs.len() {
            Some(rs[index])
        } else {
            None
        }
    }

    /// The atom at the given position of the combined traversal.
    pub fn atom(&self, index: usize) -> (r: Option<&Atom>)
        ensures
            ({
                match r {
                    Option::Some(x) => index < flat_atoms(all_chains_of(self@)).len() && x@
                        == flat_atoms(all_chains_of(self@))[index as int],
                    Option::None => index >= flat_atoms(all_chains_of(self@)).len(),
                }
            }),
    {
        let xs = self.all_atoms();
        if index < xs.len() {
            Some(xs[index])
        } else {
            None
        }
    }

    /// Find-or-create insertion of a standard atom: the atom goes into the
    /// first standard chain with the given identifier (created at the end of
    /// the partition when absent), and within it into the first residue with
    /// the given serial number (created at the end of the chain when absent).
    /// The residue name only populates a newly created residue. Nothing is
    /// ever reordered, and the hetero partition is untouched.
    pub fn add_atom(
        &mut self,
        new_atom: Atom,
        chain_id: char,
        residue_serial_number: usize,
        residue_name: Vec<char>,
    )
        requires
            is_valid_id_char(chain_id),
            valid_id_text(residue_name@),
        ensures
            final(self).serial_number == old(self).serial_number,
            final(self)@.hetero_chains == old(self)@.hetero_chains,
            final(self)@.chains == chain_upsert(
                old(self)@.chains,
                chain_id,
                residue_serial_number as int,
                residue_name@,
                new_atom@,
            ),
    {
        let ghost csv = self@.chains;
        match find_chain_index(&self.chains, chain_id) {
            Some(i) => {
                let mut c = self.chains.remove(i);
                c.add_atom(new_atom, residue_serial_number, residue_name);
                self.chains.insert(i, c);
                proof {
                    let after = self@.chains;
                    let expect = chain_upsert(
                        csv,
                        chain_id,
                        residue_serial_number as int,
                        residue_name@,
                        new_atom@,
                    );
                    assert(after =~= expect);
                }
            },
            None => {
                let mut c = Chain { id: chain_id, residues: Vec::new() };
                c.add_atom(new_atom, residue_serial_number, residue_name);
                self.chains.push(c);
                proof {
                    assert(c@.residues =~= crate::chain::residue_upsert(
                        Seq::<ResidueV>::empty(),
                        residue_serial_number as int,
                        residue_name@,
                        new_atom@,
                    ));
                    crate::chain::lemma_find_index_none(
                        Seq::<ResidueV>::empty(),
                        crate::chain::res_matches(residue_serial_number as int),
                    );
                    let after = self@.chains;
                    let expect = chain_upsert(
                        csv,
                        chain_id,
                        residue_serial_number as int,
                        residue_name@,
                        new_atom@,
                    );
                    assert(after =~= expect);
                }
            },
        }
    }

    /// Find-or-create insertion of a hetero atom, exactly as
    /// [`Model::add_atom`] but into the hetero partition; the standard
    /// partition is untouched.
    pub fn add_hetero_atom(
        &mut self,
        new_atom: Atom,
        chain_id: char,
        residue_serial_number: usize,
        residue_name: Vec<char>,
    )
        requires
            is_valid_id_char(chain_id),
            valid_id_text(residue_name@),
        ensures
            final(self).serial_number == old(self).serial_number,
            final(self)@.chains == old(self)@.chains,
            final(self)@.hetero_chains == chain_upsert(
                old(self)@.hetero_chains,
                chain_id,
                residue_serial_number as int,
                residue_name@,
                new_atom@,
            ),
    {
        let ghost csv = self@.hetero_chains;
        match find_chain_index(&self.hetero_chains, chain_id) {
            Some(i) => {
                let mut c = self.hetero_chains.remove(i);
                c.add_atom(new_atom, residue_serial_number, residue_name);
                self.hetero_chains.insert(i, c);
                proof {
                    let after = self@.hetero_chains;
                    let expect = chain_upsert(
                        csv,
                        chain_id,
                        residue_serial_number as int,
                        residue_name@,
                        new_atom@,
                    );
                    assert(after =~= expect);
                }
            },
            None => {
                let mut c = Chain { id: chain_id, residues: Vec::new() };
                c.add_atom(new_atom, residue_serial_number, residue_name);
                self.hetero_chains.push(c);
                proof {
                    assert(c@.residues =~= crate::chain::residue_upsert(
                        Seq::<ResidueV>::empty(),
                        residue_serial_number as int,
                        residue_name@,
                        new_atom@,
                    ));
                    crate::chain::lemma_find_index_none(
                        Seq::<ResidueV>::empty(),
                        crate::chain::res_matches(residue_serial_number as int),
                    );
                    let after = self@.hetero_chains;
                    let expect = chain_upsert(
                        csv,
                        chain_id,
                        residue_serial_number as int,
                        residue_name@,
                        new_atom@,
                    );
                    assert(after =~= expect);
                }
            },
        }
    }

    /// Removes every atom, standard and hetero, for which the predicate
    /// yields true. The chain and residue skeleton is untouched; within
    /// each residue the atoms kept, in order, are exactly those the
    /// predicate rejected.
    pub fn remove_atoms_by<F: Fn(&Atom) -> bool>(&mut self, predicate: F)
        requires
            forall|x: &Atom| #[trigger] call_requires(predicate, (x,)),
        ensures
            final(self).serial_number == old(self).serial_number,
            final(self).chains@.len() == old(self).chains@.len(),
            final(self).hetero_chains@.len() == old(self).hetero_chains@.len(),
            forall|i: int|
                0 <= i < old(self).chains@.len() ==> chain_atoms_filtered_by(
                    predicate,
                    old(self).chains@[i],
                    #[trigger] final(self).chains@[i],
                ),
            forall|i: int|
                0 <= i < old(self).hetero_chains@.len() ==> chain_atoms_filtered_by(
                    predicate,
                    old(self).hetero_chains@[i],
                    #[trigger] final(self).hetero_chains@[i],
                ),
    {
        remove_atoms_in_chains(&mut self.chains, &predicate);
        remove_atoms_in_chains(&mut self.hetero_chains, &predicate);
    }

    /// Removes every residue, standard and hetero, for which the predicate
    /// yields true. The chains are untouched; within each chain the
    /// residues kept, in order, are exactly those the predicate rejected.
    pub fn remove_residues_by<F: Fn(&Residue) -> bool>(&mut self, predicate: F)
        requires
            forall|x: &Residue| #[trigger] call_requires(predicate, (x,)),
        ensures
            final(self).serial_number == old(self).serial_number,
            final(self).chains@.len() == old(self).chains@.len(),
            final(self).hetero_chains@.len() == old(self).hetero_chains@.len(),
            forall|i: int|
                0 <= i < old(self).chains@.len() ==> residues_filtered_by(
                    predicate,
                    old(self).chains@[i],
                    #[trigger] final(self).chains@[i],
                ),
            forall|i: int|
                0 <= i < old(self).hetero_chains@.len() ==> residues_filtered_by(
                    predicate,
                    old(self).hetero_chains@[i],
                    #[trigger] final(self).hetero_chains@[i],
                ),
    {
        remove_residues_in_chains(&mut self.chains, &predicate);
        remove_residues_in_chains(&mut self.hetero_chains, &predicate);
    }

    /// Removes every chain, standard and hetero, for which the predicate
    /// yields true. In each partition the chains kept, in order, are
    /// exactly those the predicate rejected.
    pub fn remove_chains_by<F: Fn(&Chain) -> bool>(&mut self, predicate: F)
        requires
            forall|x: &Chain| #[trigger] call_requires(predicate, (x,)),
        ensures
            final(self).serial_number == old(self).serial_number,
            exists|keep: Seq<bool>|
                keep.len() == old(self).chains@.len() && final(self).chains@
                    == crate::num::select(old(self).chains@, keep) && (forall|i: int|
                    0 <= i < keep.len() ==> call_ensures(
                        predicate,
                        (&old(self).chains@[i],),
                        !keep[i],
                    )),
            exists|keep: Seq<bool>|
                keep.len() == old(self).hetero_chains@.len() && final(self).hetero_chains@
                    == crate::num::select(old(self).hetero_chains@, keep) && (forall|i: int|
                    0 <= i < keep.len() ==> call_ensures(
                        predicate,
                        (&old(self).hetero_chains@[i],),
                        !keep[i],
                    )),
    {
        vec_retain_not(&mut self.chains, &predicate);
        vec_retain_not(&mut self.hetero_chains, &predicate);
    }

    /// Removes the standard chain at the given position.
    pub fn remove_chain(&mut self, index: usize)
        requires
            index < old(self)@.chains.len(),
        ensures
            final(self).serial_number == old(self).serial_number,
            final(self)@.hetero_chains == old(self)@.hetero_chains,
            final(self)@.chains == old(self)@.chains.remove(index as int),
    {
        let ghost csv = self@.chains;
        self.chains.remove(index);
        proof {
            assert(self@.chains =~= csv.remove(index as int));
        }
    }

    /// Removes the first standard chain with the given identifier, telling
    /// whether one was found.
    pub fn remove_chain_id(&mut self, id: char) -> (r: bool)
        ensures
            ({
                let f = find_index(old(self)@.chains, chain_matches(id));
                &&& final(self).serial_number == old(self).serial_number
                &&& final(self)@.hetero_chains == old(self)@.hetero_chains
                &&& (r <==> f >= 0)
                &&& (r ==> final(self)@.chains == old(self)@.chains.remove(f))
                &&& (!r ==> final(self)@.chains == old(self)@.chains)
            }),
    {
        match find_chain_index(&self.chains, id) {
            Some(i) => {
                self.remove_chain(i);
                true
            },
            None => false,
        }
    }

    /// Joins another model into this one: its chains are appended to this
    /// model's partitions, in order. All other data of this model stays.
    pub fn join(&mut self, other: Model)
        ensures
            final(self).serial_number == old(self).serial_number,
            final(self)@.chains == old(self)@.chains + other@.chains,
            final(self)@.hetero_chains == old(self)@.hetero_chains + other@.hetero_chains,
    {
        let ghost csv = self@.chains;
        let ghost hsv = self@.hetero_chains;
        let Model { serial_number: _, chains, hetero_chains } = other;
        let ghost ocv = chains@.map_values(|c: Chain| c@);
        let ghost ohv = hetero_chains@.map_values(|c: Chain| c@);
        let mut cs = chains;
        let mut hs = hetero_chains;
        self.chains.append(&mut cs);
        self.hetero_chains.append(&mut hs);
        proof {
            assert(self@.chains =~= csv + ocv);
            assert(self@.hetero_chains =~= hsv + ohv);
        }
    }
}

/// All residues of a chain list, in chain order then insertion order.
pub open spec fn flat_residues(cs: Seq<ChainV>) -> Seq<ResidueV>
    decreases cs.len(),
{
    if cs.len() == 0 {
        Seq::empty()
    } else {
        flat_residues(cs.drop_last()) + cs.last().residues
    }
}

/// All atoms of a residue list, in residue order then insertion order.
pub open spec fn flat_res_atoms(rs: Seq<ResidueV>) -> Seq<AtomV>
    decreases rs.len(),
{
    if rs.len() == 0 {
        Seq::empty()
    } else {
        flat_res_atoms(rs.drop_last()) + rs.last().atoms
    }
}

/// All atoms of a chain list, in traversal order.
pub open spec fn flat_atoms(cs: Seq<ChainV>) -> Seq<AtomV> {
    flat_res_atoms(flat_residues(cs))
}

pub proof fn lemma_flat_residues_add(a: Seq<ChainV>, b: Seq<ChainV>)
    ensures
        flat_residues(a + b) == flat_residues(a) + flat_residues(b),
    decreases b.len(),
{
    if b.len() == 0 {
        assert(a + b =~= a);
        assert(flat_residues(a) + flat_residues(b) =~= flat_residues(a));
    } else {
        lemma_flat_residues_add(a, b.drop_last());
        assert((a + b).drop_last() =~= a + b.drop_last());
        assert(flat_residues(a) + flat_residues(b) =~= (flat_residues(a) + flat_residues(
            b.drop_last(),
        )) + b.last().residues);
    }
}


/// All residues of one partition, in traversal order, as references.
fn residues_of(v: &Vec<Chain>) -> (r: Vec<&Residue>)
    ensures
        r@.len() == flat_residues(v@.map_values(|c: Chain| c@)).len(),
        forall|k: int|
            0 <= k < r@.len() ==> (#[trigger] r@[k])@ == flat_residues(
                v@.map_values(|c: Chain| c@),
            )[k],
{
    let ghost csv = v@.map_values(|c: Chain| c@);
    let mut r: Vec<&Residue> = Vec::new();
    let n = v.len();
    let mut i: usize = 0;
    while i < n
        invariant
            0 <= i <= n,
            n == v@.len(),
            csv == v@.map_values(|c: Chain| c@),
            r@.len() == flat_residues(csv.subrange(0, i as int)).len(),
            forall|k: int|
                0 <= k < r@.len() ==> (#[trigger] r@[k])@ == flat_residues(
                    csv.subrange(0, i as int),
                )[k],
        decreases n - i,
    {
        let ghost pre = flat_residues(csv.subrange(0, i as int));
        proof {
            assert(csv[i as int] == v@[i as int]@);
            assert(csv.subrange(0, i + 1).drop_last() =~= csv.subrange(0, i as int));
            assert(csv.subrange(0, i + 1).last() == csv[i as int]);
        }
        let m = v[i].residues.len();
        let mut j: usize = 0;
        while j < m
            invariant
                0 <= j <= m,
                0 <= i < n,
                n == v@.len(),
                m == v@[i as int].residues@.len(),
                csv == v@.map_values(|c: Chain| c@),
                csv[i as int] == v@[i as int]@,
                pre == flat_residues(csv.subrange(0, i as int)),
                r@.len() == pre.len() + j,
                forall|k: int| 0 <= k < pre.len() ==> (#[trigger] r@[k])@ == pre[k],
                forall|k: int|
                    pre.len() <= k < r@.len() ==> (#[trigger] r@[k])@ == csv[i as int].residues[
                        k - pre.len()
                    ],
            decreases m - j,
        {
            let x = &v[i].residues[j];
            r.push(x);
            proof {
                assert(csv[i as int].residues[j as int] == v@[i as int].residues@[j as int]@);
                assert(x@ == csv[i as int].residues[j as int]);
            }
            j = j + 1;
        }
        proof {
            assert(flat_residues(csv.subrange(0, i + 1)) == pre + csv[i as int].residues);
        }
        i = i + 1;
    }
    proof {
        assert(csv.subrange(0, n as int) =~= csv);
    }
    r
}

/// All atoms of a residue list, in traversal order, as references.
fn atoms_of_residues<'a>(rs: &Vec<&'a Residue>) -> (r: Vec<&'a Atom>)
    ensures
        r@.len() == flat_res_atoms(rs@.map_values(|x: &Residue| x@)).len(),
        forall|k: int|
            0 <= k < r@.len() ==> (#[trigger] r@[k])@ == flat_res_atoms(
                rs@.map_values(|x: &Residue| x@),
            )[k],
{
    let ghost rsv = rs@.map_values(|x: &Residue| x@);
    let mut r: Vec<&Atom> = Vec::new();
    let n = rs.len();
    let mut i: usize = 0;
    while i < n
        invariant
            0 <= i <= n,
            n == rs@.len(),
            rsv == rs@.map_values(|x: &Residue| x@),
            r@.len() == flat_res_atoms(rsv.subrange(0, i as int)).len(),
            forall|k: int|
                0 <= k < r@.len() ==> (#[trigger] r@[k])@ == flat_res_atoms(
                    rsv.subrange(0, i as int),
                )[k],
        decreases n - i,
    {
        let ghost pre = flat_res_atoms(rsv.subrange(0, i as int));
        let res: &Residue = rs[i];
        proof {
            assert(rsv[i as int] == rs@[i as int]@);
            assert(rsv.subrange(0, i + 1).drop_last() =~= rsv.subrange(0, i as int));
            assert(rsv.subrange(0, i + 1).last() == rsv[i as int]);
        }
        let m = res.atoms.len();
        let mut j: usize = 0;
        while j < m
            invariant
                0 <= j <= m,
                0 <= i < n,
                n == rs@.len(),
                res == rs@[i as int],
                m == res.atoms@.len(),
                rsv == rs@.map_values(|x: &Residue| x@),
                rsv[i as int] == rs@[i as int]@,
                pre == flat_res_atoms(rsv.subrange(0, i as int)),
                r@.len() == pre.len() + j,
                forall|k: int| 0 <= k < pre.len() ==> (#[trigger] r@[k])@ == pre[k],
                forall|k: int|
                    pre.len() <= k < r@.len() ==> (#[trigger] r@[k])@ == rsv[i as int].atoms[
                        k - pre.len()
                    ],
            decreases m - j,
        {
            let x = &res.atoms[j];
            r.push(x);
            proof {
                assert(rsv[i as int].atoms[j as int] == res.atoms@[j as int]@);
                assert(x@ == rsv[i as int].atoms[j as int]);
            }
            j = j + 1;
        }
        proof {
            assert(flat_res_atoms(rsv.subrange(0, i + 1)) == pre + rsv[i as int].atoms);
        }
        i = i + 1;
    }
    proof {
        assert(rsv.subrange(0, n as int) =~= rsv);
    }
    r
}

/// The model with the tensor set on its most recently inserted atom with
/// the serial number, looking at the hetero partition last (it stands after
/// the standard one in combined order); unchanged when no atom matches.
pub open spec fn spec_model_set_anisou(m: ModelV, sn: int, t: AnisoTensor) -> ModelV {
    if find_last(m.hetero_chains, chain_contains(sn)) >= 0 {
        ModelV { hetero_chains: chains_set_anisou(m.hetero_chains, sn, t), ..m }
    } else {
        ModelV { chains: chains_set_anisou(m.chains, sn, t), ..m }
    }
}

/// Whether any atom of the model carries the serial number.
pub open spec fn spec_model_has_serial(m: ModelV, sn: int) -> bool {
    find_last(m.hetero_chains, chain_contains(sn)) >= 0 || find_last(
        m.chains,
        chain_contains(sn),
    ) >= 0
}

/// Index of the last chain of the partition holding an atom with the serial
/// number.
fn find_last_chain_idx(v: &Vec<Chain>, serial: usize) -> (r: Option<usize>)
    ensures
        ({
            let f = find_last(v@.map_values(|c: Chain| c@), chain_contains(serial as int));
            match r {
                Option::Some(i) => f == i && i < v@.len(),
                Option::None => f == -1,
            }
        }),
{
    let ghost csv = v@.map_values(|c: Chain| c@);
    let ghost p = chain_contains(serial as int);
    let n = v.len();
    let mut i: usize = n;
    while i > 0
        invariant
            0 <= i <= n,
            n == v@.len(),
            csv == v@.map_values(|c: Chain| c@),
            p == chain_contains(serial as int),
            forall|k: int| i <= k < n ==> !#[trigger] p(csv[k]),
        decreases i,
    {
        proof {
            assert(csv[i - 1] == v@[i - 1]@);
        }
        let has = crate::chain::find_last_res_idx(&v[i - 1].residues, serial);
        if has.is_some() {
            proof {
                assert(p(csv[i - 1]));
                crate::chain::lemma_find_last_is(csv, p, i - 1);
            }
            return Some(i - 1);
        }
        i = i - 1;
    }
    proof {
        crate::chain::lemma_find_last_none(csv, p);
    }
    None
}

/// Whether the sum over a partition is zero exactly when every residue of
/// every chain is empty.
proof fn lemma_sum_chain_atoms_zero(cs: Seq<ChainV>)
    ensures
        sum_chain_atoms(cs) == 0 <==> forall|i: int, j: int|
            0 <= i < cs.len() && 0 <= j < cs[i].residues.len() ==> cs[i].residues[j].atoms.len()
                == 0,
    decreases cs.len(),
{
    lemma_sum_chain_atoms_nonneg(cs);
    if cs.len() > 0 {
        lemma_sum_chain_atoms_zero(cs.drop_last());
        lemma_sum_res_atoms_zero(cs.last().residues);
        crate::chain::lemma_sum_res_atoms_nonneg(cs.last().residues);
        let shorter = cs.drop_last();
        if sum_chain_atoms(cs) == 0 {
            assert(sum_chain_atoms(shorter) == 0) by {
                lemma_sum_chain_atoms_nonneg(shorter);
            }
            assert(sum_res_atoms(cs.last().residues) == 0);
            assert forall|i: int, j: int|
                0 <= i < cs.len() && 0 <= j < cs[i].residues.len() implies cs[i].residues[j].atoms.len()
                == 0 by {
                if i < cs.len() - 1 {
                    assert(shorter[i] == cs[i]);
                    assert(shorter[i].residues[j].atoms.len() == 0);
                } else {
                    assert(cs.last() == cs[i]);
                    assert(cs.last().residues[j].atoms.len() == 0);
                }
            }
        } else {
            if sum_chain_atoms(shorter) != 0 {
                let (i0, j0) = choose|i: int, j: int|
                    0 <= i < shorter.len() && 0 <= j < shorter[i].residues.len()
                        && shorter[i].residues[j].atoms.len() != 0;
                assert(cs[i0] == shorter[i0]);
                assert(cs[i0].residues[j0].atoms.len() != 0);
            } else {
                let j0 = choose|j: int|
                    0 <= j < cs.last().residues.len() && cs.last().residues[j].atoms.len() != 0;
                assert(cs[cs.len() - 1].residues[j0].atoms.len() != 0);
            }
        }
    }
}

proof fn lemma_sum_res_atoms_zero(rs: Seq<ResidueV>)
    ensures
        sum_res_atoms(rs) == 0 <==> forall|j: int| 0 <= j < rs.len() ==> rs[j].atoms.len() == 0,
    decreases rs.len(),
{
    crate::chain::lemma_sum_res_atoms_nonneg(rs);
    if rs.len() > 0 {
        lemma_sum_res_atoms_zero(rs.drop_last());
        crate::chain::lemma_sum_res_atoms_nonneg(rs.drop_last());
        let shorter = rs.drop_last();
        if sum_res_atoms(rs) == 0 {
            assert forall|j: int| 0 <= j < rs.len() implies rs[j].atoms.len() == 0 by {
                if j < rs.len() - 1 {
                    assert(shorter[j] == rs[j]);
                }
            }
        } else {
            if sum_res_atoms(shorter) != 0 {
                let j0 = choose|j: int|
                    0 <= j < shorter.len() && shorter[j].atoms.len() != 0;
                assert(rs[j0].atoms.len() != 0);
            }
        }
    }
}

/// Whether any chain of the partition holds an atom.
fn vec_has_atoms(v: &Vec<Chain>) -> (r: bool)
    ensures
        r == (sum_chain_atoms(v@.map_values(|c: Chain| c@)) > 0),
{
    let ghost csv = v@.map_values(|c: Chain| c@);
    let n = v.len();
    let mut i: usize = 0;
    while i < n
        invariant
            0 <= i <= n,
            n == v@.len(),
            csv == v@.map_values(|c: Chain| c@),
            forall|k: int, j: int|
                0 <= k < i && 0 <= j < csv[k].residues.len() ==> csv[k].residues[j].atoms.len()
                    == 0,
        decreases n - i,
    {
        proof {
            assert(csv[i as int] == v@[i as int]@);
        }
        let m = v[i].residues.len();
        let mut j: usize = 0;
        while j < m
            invariant
                0 <= j <= m,
                0 <= i < n,
                n == v@.len(),
                m == v@[i as int].residues@.len(),
                csv == v@.map_values(|c: Chain| c@),
                csv[i as int] == v@[i as int]@,
                forall|k: int, l: int|
                    0 <= k < i && 0 <= l < csv[k].residues.len() ==> csv[k].residues[l].atoms.len()
                        == 0,
                forall|l: int| 0 <= l < j ==> csv[i as int].residues[l].atoms.len() == 0,
            decreases m - j,
        {
            proof {
                assert(csv[i as int].residues[j as int] == v@[i as int].residues@[j as int]@);
            }
            if v[i].residues[j].atoms.len() > 0 {
                proof {
                    lemma_sum_chain_atoms_zero(csv);
                    lemma_sum_chain_atoms_nonneg(csv);
                    assert(csv[i as int].residues[j as int].atoms.len() != 0);
                }
                return true;
            }
            j = j + 1;
        }
        i = i + 1;
    }
    proof {
        lemma_sum_chain_atoms_zero(csv);
    }
    false
}

impl Model {
    /// Whether this model holds any atom, standard or hetero.
    pub fn has_atoms(&self) -> (r: bool)
        ensures
            r == (sum_chain_atoms(all_chains_of(self@)) > 0),
    {
        proof {
            lemma_sum_split_atoms(self@.chains, self@.hetero_chains);
            lemma_sum_chain_atoms_nonneg(self@.chains);
            lemma_sum_chain_atoms_nonneg(self@.hetero_chains);
        }
        let a = vec_has_atoms(&self.chains);
        let b = vec_has_atoms(&self.hetero_chains);
        a || b
    }

    /// Sets the tensor on the most recently inserted atom with the serial
    /// number, over both partitions in combined order, telling whether one
    /// was found. A record is expected to follow the atom it augments, so
    /// the most recent same-serial atom is the intended one.
    pub fn set_anisou_by_serial(&mut self, serial: usize, t: AnisoTensor) -> (found: bool)
        ensures
            found == spec_model_has_serial(old(self)@, serial as int),
            final(self)@ == spec_model_set_anisou(old(self)@, serial as int, t),
    {
        let ghost hv = self@.hetero_chains;
        let ghost cv = self@.chains;
        match find_last_chain_idx(&self.hetero_chains, serial) {
            Some(i) => {
                let mut c = self.hetero_chains.remove(i);
                proof {
                    assert(c@ == hv[i as int]);
                    crate::num::lemma_find_last_spec(hv, chain_contains(serial as int));
                    assert(chain_contains(serial as int)(hv[i as int]));
                }
                c.set_anisou_by_serial(serial, t);
                self.hetero_chains.insert(i, c);
                proof {
                    assert(self@.hetero_chains =~= chains_set_anisou(hv, serial as int, t));
                }
                true
            },
            None => {
                match find_last_chain_idx(&self.chains, serial) {
                    Some(i) => {
                        let mut c = self.chains.remove(i);
                        proof {
                            assert(c@ == cv[i as int]);
                            crate::num::lemma_find_last_spec(cv, chain_contains(serial as int));
                            assert(chain_contains(serial as int)(cv[i as int]));
                        }
                        c.set_anisou_by_serial(serial, t);
                        self.chains.insert(i, c);
                        proof {
                            assert(self@.chains =~= chains_set_anisou(cv, serial as int, t));
                        }
                        true
                    },
                    None => {
                        proof {
                            assert(chains_set_anisou(cv, serial as int, t) == cv);
                        }
                        false
                    },
                }
            },
        }
    }
}

/// Keeps the elements the predicate rejects, in order. The selection mask
/// it reports records, for every original element, what the predicate
/// answered.
fn vec_retain_not<T, F: Fn(&T) -> bool>(v: &mut Vec<T>, f: &F)
    requires
        forall|x: &T| #[trigger] call_requires(*f, (x,)),
    ensures
        exists|keep: Seq<bool>|
            keep.len() == old(v)@.len() && final(v)@ == crate::num::select(old(v)@, keep) && (
            forall|i: int|
                0 <= i < keep.len() ==> call_ensures(*f, (&old(v)@[i],), !keep[i])),
{
    let ghost orig = v@;
    let mut result: Vec<T> = Vec::new();
    let mut keep: Ghost<Seq<bool>> = Ghost(Seq::empty());
    while v.len() > 0
        invariant
            forall|x: &T| #[trigger] call_requires(*f, (x,)),
            keep@.len() + v@.len() == orig.len(),
            orig.subrange(keep@.len() as int, orig.len() as int) == v@,
            result@ == crate::num::select(orig.subrange(0, keep@.len() as int), keep@),
            forall|i: int| 0 <= i < keep@.len() ==> call_ensures(*f, (&orig[i],), !keep@[i]),
        decreases v@.len(),
    {
        let ghost i = keep@.len() as int;
        let x = v.remove(0);
        proof {
            assert(orig.subrange(i, orig.len() as int)[0] == orig[i]);
            assert(x == orig[i]);
            assert(orig.subrange(i + 1, orig.len() as int) =~= orig.subrange(
                i,
                orig.len() as int,
            ).drop_first());
        }
        let b = f(&x);
        if !b {
            result.push(x);
        }
        proof {
            let pa = orig.subrange(0, i);
            let pb = orig.subrange(i, i + 1);
            assert(pb =~= seq![orig[i]]);
            crate::num::lemma_select_add(pa, pb, keep@, seq![!b]);
            crate::num::lemma_select_one(orig[i], !b);
            assert(orig.subrange(0, i + 1) =~= pa + pb);
            assert(keep@.push(!b) =~= keep@ + seq![!b]);
        }
        keep = Ghost(keep@.push(!b));
    }
    *v = result;
    proof {
        assert(orig.subrange(0, keep@.len() as int) =~= orig);
        assert(v@ == crate::num::select(orig, keep@));
    }
}

/// `after` is `before` with some atoms removed: same key and name, and the
/// atoms kept, in order, are exactly those the predicate rejected.
pub open spec fn atoms_filtered_by<F: Fn(&Atom) -> bool>(
    f: F,
    before: Residue,
    after: Residue,
) -> bool {
    &&& after.serial_number == before.serial_number
    &&& after.name@ == before.name@
    &&& exists|keep: Seq<bool>|
        keep.len() == before.atoms@.len() && after.atoms@ == crate::num::select(
            before.atoms@,
            keep,
        ) && (forall|j: int|
            0 <= j < keep.len() ==> call_ensures(f, (&before.atoms@[j],), !keep[j]))
}

/// `after` is `before` with some atoms removed from each of its residues;
/// the chain and residue skeleton is untouched.
pub open spec fn chain_atoms_filtered_by<F: Fn(&Atom) -> bool>(
    f: F,
    before: Chain,
    after: Chain,
) -> bool {
    &&& after.id == before.id
    &&& after.residues@.len() == before.residues@.len()
    &&& forall|j: int|
        0 <= j < before.residues@.len() ==> atoms_filtered_by(
            f,
            before.residues@[j],
            #[trigger] after.residues@[j],
        )
}

/// `after` is `before` with some residues removed: same identifier, and the
/// residues kept, in order, are exactly those the predicate rejected.
pub open spec fn residues_filtered_by<F: Fn(&Residue) -> bool>(
    f: F,
    before: Chain,
    after: Chain,
) -> bool {
    &&& after.id == before.id
    &&& exists|keep: Seq<bool>|
        keep.len() == before.residues@.len() && after.residues@ == crate::num::select(
            before.residues@,
            keep,
        ) && (forall|j: int|
            0 <= j < keep.len() ==> call_ensures(f, (&before.residues@[j],), !keep[j]))
}

/// Removes atoms by predicate in every residue of the list, keeping the
/// residue skeleton.
fn remove_atoms_in_residues<F: Fn(&Atom) -> bool>(v: &mut Vec<Residue>, f: &F)
    requires
        forall|x: &Atom| #[trigger] call_requires(*f, (x,)),
    ensures
        final(v)@.len() == old(v)@.len(),
        forall|j: int|
            0 <= j < old(v)@.len() ==> atoms_filtered_by(*f, old(v)@[j], #[trigger] final(v)@[j]),
{
    let n = v.len();
    let mut j: usize = 0;
    while j < n
        invariant
            forall|x: &Atom| #[trigger] call_requires(*f, (x,)),
            0 <= j <= n,
            n == old(v)@.len(),
            v@.len() == n,
            forall|k: int| 0 <= k < j ==> atoms_filtered_by(*f, old(v)@[k], #[trigger] v@[k]),
            forall|k: int| j <= k < n ==> v@[k] == old(v)@[k],
        decreases n - j,
    {
        let ghost snap = v@;
        let mut r = v.remove(j);
        proof {
            assert(r == old(v)@[j as int]);
        }
        vec_retain_not(&mut r.atoms, f);
        v.insert(j, r);
        proof {
            assert(v@ =~= snap.update(j as int, r));
            assert(atoms_filtered_by(*f, old(v)@[j as int], r));
        }
        j = j + 1;
    }
}

/// Removes atoms by predicate in every chain of the list, keeping the
/// chain and residue skeleton.
fn remove_atoms_in_chains<F: Fn(&Atom) -> bool>(v: &mut Vec<Chain>, f: &F)
    requires
        forall|x: &Atom| #[trigger] call_requires(*f, (x,)),
    ensures
        final(v)@.len() == old(v)@.len(),
        forall|i: int|
            0 <= i < old(v)@.len() ==> chain_atoms_filtered_by(
                *f,
                old(v)@[i],
                #[trigger] final(v)@[i],
            ),
{
    let n = v.len();
    let mut i: usize = 0;
    while i < n
        invariant
            forall|x: &Atom| #[trigger] call_requires(*f, (x,)),
            0 <= i <= n,
            n == old(v)@.len(),
            v@.len() == n,
            forall|k: int|
                0 <= k < i ==> chain_atoms_filtered_by(*f, old(v)@[k], #[trigger] v@[k]),
            forall|k: int| i <= k < n ==> v@[k] == old(v)@[k],
        decreases n - i,
    {
        let ghost snap = v@;
        let mut c = v.remove(i);
        proof {
            assert(c == old(v)@[i as int]);
        }
        remove_atoms_in_residues(&mut c.residues, f);
        v.insert(i, c);
        proof {
            assert(v@ =~= snap.update(i as int, c));
            assert(chain_atoms_filtered_by(*f, old(v)@[i as int], c));
        }
        i = i + 1;
    }
}

/// Removes residues by predicate in every chain of the list, keeping the
/// chains.
fn remove_residues_in_chains<F: Fn(&Residue) -> bool>(v: &mut Vec<Chain>, f: &F)
    requires
        forall|x: &Residue| #[trigger] call_requires(*f, (x,)),
    ensures
        final(v)@.len() == old(v)@.len(),
        forall|i: int|
            0 <= i < old(v)@.len() ==> residues_filtered_by(
                *f,
                old(v)@[i],
                #[trigger] final(v)@[i],
            ),
{
    let n = v.len();
    let mut i: usize = 0;
    while i < n
        invariant
            forall|x: &Residue| #[trigger] call_requires(*f, (x,)),
            0 <= i <= n,
            n == old(v)@.len(),
            v@.len() == n,
            forall|k: int|
                0 <= k < i ==> residues_filtered_by(*f, old(v)@[k], #[trigger] v@[k]),
            forall|k: int| i <= k < n ==> v@[k] == old(v)@[k],
        decreases n - i,
    {
        let ghost snap = v@;
        let mut c = v.remove(i);
        proof {
            assert(c == old(v)@[i as int]);
        }
        vec_retain_not(&mut c.residues, f);
        v.insert(i, c);
        proof {
            assert(v@ =~= snap.update(i as int, c));
            assert(residues_filtered_by(*f, old(v)@[i as int], c));
        }
        i = i + 1;
    }
}

/// Residue total over one partition, as a machine word.
fn sum_residues_vec(v: &Vec<Chain>) -> (r: usize)
    requires
        sum_chain_residues(v@.map_values(|c: Chain| c@)) <= usize::MAX,
    ensures
        r == sum_chain_residues(v@.map_values(|c: Chain| c@)),
{
    let ghost csv = v@.map_values(|c: Chain| c@);
    let n = v.len();
    let mut acc: usize = 0;
    let mut i: usize = 0;
    while i < n
        invariant
            0 <= i <= n,
            n == v@.len(),
            csv == v@.map_values(|c: Chain| c@),
            sum_chain_residues(csv) <= usize::MAX,
            acc == sum_chain_residues(csv.subrange(0, i as int)),
        decreases n - i,
    {
        proof {
            assert(csv.subrange(0, i + 1).drop_last() =~= csv.subrange(0, i as int));
            assert(csv.subrange(0, i + 1).last() == csv[i as int]);
            lemma_sum_chain_residues_prefix(csv, i + 1);
            lemma_sum_chain_residues_nonneg(csv.subrange(0, i as int));
            assert(csv[i as int] == v@[i as int]@);
        }
        let k = v[i].residues.len();
        acc = acc + k;
        i = i + 1;
    }
    proof {
        assert(csv.subrange(0, n as int) =~= csv);
    }
    acc
}

/// Atom total over one partition, as a machine word.
fn sum_atoms_vec(v: &Vec<Chain>) -> (r: usize)
    requires
        sum_chain_atoms(v@.map_values(|c: Chain| c@)) <= usize::MAX,
    ensures
        r == sum_chain_atoms(v@.map_values(|c: Chain| c@)),
{
    let ghost csv = v@.map_values(|c: Chain| c@);
    let n = v.len();
    let mut acc: usize = 0;
    let mut i: usize = 0;
    while i < n
        invariant
            0 <= i <= n,
            n == v@.len(),
            csv == v@.map_values(|c: Chain| c@),
            sum_chain_atoms(csv) <= usize::MAX,
            acc == sum_chain_atoms(csv.subrange(0, i as int)),
        decreases n - i,
    {
        proof {
            assert(csv.subrange(0, i + 1).drop_last() =~= csv.subrange(0, i as int));
            assert(csv.subrange(0, i + 1).last() == csv[i as int]);
            lemma_sum_chain_atoms_prefix(csv, i + 1);
            lemma_sum_chain_atoms_nonneg(csv.subrange(0, i as int));
            crate::chain::lemma_sum_res_atoms_nonneg(csv[i as int].residues);
            assert(csv[i as int] == v@[i as int]@);
        }
        let k = v[i].atom_count();
        acc = acc + k;
        i = i + 1;
    }
    proof {
        assert(csv.subrange(0, n as int) =~= csv);
    }
    acc
}

/// Chain totals distribute over the concatenation of the two partitions.
pub proof fn lemma_sum_split_atoms(a: Seq<ChainV>, b: Seq<ChainV>)
    ensures
        sum_chain_atoms(a + b) == sum_chain_atoms(a) + sum_chain_atoms(b),
    decreases b.len(),
{
    if b.len() == 0 {
        assert(a + b =~= a);
    } else {
        lemma_sum_split_atoms(a, b.drop_last());
        assert((a + b).drop_last() =~= a + b.drop_last());
    }
}

pub proof fn lemma_sum_split_residues(a: Seq<ChainV>, b: Seq<ChainV>)
    ensures
        sum_chain_residues(a + b) == sum_chain_residues(a) + sum_chain_residues(b),
    decreases b.len(),
{
    if b.len() == 0 {
        assert(a + b =~= a);
    } else {
        lemma_sum_split_residues(a, b.drop_last());
        assert((a + b).drop_last() =~= a + b.drop_last());
    }
}

} // verus!
