//! Residues and chains, and find-or-create insertion of atoms.
//!
//! Growth is stable and append-only: an upsert never reorders what is
//! already there, it only appends a new chain, a new residue, or an atom.

use vstd::prelude::*;

use crate::atom::{AnisoTensor, Atom, AtomV, is_valid_id_char, valid_id_text};
use crate::num::{find_index, find_last};

verus! {

/// A residue: a named, numbered group of atoms.
#[derive(Clone, PartialEq, Eq, Debug)]
pub struct Residue {
    /// Serial number of this residue; the key the upsert matches on.
    pub serial_number: usize,
    /// Three-character residue name; set when the residue is first created.
    pub name: Vec<char>,
    /// The atoms of this residue, in first-insertion order.
    pub atoms: Vec<Atom>,
}

/// Mathematical value of a [`Residue`].
pub struct ResidueV {
    pub serial_number: int,
    pub name: Seq<char>,
    pub atoms: Seq<AtomV>,
}

impl View for Residue {
    type V = ResidueV;

    open spec fn view(&self) -> ResidueV {
        ResidueV {
            serial_number: self.serial_number as int,
            name: self.name@,
            atoms: self.atoms@.map_values(|a: Atom| a@),
        }
    }
}

/// A chain: an identified ordered sequence of residues.
#[derive(Clone, PartialEq, Eq, Debug)]
pub struct Chain {
    /// Single-character chain identifier.
    pub id: char,
    /// The residues of this chain, in first-insertion order.
    pub residues: Vec<Residue>,
}

/// Mathematical value of a [`Chain`].
pub struct ChainV {
    pub id: char,
    pub residues: Seq<ResidueV>,
}

impl View for Chain {
    type V = ChainV;

    open spec fn view(&self) -> ChainV {
        ChainV { id: self.id, residues: self.residues@.map_values(|r: Residue| r@) }
    }
}

/// A fresh residue holding one atom.
pub open spec fn res_with_atom(rsn: int, rname: Seq<char>, a: AtomV) -> ResidueV {
    ResidueV { serial_number: rsn, name: rname, atoms: seq![a] }
}

/// The residue key the upsert matches on: the serial number alone.
pub open spec fn res_matches(rsn: int) -> spec_fn(ResidueV) -> bool {
    |r: ResidueV| r.serial_number == rsn
}

/// The chain key the upsert matches on: the identifier.
pub open spec fn chain_matches(id: char) -> spec_fn(ChainV) -> bool {
    |c: ChainV| c.id == id
}

/// Find-or-create insertion of an atom into a residue list: the atom joins
/// the first residue with the given serial number, or a fresh residue is
/// appended. The residue name only populates a newly created residue; it is
/// not a matching key.
pub open spec fn residue_upsert(
    rs: Seq<ResidueV>,
    rsn: int,
    rname: Seq<char>,
    a: AtomV,
) -> Seq<ResidueV> {
    let i = find_index(rs, res_matches(rsn));
    if i < 0 {
        rs.push(res_with_atom(rsn, rname, a))
    } else {
        rs.update(i, ResidueV { atoms: rs[i].atoms.push(a), ..rs[i] })
    }
}

/// A fresh chain holding one residue with one atom.
pub open spec fn chain_with_atom(id: char, rsn: int, rname: Seq<char>, a: AtomV) -> ChainV {
    ChainV { id, residues: seq![res_with_atom(rsn, rname, a)] }
}

/// Find-or-create insertion of an atom into a chain list: the atom goes into
/// the first chain with the given identifier, or a fresh chain is appended.
pub open spec fn chain_upsert(
    cs: Seq<ChainV>,
    id: char,
    rsn: int,
    rname: Seq<char>,
    a: AtomV,
) -> Seq<ChainV> {
    let i = find_index(cs, chain_matches(id));
    if i < 0 {
        cs.push(chain_with_atom(id, rsn, rname, a))
    } else {
        cs.update(i, ChainV { residues: residue_upsert(cs[i].residues, rsn, rname, a), ..cs[i] })
    }
}

/// Total atoms over a residue list.
pub open spec fn sum_res_atoms(rs: Seq<ResidueV>) -> int
    decreases rs.len(),
{
    if rs.len() == 0 {
        0
    } else {
        sum_res_atoms(rs.drop_last()) + rs.last().atoms.len()
    }
}

/// Total atoms over a chain list.
pub open spec fn sum_chain_atoms(cs: Seq<ChainV>) -> int
    decreases cs.len(),
{
    if cs.len() == 0 {
        0
    } else {
        sum_chain_atoms(cs.drop_last()) + sum_res_atoms(cs.last().residues)
    }
}

/// Total residues over a chain list.
pub open spec fn sum_chain_residues(cs: Seq<ChainV>) -> int
    decreases cs.len(),
{
    if cs.len() == 0 {
        0
    } else {
        sum_chain_residues(cs.drop_last()) + cs.last().residues.len()
    }
}

pub proof fn lemma_sum_res_atoms_nonneg(rs: Seq<ResidueV>)
    ensures
        sum_res_atoms(rs) >= 0,
    decreases rs.len(),
{
    if rs.len() > 0 {
        lemma_sum_res_atoms_nonneg(rs.drop_last());
    }
}

pub proof fn lemma_sum_chain_atoms_nonneg(cs: Seq<ChainV>)
    ensures
        sum_chain_atoms(cs) >= 0,
    decreases cs.len(),
{
    if cs.len() > 0 {
        lemma_sum_chain_atoms_nonneg(cs.drop_last());
        lemma_sum_res_atoms_nonneg(cs.last().residues);
    }
}

pub proof fn lemma_sum_chain_residues_nonneg(cs: Seq<ChainV>)
    ensures
        sum_chain_residues(cs) >= 0,
    decreases cs.len(),
{
    if cs.len() > 0 {
        lemma_sum_chain_residues_nonneg(cs.drop_last());
    }
}

/// A partial sum never exceeds the whole.
pub proof fn lemma_sum_res_atoms_prefix(rs: Seq<ResidueV>, i: int)
    requires
        0 <= i <= rs.len(),
    ensures
        sum_res_atoms(rs.subrange(0, i)) <= sum_res_atoms(rs),
    decreases rs.len() - i,
{
    if i < rs.len() {
        lemma_sum_res_atoms_prefix(rs, i + 1);
        assert(rs.subrange(0, i + 1).drop_last() =~= rs.subrange(0, i));
    } else {
        assert(rs.subrange(0, i) =~= rs);
    }
}

pub proof fn lemma_sum_chain_atoms_prefix(cs: Seq<ChainV>, i: int)
    requires
        0 <= i <= cs.len(),
    ensures
        sum_chain_atoms(cs.subrange(0, i)) <= sum_chain_atoms(cs),
    decreases cs.len() - i,
{
    if i < cs.len() {
        lemma_sum_chain_atoms_prefix(cs, i + 1);
        assert(cs.subrange(0, i + 1).drop_last() =~= cs.subrange(0, i));
        lemma_sum_res_atoms_nonneg(cs[i].residues);
    } else {
        assert(cs.subrange(0, i) =~= cs);
    }
}

pub proof fn lemma_sum_chain_residues_prefix(cs: Seq<ChainV>, i: int)
    requires
        0 <= i <= cs.len(),
    ensures
        sum_chain_residues(cs.subrange(0, i)) <= sum_chain_residues(cs),
    decreases cs.len() - i,
{
    if i < cs.len() {
        lemma_sum_chain_residues_prefix(cs, i + 1);
        assert(cs.subrange(0, i + 1).drop_last() =~= cs.subrange(0, i));
    } else {
        assert(cs.subrange(0, i) =~= cs);
    }
}

/// Replacing one residue changes the total by the difference at that spot.
pub proof fn lemma_sum_res_atoms_update(rs: Seq<ResidueV>, j: int, r2: ResidueV)
    requires
        0 <= j < rs.len(),
    ensures
        sum_res_atoms(rs.update(j, r2)) == sum_res_atoms(rs) - rs[j].atoms.len()
            + r2.atoms.len(),
    decreases rs.len(),
{
    if j == rs.len() - 1 {
        assert(rs.update(j, r2).drop_last() =~= rs.drop_last());
        assert(rs.update(j, r2).last() == r2);
    } else {
        lemma_sum_res_atoms_update(rs.drop_last(), j, r2);
        assert(rs.update(j, r2).drop_last() =~= rs.drop_last().update(j, r2));
        assert(rs.update(j, r2).last() == rs.last());
        assert(rs.drop_last()[j] == rs[j]);
    }
}

/// Replacing one chain changes the total by the difference at that spot.
pub proof fn lemma_sum_chain_atoms_update(cs: Seq<ChainV>, i: int, c2: ChainV)
    requires
        0 <= i < cs.len(),
    ensures
        sum_chain_atoms(cs.update(i, c2)) == sum_chain_atoms(cs) - sum_res_atoms(cs[i].residues)
            + sum_res_atoms(c2.residues),
    decreases cs.len(),
{
    if i == cs.len() - 1 {
        assert(cs.update(i, c2).drop_last() =~= cs.drop_last());
        assert(cs.update(i, c2).last() == c2);
    } else {
        lemma_sum_chain_atoms_update(cs.drop_last(), i, c2);
        assert(cs.update(i, c2).drop_last() =~= cs.drop_last().update(i, c2));
        assert(cs.update(i, c2).last() == cs.last());
        assert(cs.drop_last()[i] == cs[i]);
    }
}

/// An upsert adds exactly one atom to a residue list.
pub proof fn lemma_residue_upsert_atoms(rs: Seq<ResidueV>, rsn: int, rname: Seq<char>, a: AtomV)
    ensures
        sum_res_atoms(residue_upsert(rs, rsn, rname, a)) == sum_res_atoms(rs) + 1,
{
    crate::num::lemma_find_index_spec(rs, res_matches(rsn));
    let i = find_index(rs, res_matches(rsn));
    if i < 0 {
        let x = res_with_atom(rsn, rname, a);
        assert(rs.push(x).drop_last() =~= rs);
        assert(rs.push(x).last() == x);
        assert(x.atoms.len() == 1);
    } else {
        let r2 = ResidueV { atoms: rs[i].atoms.push(a), ..rs[i] };
        lemma_sum_res_atoms_update(rs, i, r2);
    }
}

/// An upsert adds exactly one atom to a chain list.
pub proof fn lemma_chain_upsert_atoms(
    cs: Seq<ChainV>,
    id: char,
    rsn: int,
    rname: Seq<char>,
    a: AtomV,
)
    ensures
        sum_chain_atoms(chain_upsert(cs, id, rsn, rname, a)) == sum_chain_atoms(cs) + 1,
{
    crate::num::lemma_find_index_spec(cs, chain_matches(id));
    let i = find_index(cs, chain_matches(id));
    if i < 0 {
        let c = chain_with_atom(id, rsn, rname, a);
        assert(cs.push(c).drop_last() =~= cs);
        assert(cs.push(c).last() == c);
        let x = res_with_atom(rsn, rname, a);
        assert(c.residues =~= seq![x]);
        assert(seq![x].drop_last() =~= Seq::<ResidueV>::empty());
        assert(seq![x].last() == x);
        assert(sum_res_atoms(Seq::<ResidueV>::empty()) == 0);
        assert(sum_res_atoms(seq![x]) == sum_res_atoms(seq![x].drop_last())
            + seq![x].last().atoms.len());
        assert(sum_res_atoms(c.residues) == 1);
    } else {
        let c2 = ChainV { residues: residue_upsert(cs[i].residues, rsn, rname, a), ..cs[i] };
        lemma_residue_upsert_atoms(cs[i].residues, rsn, rname, a);
        lemma_sum_chain_atoms_update(cs, i, c2);
    }
}

/// Setting a tensor changes no count.
pub proof fn lemma_chains_set_anisou_atoms(cs: Seq<ChainV>, sn: int, t: AnisoTensor)
    ensures
        sum_chain_atoms(chains_set_anisou(cs, sn, t)) == sum_chain_atoms(cs),
{
    crate::num::lemma_find_last_spec(cs, chain_contains(sn));
    let i = find_last(cs, chain_contains(sn));
    if i >= 0 {
        let c2 = chain_set_anisou(cs[i], sn, t);
        crate::num::lemma_find_last_spec(cs[i].residues, res_contains(sn));
        let j = find_last(cs[i].residues, res_contains(sn));
        if j >= 0 {
            let r = cs[i].residues[j];
            let r2 = res_set_anisou(r, sn, t);
            crate::num::lemma_find_last_spec(r.atoms, atom_matches(sn));
            let k = find_last(r.atoms, atom_matches(sn));
            if k >= 0 {
                assert(r2.atoms == r.atoms.update(
                    k,
                    AtomV { anisotropic: Some(t), ..r.atoms[k] },
                ));
            } else {
                assert(r2 == r);
            }
            assert(r2.atoms.len() == r.atoms.len());
            lemma_sum_res_atoms_update(cs[i].residues, j, r2);
        }
        lemma_sum_chain_atoms_update(cs, i, c2);
    }
}

impl Residue {
    /// The number of atoms of this residue.
    pub fn atom_count(&self) -> (r: usize)
        ensures
            r == self@.atoms.len(),
    {
        self.atoms.len()
    }
}

impl Chain {
    /// A fresh chain with the given identifier, or nothing when the
    /// identifier is not an accepted character.
    pub fn new(id: char) -> (r: Option<Chain>)
        ensures
            r is Some <==> is_valid_id_char(id),
            r is Some ==> r->0@ == (ChainV { id, residues: Seq::<ResidueV>::empty() }),
    {
        if id >= ' ' && id <= '~' {
            let c = Chain { id, residues: Vec::new() };
            proof {
                assert(c@.residues =~= Seq::<ResidueV>::empty());
            }
            Some(c)
        } else {
            None
        }
    }

    /// The identifier of this chain.
    pub fn id(&self) -> (r: char)
        ensures
            r == self.id,
    {
        self.id
    }

    /// The number of residues of this chain.
    pub fn residue_count(&self) -> (r: usize)
        ensures
            r == self@.residues.len(),
    {
        self.residues.len()
    }

    /// The number of atoms of this chain.
    pub fn atom_count(&self) -> (r: usize)
        requires
            sum_res_atoms(self@.residues) <= usize::MAX,
        ensures
            r == sum_res_atoms(self@.residues),
    {
        let ghost rsv = self@.residues;
        let n = self.residues.len();
        let mut acc: usize = 0;
        let mut i: usize = 0;
        while i < n
            invariant
                0 <= i <= n == self.residues@.len(),
                rsv == self@.residues,
                sum_res_atoms(rsv) <= usize::MAX,
                acc == sum_res_atoms(rsv.subrange(0, i as int)),
        decreases n - i,
        {
            proof {
                assert(rsv.subrange(0, i + 1).drop_last() =~= rsv.subrange(0, i as int));
                assert(rsv.subrange(0, i + 1).last() == rsv[i as int]);
                lemma_sum_res_atoms_prefix(rsv, i + 1);
                lemma_sum_res_atoms_nonneg(rsv.subrange(0, i as int));
            }
            let k = self.residues[i].atoms.len();
            proof {
                assert(rsv[i as int].atoms.len() == k);
            }
            acc = acc + k;
            i = i + 1;
        }
        proof {
            assert(rsv.subrange(0, n as int) =~= rsv);
        }
        acc
    }

    /// Find-or-create insertion of an atom: the atom joins the first residue
    /// with the given serial number, or a fresh residue is appended at the
    /// end. Existing residues are never reordered.
    pub fn add_atom(&mut self, new_atom: Atom, residue_serial_number: usize, residue_name: Vec<char>)
        ensures
            final(self).id == old(self).id,
            final(self)@.residues == residue_upsert(
                old(self)@.residues,
                residue_serial_number as int,
                residue_name@,
                new_atom@,
            ),
    {
        let ghost rsv = old(self)@.residues;
        let ghost p = res_matches(residue_serial_number as int);
        let n = self.residues.len();
        let mut i: usize = 0;
        while i < n
            invariant
                0 <= i <= n,
                *self == *old(self),
                rsv == self@.residues,
                n == self.residues@.len(),
                p == res_matches(residue_serial_number as int),
                forall|k: int| 0 <= k < i ==> rsv[k].serial_number != residue_serial_number as int,
            decreases n - i,
        {
            if self.residues[i].serial_number == residue_serial_number {
                proof {
                    assert(p(rsv[i as int]));
                    assert forall|k: int| 0 <= k < i as int implies !p(rsv[k]) by {}
                    lemma_find_index_is(rsv, p, i as int);
                }
                let mut res = self.residues.remove(i);
                res.atoms.push(new_atom);
                self.residues.insert(i, res);
                proof {
                    let after = self@.residues;
                    let expect = rsv.update(
                        i as int,
                        ResidueV { atoms: rsv[i as int].atoms.push(new_atom@), ..rsv[i as int] },
                    );
                    assert(after[i as int].atoms =~= expect[i as int].atoms);
                    assert(after =~= expect);
                }
                return ;
            }
            i = i + 1;
        }
        proof {
            assert forall|k: int| 0 <= k < rsv.len() implies !p(rsv[k]) by {}
            lemma_find_index_none(rsv, p);
        }
        let mut atoms: Vec<Atom> = Vec::new();
        atoms.push(new_atom);
        let res = Residue { serial_number: residue_serial_number, name: residue_name, atoms };
        self.residues.push(res);
        proof {
            assert(res@.atoms =~= seq![new_atom@]);
            assert(self@.residues =~= rsv.push(
                res_with_atom(residue_serial_number as int, residue_name@, new_atom@),
            ));
        }
    }
}

/// The key an anisotropic-factor record matches an atom by.
pub open spec fn atom_matches(sn: int) -> spec_fn(AtomV) -> bool {
    |a: AtomV| a.serial_number == sn
}

/// Whether a residue holds an atom with the given serial number.
pub open spec fn res_contains(sn: int) -> spec_fn(ResidueV) -> bool {
    |r: ResidueV| find_last(r.atoms, atom_matches(sn)) >= 0
}

/// Whether a chain holds an atom with the given serial number.
pub open spec fn chain_contains(sn: int) -> spec_fn(ChainV) -> bool {
    |c: ChainV| find_last(c.residues, res_contains(sn)) >= 0
}

/// The residue with the tensor set on its most recently inserted atom
/// carrying the serial number; unchanged when none does.
pub open spec fn res_set_anisou(r: ResidueV, sn: int, t: AnisoTensor) -> ResidueV {
    let k = find_last(r.atoms, atom_matches(sn));
    if k < 0 {
        r
    } else {
        ResidueV {
            atoms: r.atoms.update(k, AtomV { anisotropic: Some(t), ..r.atoms[k] }),
            ..r
        }
    }
}

/// The chain with the tensor set on its most recently inserted atom carrying
/// the serial number; unchanged when none does.
pub open spec fn chain_set_anisou(c: ChainV, sn: int, t: AnisoTensor) -> ChainV {
    let j = find_last(c.residues, res_contains(sn));
    if j < 0 {
        c
    } else {
        ChainV { residues: c.residues.update(j, res_set_anisou(c.residues[j], sn, t)), ..c }
    }
}

/// The chain list with the tensor set on the most recently inserted matching
/// atom of its last chain that holds one; unchanged when none does.
pub open spec fn chains_set_anisou(cs: Seq<ChainV>, sn: int, t: AnisoTensor) -> Seq<ChainV> {
    let i = find_last(cs, chain_contains(sn));
    if i < 0 {
        cs
    } else {
        cs.update(i, chain_set_anisou(cs[i], sn, t))
    }
}

/// When `p` holds at `i` and nowhere after, `find_last` yields `i`.
pub proof fn lemma_find_last_is<A>(s: Seq<A>, p: spec_fn(A) -> bool, i: int)
    requires
        0 <= i < s.len(),
        p(s[i]),
        forall|k: int| i < k < s.len() ==> !p(s[k]),
    ensures
        crate::num::find_last(s, p) == i,
{
    crate::num::lemma_find_last_spec(s, p);
    let r = crate::num::find_last(s, p);
    if r == -1 {
        assert(!p(s[i]));
    } else if r < i {
        assert(r >= 0);
        assert(forall|k: int| r < k < s.len() ==> !p(s[k]));
        assert(r < i < s.len());
        assert(!p(s[i]));
    } else if r > i {
        assert(i < r < s.len());
        assert(!p(s[r]));
    }
}

/// When `p` holds nowhere, `find_last` yields -1.
pub proof fn lemma_find_last_none<A>(s: Seq<A>, p: spec_fn(A) -> bool)
    requires
        forall|k: int| 0 <= k < s.len() ==> !p(s[k]),
    ensures
        crate::num::find_last(s, p) == -1,
{
    crate::num::lemma_find_last_spec(s, p);
}

/// Index of the most recently inserted atom with the serial number.
pub fn find_last_atom_idx(v: &Vec<Atom>, serial: usize) -> (r: Option<usize>)
    ensures
        ({
            let f = find_last(v@.map_values(|a: Atom| a@), atom_matches(serial as int));
            match r {
                Option::Some(i) => f == i && i < v@.len(),
                Option::None => f == -1,
            }
        }),
{
    let ghost av = v@.map_values(|a: Atom| a@);
    let ghost p = atom_matches(serial as int);
    let n = v.len();
    let mut i: usize = n;
    while i > 0
        invariant
            0 <= i <= n,
            n == v@.len(),
            av == v@.map_values(|a: Atom| a@),
            p == atom_matches(serial as int),
            forall|k: int| i <= k < n ==> av[k].serial_number != serial,
        decreases i,
    {
        if v[i - 1].serial_number == serial {
            proof {
                assert(av[i - 1] == v@[i - 1]@);
                assert(p(av[i - 1]));
                assert forall|k: int| i - 1 < k < av.len() implies !p(av[k]) by {}
                lemma_find_last_is(av, p, i - 1);
            }
            return Some(i - 1);
        }
        proof {
            assert(av[i - 1] == v@[i - 1]@);
        }
        i = i - 1;
    }
    proof {
        assert forall|k: int| 0 <= k < av.len() implies !p(av[k]) by {}
        lemma_find_last_none(av, p);
    }
    None
}

/// Index of the last residue holding an atom with the serial number.
pub fn find_last_res_idx(v: &Vec<Residue>, serial: usize) -> (r: Option<usize>)
    ensures
        ({
            let f = find_last(v@.map_values(|x: Residue| x@), res_contains(serial as int));
            match r {
                Option::Some(i) => f == i && i < v@.len(),
                Option::None => f == -1,
            }
        }),
{
    let ghost rv = v@.map_values(|x: Residue| x@);
    let ghost p = res_contains(serial as int);
    let n = v.len();
    let mut i: usize = n;
    while i > 0
        invariant
            0 <= i <= n,
            n == v@.len(),
            rv == v@.map_values(|x: Residue| x@),
            p == res_contains(serial as int),
            forall|k: int| i <= k < n ==> !#[trigger] p(rv[k]),
        decreases i,
    {
        proof {
            assert(rv[i - 1] == v@[i - 1]@);
        }
        let has = find_last_atom_idx(&v[i - 1].atoms, serial);
        if has.is_some() {
            proof {
                assert(p(rv[i - 1]));
                lemma_find_last_is(rv, p, i - 1);
            }
            return Some(i - 1);
        }
        i = i - 1;
    }
    proof {
        lemma_find_last_none(rv, p);
    }
    None
}

impl Chain {
    /// Sets the tensor on this chain's most recently inserted atom with the
    /// serial number, telling whether one was found.
    pub fn set_anisou_by_serial(&mut self, serial: usize, t: AnisoTensor) -> (found: bool)
        ensures
            found == (find_last(old(self)@.residues, res_contains(serial as int)) >= 0),
            final(self)@ == chain_set_anisou(old(self)@, serial as int, t),
    {
        let ghost rv = self@.residues;
        match find_last_res_idx(&self.residues, serial) {
            Some(j) => {
                let mut r = self.residues.remove(j);
                proof {
                    assert(r@ == rv[j as int]);
                }
                match find_last_atom_idx(&r.atoms, serial) {
                    Some(k) => {
                        let ghost av = r@.atoms;
                        let mut a = r.atoms.remove(k);
                        a.set_anisotropic_temperature_factors(t);
                        r.atoms.insert(k, a);
                        proof {
                            assert(a@ == (AtomV { anisotropic: Some(t), ..av[k as int] }));
                            assert(r@.atoms =~= av.update(
                                k as int,
                                AtomV { anisotropic: Some(t), ..av[k as int] },
                            ));
                            assert(r@ == res_set_anisou(rv[j as int], serial as int, t));
                        }
                    },
                    None => {
                        proof {
                            crate::num::lemma_find_last_spec(rv, res_contains(serial as int));
                            assert(res_contains(serial as int)(rv[j as int]));
                            assert(false);
                        }
                    },
                }
                self.residues.insert(j, r);
                proof {
                    assert(self@.residues =~= rv.update(
                        j as int,
                        res_set_anisou(rv[j as int], serial as int, t),
                    ));
                }
                true
            },
            None => false,
        }
    }
}

/// When `p` holds at `i` and nowhere before, `find_index` yields `i`.
pub proof fn lemma_find_index_is<A>(s: Seq<A>, p: spec_fn(A) -> bool, i: int)
    requires
        0 <= i < s.len(),
        p(s[i]),
        forall|k: int| 0 <= k < i ==> !p(s[k]),
    ensures
        find_index(s, p) == i,
{
    crate::num::lemma_find_index_spec(s, p);
    let r = find_index(s, p);
    if r == -1 {
    } else if r < i {
    } else if r > i {
    }
}

/// When `p` holds nowhere, `find_index` yields -1.
pub proof fn lemma_find_index_none<A>(s: Seq<A>, p: spec_fn(A) -> bool)
    requires
        forall|k: int| 0 <= k < s.len() ==> !p(s[k]),
    ensures
        find_index(s, p) == -1,
{
    crate::num::lemma_find_index_spec(s, p);
}

} // verus!
