//! Atoms: the leaves of the hierarchical model.

use vstd::prelude::*;

use crate::num::Decimal;

verus! {

/// Characters accepted in names and identifiers: printable ASCII.
pub open spec fn is_valid_id_char(c: char) -> bool {
    ' ' <= c && c <= '~'
}

pub open spec fn valid_id_text(s: Seq<char>) -> bool {
    forall|i: int| 0 <= i < s.len() ==> is_valid_id_char(s[i])
}

/// Checks that every character of `v` is accepted in an identifier.
pub fn check_id_text(v: &Vec<char>) -> (r: bool)
    ensures
        r == valid_id_text(v@),
{
    let n = v.len();
    let mut i: usize = 0;
    while i < n
        invariant
            0 <= i <= n == v@.len(),
            forall|k: int| 0 <= k < i ==> is_valid_id_char(v@[k]),
        decreases n - i,
    {
        let c = v[i];
        if !(c >= ' ' && c <= '~') {
            return false;
        }
        i = i + 1;
    }
    true
}

/// An anisotropic temperature factor tensor: the six encoded integers of the
/// record, each representing the real factor times ten thousand.
#[derive(Clone, Copy, PartialEq, Eq, Structural, Debug)]
pub struct AnisoTensor {
    pub u11: i64,
    pub u12: i64,
    pub u13: i64,
    pub u21: i64,
    pub u22: i64,
    pub u23: i64,
}

/// An atom of the structure.
#[derive(Clone, PartialEq, Eq, Debug)]
pub struct Atom {
    /// Serial number of this atom.
    pub serial_number: usize,
    /// Four-character atom name.
    pub name: Vec<char>,
    /// Alternate-location code.
    pub alt_loc: char,
    /// Position, three exact decimal coordinates.
    pub x: Decimal,
    pub y: Decimal,
    pub z: Decimal,
    /// Occupancy; the format's default when the field is absent is 1.
    pub occupancy: Decimal,
    /// Temperature factor; the format's default when the field is absent is 0.
    pub b_factor: Decimal,
    /// Four-character segment identifier.
    pub segment_id: Vec<char>,
    /// Two-character element symbol.
    pub element: Vec<char>,
    /// Formal charge, a single signed digit.
    pub charge: i64,
    /// Anisotropic temperature factors, when a matching record supplied them.
    pub anisotropic: Option<AnisoTensor>,
}

/// Mathematical value of an [`Atom`].
pub struct AtomV {
    pub serial_number: int,
    pub name: Seq<char>,
    pub alt_loc: char,
    pub x: Decimal,
    pub y: Decimal,
    pub z: Decimal,
    pub occupancy: Decimal,
    pub b_factor: Decimal,
    pub segment_id: Seq<char>,
    pub element: Seq<char>,
    pub charge: int,
    pub anisotropic: Option<AnisoTensor>,
}

impl View for Atom {
    type V = AtomV;

    open spec fn view(&self) -> AtomV {
        AtomV {
            serial_number: self.serial_number as int,
            name: self.name@,
            alt_loc: self.alt_loc,
            x: self.x,
            y: self.y,
            z: self.z,
            occupancy: self.occupancy,
            b_factor: self.b_factor,
            segment_id: self.segment_id@,
            element: self.element@,
            charge: self.charge as int,
            anisotropic: self.anisotropic,
        }
    }
}

/// The shape an atom's text fields must have: fixed widths, printable ASCII.
pub open spec fn atom_fields_valid(
    name: Seq<char>,
    alt_loc: char,
    segment_id: Seq<char>,
    element: Seq<char>,
) -> bool {
    &&& name.len() == 4 && valid_id_text(name)
    &&& is_valid_id_char(alt_loc)
    &&& segment_id.len() == 4 && valid_id_text(segment_id)
    &&& element.len() == 2 && valid_id_text(element)
}

impl Atom {
    /// Builds an atom, or yields nothing when a text field has the wrong
    /// width or holds a character outside the accepted set.
    #[allow(clippy::too_many_arguments)]
    pub fn new(
        serial_number: usize,
        name: Vec<char>,
        alt_loc: char,
        x: Decimal,
        y: Decimal,
        z: Decimal,
        occupancy: Decimal,
        b_factor: Decimal,
        segment_id: Vec<char>,
        element: Vec<char>,
        charge: i64,
    ) -> (r: Option<Atom>)
        ensures
            r is Some <==> atom_fields_valid(name@, alt_loc, segment_id@, element@),
            r is Some ==> r->0@ == (AtomV {
                serial_number: serial_number as int,
                name: name@,
                alt_loc,
                x,
                y,
                z,
                occupancy,
                b_factor,
                segment_id: segment_id@,
                element: element@,
                charge: charge as int,
                anisotropic: Option::None,
            }),
    {
        if name.len() != 4 || !check_id_text(&name) {
            return None;
        }
        if !(alt_loc >= ' ' && alt_loc <= '~') {
            return None;
        }
        if segment_id.len() != 4 || !check_id_text(&segment_id) {
            return None;
        }
        if element.len() != 2 || !check_id_text(&element) {
            return None;
        }
        Some(
            Atom {
                serial_number,
                name,
                alt_loc,
                x,
                y,
                z,
                occupancy,
                b_factor,
                segment_id,
                element,
                charge,
                anisotropic: None,
            },
        )
    }

    /// The serial number of this atom.
    pub fn serial_number(&self) -> (r: usize)
        ensures
            r == self.serial_number,
    {
        self.serial_number
    }

    /// Sets the anisotropic temperature factor tensor.
    pub fn set_anisotropic_temperature_factors(&mut self, factors: AnisoTensor)
        ensures
            *final(self) == (Atom { anisotropic: Some(factors), ..*old(self) }),
    {
        self.anisotropic = Some(factors);
    }

    /// The anisotropic temperature factor tensor, when one was supplied.
    pub fn anisotropic_temperature_factors(&self) -> (r: Option<AnisoTensor>)
        ensures
            r == self.anisotropic,
    {
        self.anisotropic
    }
}

} // verus!
