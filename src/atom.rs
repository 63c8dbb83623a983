use vstd::prelude::*;

use crate::element::{valid_atomic_number, Element};

verus! {

/// An atom: an element together with its neutron and electron counts
/// and an optional oxidation state.
#[derive(Clone, Copy, Debug, PartialEq, Eq, Structural)]
pub struct Atom {
    pub element: Element,
    pub neutrons: u8,
    /// Equal to the proton count unless the atom is ionized.
    pub electrons: u8,
    pub oxidation: Option<i8>,
}

impl Atom {
    /// Well-formed atoms are of a known element.
    pub open spec fn wf(&self) -> bool {
        self.element.wf()
    }

    /// The atomic number of the atom's element.
    pub open spec fn spec_number(&self) -> u8 {
        self.element.number
    }

    /// A neutral atom of the element with atomic number `element_num`,
    /// with no neutrons counted and no oxidation state.
    pub fn new(element_num: u8) -> (r: Self)
        requires
            valid_atomic_number(element_num as int),
        ensures
            r.wf(),
            r.element.number == element_num,
            r.electrons == element_num,
            r.neutrons == 0,
            r.oxidation is None,
    {
        let element = Element::new(element_num);
        Atom { electrons: element.number, element, neutrons: 0, oxidation: None }
    }

    /// The atomic number of the atom's element.
    pub fn number(&self) -> (r: u8)
        ensures
            r == self.spec_number(),
    {
        self.element.number
    }
}

} // verus!
