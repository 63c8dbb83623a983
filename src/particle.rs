use vstd::prelude::*;

use crate::atom::Atom;

verus! {

/// What is attached to a compound's center: one atom, or an ordered group of atoms.
#[derive(Debug)]
pub enum Particle {
    Atom(Atom),
    Molecule(Vec<Atom>),
}

/// The mathematical value of a [`Particle`].
pub enum ParticleView {
    Atom(Atom),
    Molecule(Seq<Atom>),
}

impl ParticleView {
    /// The atoms of the particle, in order.
    pub open spec fn atoms(self) -> Seq<Atom> {
        match self {
            ParticleView::Atom(a) => seq![a],
            ParticleView::Molecule(m) => m,
        }
    }
}

impl View for Particle {
    type V = ParticleView;

    open spec fn view(&self) -> ParticleView {
        match self {
            Particle::Atom(a) => ParticleView::Atom(*a),
            Particle::Molecule(m) => ParticleView::Molecule(m@),
        }
    }
}

/// The views of `s`, in order.
pub open spec fn particle_views(s: Seq<Particle>) -> Seq<ParticleView> {
    s.map_values(|p: Particle| p@)
}

impl Particle {
    /// Well-formed particles hold atoms of known elements only.
    pub open spec fn wf(&self) -> bool {
        forall|i: int| 0 <= i < self@.atoms().len() ==> (#[trigger] self@.atoms()[i]).wf()
    }

    /// A particle of a single atom.
    pub fn new_atom(atom: Atom) -> (r: Particle)
        ensures
            r@ == ParticleView::Atom(atom),
    {
        Particle::Atom(atom)
    }

    /// A particle of several atoms, kept in the given order.
    pub fn new_molecule(atoms: Vec<Atom>) -> (r: Particle)
        ensures
            r@ == ParticleView::Molecule(atoms@),
    {
        Particle::Molecule(atoms)
    }
}

/// A copy of `atoms`, atom for atom.
pub fn copy_atoms(atoms: &Vec<Atom>) -> (r: Vec<Atom>)
    ensures
        r@ == atoms@,
{
    let mut r: Vec<Atom> = Vec::new();
    let mut i: usize = 0;
    while i < atoms.len()
        invariant
            i <= atoms@.len(),
            r@ == atoms@.subrange(0, i as int),
        decreases atoms@.len() - i,
    {
        r.push(atoms[i]);
        i = i + 1;
        assert(r@ =~= atoms@.subrange(0, i as int));
    }
    assert(atoms@.subrange(0, atoms@.len() as int) =~= atoms@);
    r
}

impl Clone for Particle {
    fn clone(&self) -> (r: Self)
        ensures
            r@ == self@,
    {
        match self {
            Particle::Atom(a) => Particle::Atom(*a),
            Particle::Molecule(m) => Particle::Molecule(copy_atoms(m)),
        }
    }
}

} // verus!
