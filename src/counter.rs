use vstd::prelude::*;
use vstd::string::StringExecFns;

use crate::atom::Atom;
use crate::compound::{Compound, CompoundView};
use crate::element::{symbol_of, Element, CARBON, HYDROGEN, MAX_ATOMIC_NUMBER};
use crate::particle::{Particle, ParticleView};

verus! {

/// Number of counters kept: one per possible atomic number.
pub const SLOTS: usize = 256;

/// How many atoms of `atoms` have atomic number `n`.
pub open spec fn count_in(atoms: Seq<Atom>, n: u8) -> nat
    decreases atoms.len(),
{
    if atoms.len() == 0 {
        0
    } else {
        count_in(atoms.drop_last(), n) + (if atoms.last().element.number == n {
            1nat
        } else {
            0nat
        })
    }
}

/// The tally of `atoms`: for each atomic number, how many atoms have it.
pub open spec fn tally_of(atoms: Seq<Atom>) -> Seq<nat> {
    Seq::new(SLOTS as nat, |n: int| count_in(atoms, n as u8))
}

/// The atoms of `particles`, in order.
pub open spec fn particles_atoms(particles: Seq<ParticleView>) -> Seq<Atom> {
    particles.map_values(|p: ParticleView| p.atoms()).flatten()
}

/// The atoms of a node: its center, then those of its substituents in order.
pub open spec fn compound_atoms(c: CompoundView) -> Seq<Atom> {
    seq![c.center] + particles_atoms(c.substituents)
}

/// The decimal digit `d`.
pub open spec fn digit_char(d: nat) -> char {
    if d == 0 {
        '0'
    } else if d == 1 {
        '1'
    } else if d == 2 {
        '2'
    } else if d == 3 {
        '3'
    } else if d == 4 {
        '4'
    } else if d == 5 {
        '5'
    } else if d == 6 {
        '6'
    } else if d == 7 {
        '7'
    } else if d == 8 {
        '8'
    } else {
        '9'
    }
}

/// The decimal notation of `n`, without leading zeros.
pub open spec fn decimal(n: nat) -> Seq<char>
    decreases n,
{
    if n < 10 {
        seq![digit_char(n)]
    } else {
        decimal(n / 10).push(digit_char(n % 10))
    }
}

/// One element's part of a formula: nothing when absent, its symbol when it occurs once,
/// its symbol and count otherwise.
pub open spec fn segment(n: u8, count: nat) -> Seq<char> {
    if count == 0 {
        Seq::empty()
    } else if count == 1 {
        symbol_of(n)
    } else {
        symbol_of(n) + decimal(count)
    }
}

/// The parts of the elements with atomic numbers `2..=k` other than carbon, ascending.
pub open spec fn rest_segments(v: Seq<nat>, k: nat) -> Seq<char>
    decreases k,
{
    if k < 2 {
        Seq::empty()
    } else {
        rest_segments(v, (k - 1) as nat) + (if k == CARBON {
            Seq::empty()
        } else {
            segment(k as u8, v[k as int])
        })
    }
}

/// The condensed formula of a tally: carbon first, hydrogen second, then the other
/// elements by ascending atomic number.
pub open spec fn formula(v: Seq<nat>) -> Seq<char> {
    segment(CARBON, v[CARBON as int]) + segment(HYDROGEN, v[HYDROGEN as int]) + rest_segments(
        v,
        MAX_ATOMIC_NUMBER as nat,
    )
}

/// A count can not exceed the number of atoms counted.
pub proof fn lemma_count_bounded(atoms: Seq<Atom>, n: u8)
    ensures
        count_in(atoms, n) <= atoms.len(),
    decreases atoms.len(),
{
    if atoms.len() > 0 {
        lemma_count_bounded(atoms.drop_last(), n);
    }
}

/// Counting over a concatenation adds the counts of its parts.
pub proof fn lemma_count_concat(a: Seq<Atom>, b: Seq<Atom>, n: u8)
    ensures
        count_in(a + b, n) == count_in(a, n) + count_in(b, n),
    decreases b.len(),
{
    if b.len() == 0 {
        assert(a + b =~= a);
    } else {
        lemma_count_concat(a, b.drop_last(), n);
        assert((a + b).drop_last() =~= a + b.drop_last());
        assert((a + b).last() == b.last());
    }
}

/// Flattening a prefix yields no more items than flattening the whole.
pub proof fn lemma_prefix_flatten_len(s: Seq<Seq<Atom>>, k: int)
    requires
        0 <= k <= s.len(),
    ensures
        s.subrange(0, k).flatten().len() <= s.flatten().len(),
    decreases s.len(),
{
    if k < s.len() {
        let front = s.drop_last();
        assert(s =~= front.push(s.last()));
        front.lemma_flatten_push(s.last());
        assert(s.subrange(0, k) =~= front.subrange(0, k));
        lemma_prefix_flatten_len(front, k);
    } else {
        assert(s.subrange(0, k) =~= s);
    }
}

/// The string of the decimal digit `d`.
fn digit_str(d: usize) -> (r: &'static str)
    requires
        d < 10,
    ensures
        r@ == seq![digit_char(d as nat)],
{
    proof {
        reveal_strlit("0");
        reveal_strlit("1");
        reveal_strlit("2");
        reveal_strlit("3");
        reveal_strlit("4");
        reveal_strlit("5");
        reveal_strlit("6");
        reveal_strlit("7");
        reveal_strlit("8");
        reveal_strlit("9");
    }
    match d {
        0 => "0",
        1 => "1",
        2 => "2",
        3 => "3",
        4 => "4",
        5 => "5",
        6 => "6",
        7 => "7",
        8 => "8",
        9 => "9",
        _ => "9",
    }
}

/// Appends the decimal notation of `n` to `out`.
fn push_decimal(out: &mut String, n: usize)
    ensures
        final(out)@ == old(out)@ + decimal(n as nat),
    decreases n,
{
    if n >= 10 {
        push_decimal(out, n / 10);
    }
    out.append(digit_str(n % 10));
    proof {
        if n >= 10 {
            assert(decimal(n as nat) == decimal((n / 10) as nat).push(digit_char((n % 10) as nat)));
        }
        assert(final(out)@ =~= old(out)@ + decimal(n as nat));
    }
}

/// Appends one element's part of a formula to `out`.
fn push_segment(out: &mut String, n: u8, count: usize)
    requires
        1 <= n <= MAX_ATOMIC_NUMBER,
    ensures
        final(out)@ == old(out)@ + segment(n, count as nat),
{
    if count == 0 {
        assert(old(out)@ + segment(n, 0) =~= old(out)@);
        return;
    }
    let e = Element::new(n);
    out.append(e.as_str());
    if count > 1 {
        push_decimal(out, count);
    }
    assert(final(out)@ =~= old(out)@ + segment(n, count as nat));
}

/// A tally of atoms by atomic number.
#[derive(Debug)]
pub struct AtomCounter {
    counts: Vec<usize>,
}

impl View for AtomCounter {
    type V = Seq<nat>;

    closed spec fn view(&self) -> Seq<nat> {
        self.counts@.map_values(|c: usize| c as nat)
    }
}

impl AtomCounter {
    /// Well-formed tallies have one count per possible atomic number.
    pub open spec fn wf(&self) -> bool {
        self@.len() == SLOTS
    }

    /// A tally with every count at zero.
    pub fn new() -> (r: Self)
        ensures
            r.wf(),
            r@ == Seq::new(SLOTS as nat, |n: int| 0nat),
    {
        let mut counts: Vec<usize> = Vec::new();
        let mut i: usize = 0;
        while i < SLOTS
            invariant
                i <= SLOTS,
                counts@.len() == i,
                forall|k: int| 0 <= k < i ==> counts@[k] == 0,
            decreases SLOTS - i,
        {
            counts.push(0);
            i = i + 1;
        }
        let r = AtomCounter { counts };
        assert(r@ =~= Seq::new(SLOTS as nat, |n: int| 0nat));
        r
    }

    /// How many atoms with atomic number `n` were counted.
    pub fn count(&self, n: u8) -> (r: usize)
        requires
            self.wf(),
        ensures
            r == self@[n as int],
    {
        self.counts[n as usize]
    }

    /// Counts one more atom.
    pub fn add_atom(&mut self, atom: Atom)
        requires
            old(self).wf(),
            old(self)@[atom.element.number as int] < usize::MAX,
        ensures
            final(self).wf(),
            final(self)@ == old(self)@.update(
                atom.element.number as int,
                old(self)@[atom.element.number as int] + 1,
            ),
    {
        let n = atom.element.number as usize;
        let c = self.counts[n];
        self.counts.set(n, c + 1);
        assert(self@ =~= old(self)@.update(n as int, old(self)@[n as int] + 1));
    }

    /// Counts each of `atoms`.
    pub fn add_atoms(&mut self, atoms: &Vec<Atom>)
        requires
            old(self).wf(),
            forall|n: int| 0 <= n < SLOTS ==> #[trigger] old(self)@[n] + atoms@.len() <= usize::MAX,
        ensures
            final(self).wf(),
            forall|n: int| 0 <= n < SLOTS ==> #[trigger] final(self)@[n] == old(self)@[n] + count_in(atoms@, n as u8),
    {
        let mut i: usize = 0;
        while i < atoms.len()
            invariant
                i <= atoms@.len(),
                self.wf(),
                forall|n: int| 0 <= n < SLOTS ==> #[trigger] old(self)@[n] + atoms@.len() <= usize::MAX,
                forall|n: int|
                    0 <= n < SLOTS ==> #[trigger] self@[n] == old(self)@[n] + count_in(
                        atoms@.subrange(0, i as int),
                        n as u8,
                    ),
            decreases atoms@.len() - i,
        {
            let a = atoms[i];
            let ghost m = a.element.number as int;
            proof {
                lemma_count_bounded(atoms@.subrange(0, i as int), a.element.number);
                assert(self@[m] == old(self)@[m] + count_in(atoms@.subrange(0, i as int), m as u8));
            }
            let ghost before = self@;
            self.add_atom(a);
            i = i + 1;
            proof {
                let pre = atoms@.subrange(0, i as int);
                assert(pre.drop_last() =~= atoms@.subrange(0, i - 1));
                assert(pre.last() == a);
                assert forall|n: int| 0 <= n < SLOTS implies #[trigger] self@[n] == old(self)@[n]
                    + count_in(pre, n as u8) by {
                    assert(before[n] == old(self)@[n] + count_in(atoms@.subrange(0, i - 1), n as u8));
                }
            }
        }
        assert(atoms@.subrange(0, atoms@.len() as int) =~= atoms@);
    }

    /// Counts every atom of node `c`: its center and its substituents' atoms.
    pub fn add_compound(&mut self, c: &Compound)
        requires
            old(self).wf(),
            forall|n: int| 0 <= n < SLOTS ==> #[trigger] old(self)@[n] + compound_atoms(c@).len() <= usize::MAX,
        ensures
            final(self).wf(),
            forall|n: int|
                0 <= n < SLOTS ==> #[trigger] final(self)@[n] == old(self)@[n] + count_in(compound_atoms(c@), n as u8),
    {
        assert(old(self)@[0] + compound_atoms(c@).len() <= usize::MAX);
        let own = Self::from_compound(c);
        let mut n: usize = 0;
        while n < SLOTS
            invariant
                n <= SLOTS,
                self.wf(),
                own.wf(),
                own@ == tally_of(compound_atoms(c@)),
                forall|m: int| 0 <= m < SLOTS ==> #[trigger] old(self)@[m] + compound_atoms(c@).len() <= usize::MAX,
                forall|m: int|
                    0 <= m < SLOTS ==> #[trigger] self@[m] == old(self)@[m] + (if m < n {
                        count_in(compound_atoms(c@), m as u8)
                    } else {
                        0
                    }),
            decreases SLOTS - n,
        {
            proof {
                lemma_count_bounded(compound_atoms(c@), n as u8);
            }
            let add = own.counts[n];
            let cur = self.counts[n];
            assert(add == own@[n as int]);
            assert(own@[n as int] == count_in(compound_atoms(c@), n as u8));
            assert(cur == self@[n as int]);
            let ghost before = self@;
            self.counts.set(n, cur + add);
            assert(self@ =~= before.update(n as int, (cur + add) as nat));
            n = n + 1;
        }
    }

    /// The tally of a node's own atoms: its center and every atom of its substituents.
    pub fn from_compound(c: &Compound) -> (r: Self)
        requires
            compound_atoms(c@).len() <= usize::MAX,
        ensures
            r.wf(),
            r@ == tally_of(compound_atoms(c@)),
    {
        let mut r = AtomCounter::new();
        r.add_atom(c.center);
        let ghost subs = c@.substituents;
        let ghost total = compound_atoms(c@);
        proof {
            assert(seq![c.center].drop_last() =~= Seq::<Atom>::empty());
            assert(subs.subrange(0, 0).map_values(|p: ParticleView| p.atoms()) =~= Seq::<Seq<Atom>>::empty());
            assert(seq![c.center] + particles_atoms(subs.subrange(0, 0)) =~= seq![c.center]);
            assert forall|n: int| 0 <= n < SLOTS implies #[trigger] r@[n] == count_in(
                seq![c.center] + particles_atoms(subs.subrange(0, 0)),
                n as u8,
            ) by {
                assert(count_in(seq![c.center], n as u8) == count_in(Seq::<Atom>::empty(), n as u8) + (if c.center.element.number == n as u8 { 1nat } else { 0nat }));
            }
        }
        let mut i: usize = 0;
        while i < c.substituents.len()
            invariant
                i <= subs.len(),
                subs == c@.substituents,
                total == compound_atoms(c@),
                total.len() <= usize::MAX,
                r.wf(),
                forall|n: int|
                    0 <= n < SLOTS ==> #[trigger] r@[n] == count_in(
                        seq![c.center] + particles_atoms(subs.subrange(0, i as int)),
                        n as u8,
                    ),
            decreases subs.len() - i,
        {
            let ghost seen = seq![c.center] + particles_atoms(subs.subrange(0, i as int));
            let ghost p = subs[i as int];
            let ghost f = |q: ParticleView| q.atoms();
            proof {
                assert(subs.subrange(0, i + 1).map_values(f) =~= subs.subrange(0, i as int).map_values(f).push(
                    p.atoms(),
                ));
                subs.subrange(0, i as int).map_values(f).lemma_flatten_push(p.atoms());
                assert(seen + p.atoms() =~= seq![c.center] + particles_atoms(subs.subrange(0, i + 1)));
                assert(subs =~= subs.subrange(0, i + 1) + subs.subrange(i + 1, subs.len() as int));
                assert(subs.subrange(0, i + 1).map_values(f) =~= subs.map_values(f).subrange(0, i + 1));
                lemma_prefix_flatten_len(subs.map_values(f), i + 1);
                assert forall|n: int| 0 <= n < SLOTS implies #[trigger] r@[n] + p.atoms().len() <= usize::MAX by {
                    lemma_count_bounded(seen, n as u8);
                }
            }
            let ghost r0 = r@;
            match &c.substituents[i] {
                Particle::Atom(a) => {
                    assert(p.atoms() == seq![*a]);
                    assert(r@[a.element.number as int] + 1 <= usize::MAX);
                    r.add_atom(*a);
                    assert forall|n: int| 0 <= n < SLOTS implies #[trigger] r@[n] == r0[n] + count_in(
                        p.atoms(),
                        n as u8,
                    ) by {
                        assert(seq![*a].drop_last() =~= Seq::<Atom>::empty());
                        assert(count_in(seq![*a], n as u8) == count_in(Seq::<Atom>::empty(), n as u8) + (if a.element.number == n as u8 { 1nat } else { 0nat }));
                    }
                },
                Particle::Molecule(m) => {
                    r.add_atoms(m);
                },
            }
            proof {
                assert forall|n: int| 0 <= n < SLOTS implies #[trigger] r@[n] == count_in(
                    seq![c.center] + particles_atoms(subs.subrange(0, i + 1)),
                    n as u8,
                ) by {
                    lemma_count_concat(seen, p.atoms(), n as u8);
                }
            }
            i = i + 1;
        }
        assert(subs.subrange(0, subs.len() as int) =~= subs);
        assert(r@ =~= tally_of(total));
        r
    }

    /// The condensed formula of the tally: carbon first, hydrogen second, then the other
    /// elements by ascending atomic number; each as its symbol followed by its count,
    /// the count left out when it is one.
    pub fn to_formula(&self) -> (r: String)
        requires
            self.wf(),
        ensures
            r@ == formula(self@),
    {
        let mut out = String::new();
        push_segment(&mut out, CARBON, self.counts[CARBON as usize]);
        push_segment(&mut out, HYDROGEN, self.counts[HYDROGEN as usize]);
        let ghost head = out@;
        assert(head =~= segment(CARBON, self@[CARBON as int]) + segment(HYDROGEN, self@[HYDROGEN as int]));
        let mut k: u8 = 2;
        assert(rest_segments(self@, 1) =~= Seq::<char>::empty());
        while k <= MAX_ATOMIC_NUMBER
            invariant
                2 <= k <= MAX_ATOMIC_NUMBER + 1,
                self.wf(),
                out@ == head + rest_segments(self@, (k - 1) as nat),
            decreases MAX_ATOMIC_NUMBER + 1 - k,
        {
            let ghost before = out@;
            if k != CARBON {
                push_segment(&mut out, k, self.counts[k as usize]);
            }
            assert(out@ =~= head + rest_segments(self@, k as nat));
            k = k + 1;
        }
        assert(out@ =~= formula(self@));
        out
    }
}

} // verus!
