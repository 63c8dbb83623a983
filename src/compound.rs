use vstd::prelude::*;

use crate::atom::Atom;
use crate::builder::OrganicCompoundBuilder;
use crate::counter::{compound_atoms, count_in, formula, lemma_count_bounded, tally_of, AtomCounter, SLOTS};
use crate::particle::{particle_views, Particle, ParticleView};

verus! {

/// A node of a compound graph: a center atom, the particles attached to it,
/// and the identifiers of the neighboring nodes it is bonded to (its side chains).
#[derive(Debug)]
pub struct Compound {
    pub center: Atom,
    pub substituents: Vec<Particle>,
    pub side_chains: Vec<usize>,
}

/// The mathematical value of a [`Compound`].
pub struct CompoundView {
    pub center: Atom,
    pub substituents: Seq<ParticleView>,
    pub side_chains: Seq<usize>,
}

impl View for Compound {
    type V = CompoundView;

    open spec fn view(&self) -> CompoundView {
        CompoundView {
            center: self.center,
            substituents: particle_views(self.substituents@),
            side_chains: self.side_chains@,
        }
    }
}

/// The views of `s`, in order.
pub open spec fn compound_views(s: Seq<Compound>) -> Seq<CompoundView> {
    s.map_values(|c: Compound| c@)
}

/// A node with center `center` and nothing attached to it.
pub open spec fn empty_node(center: Atom) -> CompoundView {
    CompoundView { center, substituents: Seq::empty(), side_chains: Seq::empty() }
}

impl Compound {
    /// A compound with center atom `center`, no substituents and no side chains.
    pub fn new(center: Atom) -> (r: Self)
        ensures
            r@ == empty_node(center),
    {
        let r = Self { center, substituents: Vec::new(), side_chains: Vec::new() };
        assert(r@.substituents =~= Seq::empty());
        r
    }

    /// A fresh builder session for a carbon skeleton.
    pub fn builder() -> (r: OrganicCompoundBuilder)
        ensures
            r.wf(),
            r@ == crate::builder::fresh_builder(),
    {
        OrganicCompoundBuilder::new()
    }

    /// The condensed formula of this node's own atoms: its center and its substituents.
    pub fn condensed_formula(&self) -> (r: String)
        requires
            compound_atoms(self@).len() <= usize::MAX,
        ensures
            r@ == formula(tally_of(compound_atoms(self@))),
    {
        AtomCounter::from_compound(self).to_formula()
    }
}

/// A copy of `ids`.
fn copy_ids(ids: &Vec<usize>) -> (r: Vec<usize>)
    ensures
        r@ == ids@,
{
    let mut r: Vec<usize> = Vec::new();
    let mut i: usize = 0;
    while i < ids.len()
        invariant
            i <= ids@.len(),
            r@ == ids@.subrange(0, i as int),
        decreases ids@.len() - i,
    {
        r.push(ids[i]);
        i = i + 1;
        assert(r@ =~= ids@.subrange(0, i as int));
    }
    assert(ids@.subrange(0, ids@.len() as int) =~= ids@);
    r
}

impl Clone for Compound {
    fn clone(&self) -> (r: Self)
        ensures
            r@ == self@,
    {
        let mut subs: Vec<Particle> = Vec::new();
        let mut i: usize = 0;
        while i < self.substituents.len()
            invariant
                i <= self.substituents@.len(),
                subs@.len() == i,
                particle_views(subs@) == self@.substituents.subrange(0, i as int),
            decreases self.substituents@.len() - i,
        {
            let p = self.substituents[i].clone();
            let ghost before = subs@;
            subs.push(p);
            i = i + 1;
            assert(subs@ == before.push(p));
            assert(p@ == self.substituents@[i - 1]@);
            assert(particle_views(subs@)[i - 1] == p@);
            assert(particle_views(subs@) =~= self@.substituents.subrange(0, i as int));
        }
        assert(self@.substituents.subrange(0, i as int) =~= self@.substituents);
        let r = Compound { center: self.center, substituents: subs, side_chains: copy_ids(&self.side_chains) };
        assert(r@.substituents == self@.substituents);
        r
    }
}

/// Identifiers of side chains all name nodes of the graph other than the node itself.
pub open spec fn ids_in_range(g: Seq<CompoundView>) -> bool {
    forall|i: int, j: int|
        0 <= i < g.len() && 0 <= j < g[i].side_chains.len() ==> {
            let k = #[trigger] g[i].side_chains[j];
            k < g.len() && k != i
        }
}

/// No node lists the same neighbor twice.
pub open spec fn no_duplicate_links(g: Seq<CompoundView>) -> bool {
    forall|i: int| 0 <= i < g.len() ==> (#[trigger] g[i]).side_chains.no_duplicates()
}

/// Every side-chain link is visible from both of its ends.
pub open spec fn reciprocal(g: Seq<CompoundView>) -> bool {
    forall|i: int, k: int|
        0 <= i < g.len() && 0 <= k < g.len() && (#[trigger] g[i].side_chains.contains(k as usize))
            ==> #[trigger] g[k].side_chains.contains(i as usize)
}

/// The invariant of a compound graph.
pub open spec fn graph_wf(g: Seq<CompoundView>) -> bool {
    &&& g.len() <= usize::MAX
    &&& ids_in_range(g)
    &&& no_duplicate_links(g)
    &&& reciprocal(g)
}

/// Whether `b` is among the side chains of node `a`.
pub open spec fn has_link(g: Seq<CompoundView>, a: int, b: int) -> bool {
    g[a].side_chains.contains(b as usize)
}

/// The graph `g` after linking nodes `a` and `b`: nothing changes when they are the same
/// node or already linked; otherwise each is appended to the other's side chains.
pub open spec fn linked(g: Seq<CompoundView>, a: int, b: int) -> Seq<CompoundView> {
    if a == b || has_link(g, a, b) {
        g
    } else {
        let g1 = g.update(a, CompoundView { side_chains: g[a].side_chains.push(b as usize), ..g[a] });
        g1.update(b, CompoundView { side_chains: g1[b].side_chains.push(a as usize), ..g1[b] })
    }
}

/// Whether `s` holds every side chain of each of its nodes.
pub open spec fn closed_under_links(g: Seq<CompoundView>, s: Set<int>) -> bool {
    forall|i: int, j: int|
        s.contains(i) && 0 <= i < g.len() && 0 <= j < g[i].side_chains.len() ==> s.contains(
            #[trigger] g[i].side_chains[j] as int,
        )
}

/// The nodes reachable from `root` along side chains: those in every set that holds
/// `root` and is closed under side chains.
pub open spec fn reachable(g: Seq<CompoundView>, root: int) -> Set<int> {
    Set::new(
        |i: int|
            0 <= i < g.len() && forall|s: Set<int>|
                #[trigger] closed_under_links(g, s) && s.contains(root) ==> s.contains(i),
    )
}

/// The sum of `w` over the nodes of `s` below `k`.
pub open spec fn weight_below(g: Seq<CompoundView>, s: Set<int>, k: nat, w: spec_fn(CompoundView) -> nat) -> nat
    decreases k,
{
    if k == 0 {
        0
    } else {
        weight_below(g, s, (k - 1) as nat, w) + (if s.contains(k - 1) {
            w(g[k - 1])
        } else {
            0
        })
    }
}

/// The weight of a node that counts its atoms of atomic number `n`.
pub open spec fn count_weight(n: u8) -> spec_fn(CompoundView) -> nat {
    |c: CompoundView| count_in(compound_atoms(c), n)
}

/// The weight of a node that counts all its atoms.
pub open spec fn size_weight() -> spec_fn(CompoundView) -> nat {
    |c: CompoundView| compound_atoms(c).len()
}

/// The weight of one per node.
pub open spec fn unit_weight() -> spec_fn(CompoundView) -> nat {
    |c: CompoundView| 1nat
}

/// The number of atoms of the whole graph.
pub open spec fn graph_atoms(g: Seq<CompoundView>) -> nat {
    weight_below(g, Set::new(|i: int| true), g.len(), size_weight())
}

/// The tally, by atomic number, of the atoms of every node reachable from `root`,
/// each node counted once.
pub open spec fn reach_tally(g: Seq<CompoundView>, root: int) -> Seq<nat> {
    Seq::new(SLOTS as nat, |n: int| weight_below(g, reachable(g, root), g.len(), count_weight(n as u8)))
}

/// Adding a node below `k` to `s` adds its weight.
pub proof fn lemma_weight_insert(g: Seq<CompoundView>, s: Set<int>, k: nat, w: spec_fn(CompoundView) -> nat, i: int)
    requires
        0 <= i < k,
        !s.contains(i),
    ensures
        weight_below(g, s.insert(i), k, w) == weight_below(g, s, k, w) + w(g[i]),
    decreases k,
{
    if i < k - 1 {
        lemma_weight_insert(g, s, (k - 1) as nat, w, i);
    } else {
        lemma_weight_same(g, s.insert(i), s, (k - 1) as nat, w);
    }
}

/// Sets that agree below `k` weigh the same below `k`.
pub proof fn lemma_weight_same(g: Seq<CompoundView>, s: Set<int>, t: Set<int>, k: nat, w: spec_fn(CompoundView) -> nat)
    requires
        forall|i: int| 0 <= i < k ==> (s.contains(i) <==> t.contains(i)),
    ensures
        weight_below(g, s, k, w) == weight_below(g, t, k, w),
    decreases k,
{
    if k > 0 {
        lemma_weight_same(g, s, t, (k - 1) as nat, w);
    }
}

/// A smaller set with a smaller weight weighs less.
pub proof fn lemma_weight_mono(
    g: Seq<CompoundView>,
    s: Set<int>,
    t: Set<int>,
    k: nat,
    w1: spec_fn(CompoundView) -> nat,
    w2: spec_fn(CompoundView) -> nat,
)
    requires
        forall|i: int| 0 <= i < k && s.contains(i) ==> t.contains(i),
        forall|i: int| 0 <= i < k ==> w1(g[i]) <= w2(g[i]),
    ensures
        weight_below(g, s, k, w1) <= weight_below(g, t, k, w2),
    decreases k,
{
    if k > 0 {
        lemma_weight_mono(g, s, t, (k - 1) as nat, w1, w2);
    }
}

/// The empty set weighs nothing.
pub proof fn lemma_weight_zero(g: Seq<CompoundView>, s: Set<int>, k: nat, w: spec_fn(CompoundView) -> nat)
    requires
        forall|i: int| 0 <= i < k ==> !s.contains(i),
    ensures
        weight_below(g, s, k, w) == 0,
    decreases k,
{
    if k > 0 {
        lemma_weight_zero(g, s, (k - 1) as nat, w);
    }
}

/// Counting one per node, no more than `k` nodes lie below `k`.
pub proof fn lemma_weight_unit(g: Seq<CompoundView>, s: Set<int>, k: nat)
    ensures
        weight_below(g, s, k, unit_weight()) <= k,
    decreases k,
{
    if k > 0 {
        lemma_weight_unit(g, s, (k - 1) as nat);
    }
}

/// Why a graph operation was refused.
#[derive(Clone, Copy, Debug, PartialEq, Eq, Structural)]
pub enum GraphError {
    /// The identifier names no node of the graph.
    UnknownNode(usize),
}

/// An arena of compound nodes addressed by stable identifiers (their positions).
/// Nodes are only ever added, and side-chain links are kept reciprocal.
/// Taking `&mut self` makes every mutation exclusive, so two updates never overlap.
#[derive(Debug)]
pub struct CompoundGraph {
    nodes: Vec<Compound>,
}

impl View for CompoundGraph {
    type V = Seq<CompoundView>;

    closed spec fn view(&self) -> Seq<CompoundView> {
        compound_views(self.nodes@)
    }
}

impl CompoundGraph {
    pub open spec fn wf(&self) -> bool {
        graph_wf(self@)
    }

    /// A graph without nodes.
    pub fn new() -> (r: Self)
        ensures
            r@ == Seq::<CompoundView>::empty(),
            r.wf(),
    {
        let r = CompoundGraph { nodes: Vec::new() };
        assert(r@ =~= Seq::<CompoundView>::empty());
        r
    }

    /// The number of nodes.
    pub fn len(&self) -> (r: usize)
        ensures
            r == self@.len(),
    {
        self.nodes.len()
    }

    /// The node with identifier `id`.
    pub fn node(&self, id: usize) -> (r: &Compound)
        requires
            id < self@.len(),
        ensures
            r@ == self@[id as int],
    {
        &self.nodes[id]
    }

    /// Adds a node with center `center` and nothing attached; returns its identifier.
    pub fn add_node(&mut self, center: Atom) -> (id: usize)
        requires
            old(self).wf(),
            old(self)@.len() < usize::MAX,
        ensures
            final(self).wf(),
            id == old(self)@.len(),
            final(self)@ == old(self)@.push(empty_node(center)),
    {
        let c = Compound::new(center);
        self.nodes.push(c);
        let ghost g = self@;
        assert(g =~= old(self)@.push(empty_node(center)));
        assert(ids_in_range(g)) by {
            assert forall|i: int, j: int|
                0 <= i < g.len() && 0 <= j < g[i].side_chains.len() implies {
                    let k = #[trigger] g[i].side_chains[j];
                    k < g.len() && k != i
                } by {
                if i < g.len() - 1 {
                    assert(g[i] == old(self)@[i]);
                }
            }
        }
        assert(reciprocal(g)) by {
            assert forall|i: int, k: int|
                0 <= i < g.len() && 0 <= k < g.len() && (#[trigger] g[i].side_chains.contains(
                    k as usize,
                )) implies #[trigger] g[k].side_chains.contains(i as usize) by {
                assert(i < g.len() - 1);
                assert(g[i] == old(self)@[i]);
                let j = choose|j: int| 0 <= j < g[i].side_chains.len() && g[i].side_chains[j] == k as usize;
                assert(g[i].side_chains[j] < old(self)@.len());
            }
        }
        self.nodes.len() - 1
    }

    /// Appends `particle` to the substituents of node `id`.
    pub fn add_substituent(&mut self, id: usize, particle: Particle) -> (r: Result<(), GraphError>)
        requires
            old(self).wf(),
        ensures
            final(self).wf(),
            id < old(self)@.len() <==> r is Ok,
            r is Err ==> r == Err::<(), GraphError>(GraphError::UnknownNode(id)) && final(self)@
                == old(self)@,
            r is Ok ==> final(self)@ == old(self)@.update(
                id as int,
                CompoundView {
                    substituents: old(self)@[id as int].substituents.push(particle@),
                    ..old(self)@[id as int]
                },
            ),
    {
        if id >= self.nodes.len() {
            return Err(GraphError::UnknownNode(id));
        }
        self.nodes[id].substituents.push(particle);
        let ghost g = self@;
        let ghost want = old(self)@.update(
            id as int,
            CompoundView {
                substituents: old(self)@[id as int].substituents.push(particle@),
                ..old(self)@[id as int]
            },
        );
        assert(g[id as int].substituents =~= want[id as int].substituents);
        assert(g =~= want);
        assert(forall|i: int| 0 <= i < g.len() ==> g[i].side_chains == old(self)@[i].side_chains);
        Ok(())
    }

    /// Whether node `b` is among the side chains of node `a`.
    pub fn has_side_chain(&self, a: usize, b: usize) -> (r: bool)
        requires
            a < self@.len(),
        ensures
            r == has_link(self@, a as int, b as int),
    {
        let sides = &self.nodes[a].side_chains;
        let mut i: usize = 0;
        while i < sides.len()
            invariant
                i <= sides@.len(),
                sides@ == self@[a as int].side_chains,
                forall|j: int| 0 <= j < i ==> sides@[j] != b,
            decreases sides@.len() - i,
        {
            if sides[i] == b {
                return true;
            }
            i = i + 1;
        }
        false
    }

    /// Links nodes `a` and `b` as each other's side chains. Linking a node to itself, or
    /// two nodes that are already linked, changes nothing and succeeds.
    pub fn add_side_chain(&mut self, a: usize, b: usize) -> (r: Result<(), GraphError>)
        requires
            old(self).wf(),
        ensures
            final(self).wf(),
            (a < old(self)@.len() && b < old(self)@.len()) <==> r is Ok,
            a >= old(self)@.len() ==> r == Err::<(), GraphError>(GraphError::UnknownNode(a)),
            a < old(self)@.len() <= b ==> r == Err::<(), GraphError>(GraphError::UnknownNode(b)),
            r is Err ==> final(self)@ == old(self)@,
            r is Ok ==> final(self)@ == linked(old(self)@, a as int, b as int),
    {
        if a >= self.nodes.len() {
            return Err(GraphError::UnknownNode(a));
        }
        if b >= self.nodes.len() {
            return Err(GraphError::UnknownNode(b));
        }
        if a == b || self.has_side_chain(a, b) {
            return Ok(());
        }
        self.nodes[a].side_chains.push(b);
        self.nodes[b].side_chains.push(a);
        proof {
            lemma_linked_wf(old(self)@, a as int, b as int);
            let want = linked(old(self)@, a as int, b as int);
            assert(self@[a as int] == want[a as int]);
            assert(self@[b as int] == want[b as int]);
            assert(self@ =~= want);
        }
        Ok(())
    }

    /// Marks node `j` as seen, schedules it, and counts its atoms.
    fn visit(
        &self,
        j: usize,
        visited: &mut Vec<bool>,
        stack: &mut Vec<usize>,
        counter: &mut AtomCounter,
        Ghost(seen): Ghost<Set<int>>,
    )
        requires
            self.wf(),
            j < self@.len(),
            graph_atoms(self@) <= usize::MAX,
            old(visited)@.len() == self@.len(),
            !seen.contains(j as int),
            forall|i: int| 0 <= i < self@.len() ==> (old(visited)@[i] <==> seen.contains(i)),
            old(counter).wf(),
            forall|n: int|
                0 <= n < SLOTS ==> #[trigger] old(counter)@[n] == weight_below(
                    self@,
                    seen,
                    self@.len(),
                    count_weight(n as u8),
                ),
        ensures
            final(visited)@ == old(visited)@.update(j as int, true),
            final(stack)@ == old(stack)@.push(j),
            final(counter).wf(),
            forall|n: int|
                0 <= n < SLOTS ==> #[trigger] final(counter)@[n] == weight_below(
                    self@,
                    seen.insert(j as int),
                    self@.len(),
                    count_weight(n as u8),
                ),
    {
        let ghost g = self@;
        proof {
            let all = Set::new(|i: int| true);
            lemma_weight_insert(g, seen, g.len(), size_weight(), j as int);
            lemma_weight_mono(g, seen.insert(j as int), all, g.len(), size_weight(), size_weight());
            assert forall|n: int| 0 <= n < SLOTS implies #[trigger] old(counter)@[n] + compound_atoms(
                self.nodes@[j as int]@,
            ).len() <= usize::MAX by {
                assert forall|i: int| 0 <= i < g.len() implies count_weight(n as u8)(g[i]) <= size_weight()(
                    g[i],
                ) by {
                    lemma_count_bounded(compound_atoms(g[i]), n as u8);
                }
                lemma_weight_mono(g, seen, seen, g.len(), count_weight(n as u8), size_weight());
            }
        }
        counter.add_compound(&self.nodes[j]);
        visited.set(j, true);
        stack.push(j);
        proof {
            assert forall|n: int| 0 <= n < SLOTS implies #[trigger] counter@[n] == weight_below(
                g,
                seen.insert(j as int),
                g.len(),
                count_weight(n as u8),
            ) by {
                lemma_weight_insert(g, seen, g.len(), count_weight(n as u8), j as int);
            }
        }
    }

    /// The tally of the atoms of every node reachable from `root` along side chains,
    /// `root` included: each node's center and substituent atoms, each node counted once
    /// however many links lead to it.
    pub fn count_atoms(&self, root: usize) -> (r: AtomCounter)
        requires
            self.wf(),
            root < self@.len(),
            graph_atoms(self@) <= usize::MAX,
        ensures
            r.wf(),
            r@ == reach_tally(self@, root as int),
    {
        let ghost g = self@;
        let ghost all = Set::new(|i: int| true);
        let len = self.nodes.len();
        let mut visited: Vec<bool> = Vec::new();
        while visited.len() < len
            invariant
                visited@.len() <= len,
                len == g.len(),
                forall|i: int| 0 <= i < visited@.len() ==> !visited@[i],
            decreases len - visited@.len(),
        {
            visited.push(false);
        }
        let ghost mut seen: Set<int> = Set::empty();
        let mut counter = AtomCounter::new();
        let mut stack: Vec<usize> = Vec::new();
        proof {
            assert forall|n: int| 0 <= n < SLOTS implies #[trigger] counter@[n] == weight_below(
                g,
                seen,
                len as nat,
                count_weight(n as u8),
            ) by {
                lemma_weight_zero(g, seen, len as nat, count_weight(n as u8));
            }
        }
        proof {
            lemma_weight_zero(g, seen, len as nat, unit_weight());
        }
        self.visit(root, &mut visited, &mut stack, &mut counter, Ghost(seen));
        proof {
            lemma_weight_insert(g, seen, len as nat, unit_weight(), root as int);
            assert(stack@[0] == root);
            assert(stack@.contains(root));
        }
        let ghost mut seen = seen.insert(root as int);
        while stack.len() > 0
            invariant
                self.wf(),
                g == self@,
                len == g.len(),
                graph_atoms(g) <= usize::MAX,
                visited@.len() == len,
                counter.wf(),
                forall|i: int| 0 <= i < len ==> (visited@[i] <==> seen.contains(i)),
                forall|i: int| seen.contains(i) ==> 0 <= i < len,
                seen.contains(root as int),
                forall|i: int| #[trigger] seen.contains(i) ==> reachable(g, root as int).contains(i),
                forall|q: int| 0 <= q < stack@.len() ==> seen.contains(#[trigger] stack@[q] as int),
                forall|i: int, j: int|
                    seen.contains(i) && !stack@.contains(i as usize) && 0 <= j < g[i].side_chains.len()
                        ==> seen.contains(#[trigger] g[i].side_chains[j] as int),
                forall|n: int|
                    0 <= n < SLOTS ==> #[trigger] counter@[n] == weight_below(g, seen, len as nat, count_weight(n as u8)),
            decreases 2 * (len - weight_below(g, seen, len as nat, unit_weight())) + stack@.len(),
        {
            let ghost m0 = 2 * (len - weight_below(g, seen, len as nat, unit_weight())) + stack@.len();
            let ghost stack0 = stack@;
            proof {
                lemma_weight_unit(g, seen, len as nat);
            }
            let i = stack.pop().unwrap();
            assert(stack0 == stack@.push(i));
            let sides = &self.nodes[i].side_chains;
            let mut k: usize = 0;
            while k < sides.len()
                invariant
                    self.wf(),
                    g == self@,
                    len == g.len(),
                    graph_atoms(g) <= usize::MAX,
                    visited@.len() == len,
                    counter.wf(),
                    sides@ == g[i as int].side_chains,
                    seen.contains(i as int),
                    k <= sides@.len(),
                    forall|i: int| 0 <= i < len ==> (visited@[i] <==> seen.contains(i)),
                    forall|i: int| seen.contains(i) ==> 0 <= i < len,
                    seen.contains(root as int),
                    forall|i: int| #[trigger] seen.contains(i) ==> reachable(g, root as int).contains(i),
                    forall|q: int| 0 <= q < stack@.len() ==> seen.contains(#[trigger] stack@[q] as int),
                    forall|x: int, j: int|
                        seen.contains(x) && !stack@.contains(x as usize) && x != i && 0 <= j
                            < g[x].side_chains.len() ==> seen.contains(#[trigger] g[x].side_chains[j] as int),
                    forall|j: int| 0 <= j < k ==> seen.contains(#[trigger] sides@[j] as int),
                    2 * (len - weight_below(g, seen, len as nat, unit_weight())) + stack@.len() < m0,
                    weight_below(g, seen, len as nat, unit_weight()) <= len,
                    forall|n: int|
                        0 <= n < SLOTS ==> #[trigger] counter@[n] == weight_below(g, seen, len as nat, count_weight(n as u8)),
                decreases sides@.len() - k,
            {
                let j = sides[k];
                assert(g[i as int].side_chains[k as int] == j);
                if !visited[j] {
                    let ghost before = stack@;
                    self.visit(j, &mut visited, &mut stack, &mut counter, Ghost(seen));
                    proof {
                        lemma_weight_insert(g, seen, len as nat, unit_weight(), j as int);
                        assert(reachable(g, root as int).contains(j as int)) by {
                            assert(reachable(g, root as int).contains(i as int));
                            assert forall|t: Set<int>| #[trigger]
                                closed_under_links(g, t) && t.contains(root as int) implies t.contains(
                                j as int,
                            ) by {
                                assert(t.contains(i as int));
                                assert(t.contains(g[i as int].side_chains[k as int] as int));
                            }
                        }
                        assert forall|x: usize| #[trigger] before.contains(x) implies stack@.contains(x) by {
                            let q = choose|q: int| 0 <= q < before.len() && before[q] == x;
                            assert(stack@[q] == x);
                        }
                        assert(stack@[stack@.len() - 1] == j);
                        assert(stack@.contains(j));
                        seen = seen.insert(j as int);
                        lemma_weight_unit(g, seen, len as nat);
                    }
                }
                k = k + 1;
            }
        }
        proof {
            let found = seen;
            assert(closed_under_links(g, found));
            assert forall|x: int| reachable(g, root as int).contains(x) implies found.contains(x) by {
                assert(closed_under_links(g, found) && found.contains(root as int) ==> found.contains(x));
            }
            assert(reachable(g, root as int) =~= found);
            assert(counter@ =~= reach_tally(g, root as int));
        }
        counter
    }

    /// The condensed formula of everything reachable from `root` along side chains.
    pub fn condensed_formula(&self, root: usize) -> (r: String)
        requires
            self.wf(),
            root < self@.len(),
            graph_atoms(self@) <= usize::MAX,
        ensures
            r@ == formula(reach_tally(self@, root as int)),
    {
        self.count_atoms(root).to_formula()
    }
}

/// Linking two nodes of a well-formed graph keeps it well-formed.
pub proof fn lemma_linked_wf(g: Seq<CompoundView>, a: int, b: int)
    requires
        graph_wf(g),
        0 <= a < g.len(),
        0 <= b < g.len(),
    ensures
        graph_wf(linked(g, a, b)),
{
    if a != b && !has_link(g, a, b) {
        let h = linked(g, a, b);
        assert(!has_link(g, b, a));
        assert(forall|i: int| 0 <= i < g.len() && i != a && i != b ==> h[i] == g[i]);
        assert(h[a].side_chains == g[a].side_chains.push(b as usize));
        assert(h[b].side_chains == g[b].side_chains.push(a as usize));
        assert(ids_in_range(h)) by {
            assert forall|i: int, j: int|
                0 <= i < h.len() && 0 <= j < h[i].side_chains.len() implies {
                    let k = #[trigger] h[i].side_chains[j];
                    k < h.len() && k != i
                } by {
                if i != a && i != b {
                    assert(h[i].side_chains[j] == g[i].side_chains[j]);
                } else if j < g[i].side_chains.len() {
                    assert(h[i].side_chains[j] == g[i].side_chains[j]);
                }
            }
        }
        assert(reciprocal(h)) by {
            assert forall|i: int, k: int|
                0 <= i < h.len() && 0 <= k < h.len() && (#[trigger] h[i].side_chains.contains(
                    k as usize,
                )) implies #[trigger] h[k].side_chains.contains(i as usize) by {
                let j = choose|j: int| 0 <= j < h[i].side_chains.len() && h[i].side_chains[j] == k as usize;
                if (i == a && k == b) || (i == b && k == a) {
                    assert(h[k].side_chains.last() == i as usize);
                } else {
                    if i == a || i == b {
                        assert(j < g[i].side_chains.len());
                        assert(g[i].side_chains[j] == k as usize);
                    }
                    assert(g[i].side_chains.contains(k as usize));
                    assert(g[k].side_chains.contains(i as usize));
                    let m = choose|m: int| 0 <= m < g[k].side_chains.len() && g[k].side_chains[m] == i as usize;
                    assert(h[k].side_chains[m] == i as usize);
                }
            }
        }
    }
}

/// Linking a node to itself leaves the whole graph, and so the node's own side chains,
/// unchanged.
pub proof fn lemma_self_link_unchanged(g: Seq<CompoundView>, x: int)
    requires
        graph_wf(g),
        0 <= x < g.len(),
    ensures
        linked(g, x, x) == g,
        linked(g, x, x)[x].side_chains.to_set().len() == g[x].side_chains.to_set().len(),
{
}

/// After linking `a` and `b`, each is among the other's side chains.
pub proof fn lemma_link_reciprocal(g: Seq<CompoundView>, a: int, b: int)
    requires
        graph_wf(g),
        0 <= a < g.len(),
        0 <= b < g.len(),
        a != b,
    ensures
        has_link(linked(g, a, b), a, b),
        has_link(linked(g, a, b), b, a),
{
    let h = linked(g, a, b);
    if !has_link(g, a, b) {
        assert(h[a].side_chains.last() == b as usize);
        assert(h[b].side_chains.last() == a as usize);
    }
}

/// Linking `a` to `b` and then `b` to `a` gives the same graph as linking `a` to `b` once.
pub proof fn lemma_link_back_unchanged(g: Seq<CompoundView>, a: int, b: int)
    requires
        graph_wf(g),
        0 <= a < g.len(),
        0 <= b < g.len(),
    ensures
        linked(linked(g, a, b), b, a) == linked(g, a, b),
{
    if a != b {
        lemma_link_reciprocal(g, a, b);
    }
}

} // verus!
