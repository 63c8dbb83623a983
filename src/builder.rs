use vstd::prelude::*;

use crate::atom::Atom;
use crate::compound::{empty_node, linked, Compound, CompoundGraph, CompoundView};
use crate::compounds::Compounds;
use crate::element::{ConstructionError, Element, CARBON};

verus! {

/// Why a builder operation was refused.
#[derive(Clone, Copy, Debug, PartialEq, Eq, Structural)]
pub enum BuilderError {
    /// A length was invalid.
    Construction(ConstructionError),
    /// A branch was requested before any primary chain was made.
    UnconfiguredParentChain,
    /// The locant does not name a position of the primary chain.
    InvalidLocant(u8),
}

/// The mathematical state of a builder session.
pub struct BuilderView {
    /// Length of the primary chain made by the first `chain` call (0 before it).
    pub parent: nat,
    /// Number of atom indices reserved so far; the next index handed out.
    pub size: nat,
    /// Indices of the primary chain, in order.
    pub main: Seq<usize>,
    /// For each position of `main`, the branches registered there in insertion order,
    /// each as its first index and its length.
    pub branches: Seq<Seq<(usize, usize)>>,
    /// The bonds between indices, in the order they were made.
    pub bonds: Seq<(usize, usize)>,
}

/// The bonds of a straight path over the `n` indices starting at `start`.
pub open spec fn path_bonds(start: nat, n: nat) -> Seq<(usize, usize)> {
    Seq::new((if n == 0 { 0 } else { n - 1 }) as nat, |j: int| ((start + j) as usize, (start + j + 1) as usize))
}

/// The indices `start`, `start + 1`, ..., `start + n - 1`.
pub open spec fn index_range(start: nat, n: nat) -> Seq<usize> {
    Seq::new(n, |j: int| (start + j) as usize)
}

/// The state after `chain(n)` with `n > 0`: the primary chain grows by `n` fresh indices,
/// bonded in a path to the end of the primary chain.
pub open spec fn chained(s: BuilderView, n: nat) -> BuilderView {
    BuilderView {
        parent: if s.parent == 0 { n } else { s.parent },
        size: s.size + n,
        main: s.main + index_range(s.size, n),
        branches: s.branches + Seq::new(n, |j: int| Seq::<(usize, usize)>::empty()),
        bonds: s.bonds + (if s.main.len() == 0 { Seq::empty() } else { seq![(s.main.last(), s.size as usize)] })
            + path_bonds(s.size, n),
    }
}

/// The state after a successful `chain_at(locant, n)`: a branch of `n` fresh indices is
/// registered after the others at the locant's position and bonded to that atom.
pub open spec fn chained_at(s: BuilderView, locant: nat, n: nat) -> BuilderView {
    let p = locant - 1;
    BuilderView {
        size: s.size + n,
        branches: s.branches.update(p, s.branches[p].push((s.size as usize, n as usize))),
        bonds: s.bonds + seq![(s.main[p], s.size as usize)] + path_bonds(s.size, n),
        ..s
    }
}

/// The state of a fresh session.
pub open spec fn fresh_builder() -> BuilderView {
    BuilderView {
        parent: 0,
        size: 0,
        main: Seq::empty(),
        branches: Seq::empty(),
        bonds: Seq::empty(),
    }
}

/// A neutral carbon atom, as `Atom::new` makes it.
pub open spec fn carbon_atom() -> Atom {
    Atom { element: Element { number: CARBON }, neutrons: 0, electrons: CARBON, oxidation: None }
}

/// `n` carbon nodes with nothing attached.
pub open spec fn carbon_nodes(n: nat) -> Seq<CompoundView> {
    Seq::new(n, |i: int| empty_node(carbon_atom()))
}

/// The graph `g` after linking the pairs of `bonds` one after another.
pub open spec fn link_all(g: Seq<CompoundView>, bonds: Seq<(usize, usize)>) -> Seq<CompoundView>
    decreases bonds.len(),
{
    if bonds.len() == 0 {
        g
    } else {
        let e = bonds.last();
        linked(link_all(g, bonds.drop_last()), e.0 as int, e.1 as int)
    }
}

/// The graph that a session materializes: one carbon node per reserved index,
/// linked along every recorded bond.
pub open spec fn built_graph(s: BuilderView) -> Seq<CompoundView> {
    link_all(carbon_nodes(s.size), s.bonds)
}

/// One item of a built chain: the node of an index, or a branch given by
/// its first index and its length.
pub enum Slot {
    Node(usize),
    Branch(usize, usize),
}

/// The items that follow one another for position `p` of the primary chain:
/// its own node, then its branches in insertion order.
pub open spec fn position_slots(s: BuilderView, p: int) -> Seq<Slot> {
    seq![Slot::Node(s.main[p])] + s.branches[p].map_values(|b: (usize, usize)| Slot::Branch(b.0, b.1))
}

/// The items for the first `n` positions of the primary chain.
pub open spec fn layout_upto(s: BuilderView, n: nat) -> Seq<Slot> {
    Seq::new(n, |p: int| position_slots(s, p)).flatten()
}

/// The items of a built chain, for the whole primary chain.
pub open spec fn layout(s: BuilderView) -> Seq<Slot> {
    layout_upto(s, s.main.len())
}

/// Whether the tree `t` is the item `slot` with its nodes taken from `g`.
pub open spec fn slot_matches(t: Compounds, slot: Slot, g: Seq<CompoundView>) -> bool {
    match slot {
        Slot::Node(i) => t is Compound && t->Compound_0@ == g[i as int],
        Slot::Branch(start, n) => {
            &&& t is Chain
            &&& t->Chain_0@.len() == n
            &&& forall|j: int|
                0 <= j < n ==> #[trigger] t->Chain_0@[j] is Compound && t->Chain_0@[j]->Compound_0@
                    == g[start + j]
        },
    }
}

/// Whether `items` are, one for one, the items `slots` with nodes taken from `g`.
pub open spec fn all_match(items: Seq<Compounds>, slots: Seq<Slot>, g: Seq<CompoundView>) -> bool {
    &&& items.len() == slots.len()
    &&& forall|k: int| 0 <= k < items.len() ==> slot_matches(#[trigger] items[k], slots[k], g)
}

/// The tree a session builds: a lone node when exactly one index was reserved,
/// otherwise the chain of items laid out by `layout`.
pub open spec fn build_result(r: Compounds, s: BuilderView) -> bool {
    if s.size == 1 {
        r is Compound && r->Compound_0@ == built_graph(s)[0]
    } else {
        r is Chain && all_match(r->Chain_0@, layout(s), built_graph(s))
    }
}

/// Linking keeps the number of nodes and what each node holds besides its side chains.
pub proof fn lemma_link_all_keeps(g: Seq<CompoundView>, bonds: Seq<(usize, usize)>)
    requires
        forall|e: int| 0 <= e < bonds.len() ==> (#[trigger] bonds[e]).0 < g.len() && bonds[e].1 < g.len(),
    ensures
        link_all(g, bonds).len() == g.len(),
        forall|i: int|
            0 <= i < g.len() ==> (#[trigger] link_all(g, bonds)[i]).center == g[i].center
                && link_all(g, bonds)[i].substituents == g[i].substituents,
    decreases bonds.len(),
{
    if bonds.len() > 0 {
        let rest = bonds.drop_last();
        assert forall|e: int| 0 <= e < rest.len() implies (#[trigger] rest[e]).0 < g.len() && rest[e].1
            < g.len() by {
            assert(rest[e] == bonds[e]);
        }
        lemma_link_all_keeps(g, rest);
        assert(bonds.last() == bonds[bonds.len() - 1]);
    }
}

/// A session after a first `chain(n)` has a primary chain of `n` atoms and `n` reserved indices.
pub proof fn lemma_first_chain(n: nat)
    requires
        n > 0,
    ensures
        chained(fresh_builder(), n).parent == n,
        chained(fresh_builder(), n).size == n,
{
}

/// A session that turns chain and branch requests into a carbon skeleton.
#[derive(Debug)]
pub struct OrganicCompoundBuilder {
    parent_chain: u8,
    curr_size: usize,
    main: Vec<usize>,
    branches: Vec<Vec<(usize, usize)>>,
    bonds: Vec<(usize, usize)>,
}

impl View for OrganicCompoundBuilder {
    type V = BuilderView;

    closed spec fn view(&self) -> BuilderView {
        BuilderView {
            parent: self.parent_chain as nat,
            size: self.curr_size as nat,
            main: self.main@,
            branches: branch_views(self.branches@),
            bonds: self.bonds@,
        }
    }
}

/// The views of the per-position branch lists.
pub open spec fn branch_views(s: Seq<Vec<(usize, usize)>>) -> Seq<Seq<(usize, usize)>> {
    s.map_values(|b: Vec<(usize, usize)>| b@)
}

/// The invariant of a builder state.
pub open spec fn builder_wf(s: BuilderView) -> bool {
    &&& s.size <= usize::MAX
    &&& s.parent <= u8::MAX
    &&& s.main.len() == s.branches.len()
    &&& s.parent <= s.main.len()
    &&& (s.parent == 0 <==> s.main.len() == 0)
    &&& (s.main.len() == 0 ==> s.size == 0)
    &&& forall|p: int| 0 <= p < s.main.len() ==> #[trigger] s.main[p] < s.size
    &&& forall|p: int, k: int|
        0 <= p < s.branches.len() && 0 <= k < s.branches[p].len() ==> {
            let b = #[trigger] s.branches[p][k];
            b.1 >= 1 && b.0 + b.1 <= s.size
        }
    &&& forall|e: int| 0 <= e < s.bonds.len() ==> {
            let b = #[trigger] s.bonds[e];
            b.0 < s.size && b.1 < s.size
        }
}

impl OrganicCompoundBuilder {
    pub open spec fn wf(&self) -> bool {
        builder_wf(self@)
    }

    /// A fresh session: nothing reserved, no primary chain.
    pub fn new() -> (r: Self)
        ensures
            r.wf(),
            r@ == fresh_builder(),
    {
        let r = OrganicCompoundBuilder {
            parent_chain: 0,
            curr_size: 0,
            main: Vec::new(),
            branches: Vec::new(),
            bonds: Vec::new(),
        };
        assert(r@.branches =~= Seq::<Seq<(usize, usize)>>::empty());
        assert(r@.main =~= Seq::<usize>::empty());
        assert(r@.bonds =~= Seq::<(usize, usize)>::empty());
        r
    }

    /// The length of the primary chain (0 until the first `chain` call).
    pub fn chain_len(&self) -> (r: u8)
        ensures
            r == self@.parent,
    {
        self.parent_chain
    }

    /// The number of atom indices reserved so far, branches included.
    pub fn size(&self) -> (r: usize)
        ensures
            r == self@.size,
    {
        self.curr_size
    }

    /// Whether no primary chain has been made yet.
    pub fn empty_parent_chain(&self) -> (r: bool)
        ensures
            r == (self@.parent == 0),
    {
        self.parent_chain == 0
    }

    /// Whether position `idx` of the primary chain exists.
    pub fn idx_exists(&self, idx: usize) -> (r: bool)
        ensures
            r == (idx < self@.main.len()),
    {
        idx < self.main.len()
    }

    /// Whether any atom index has been reserved.
    pub fn chain_exists(&self) -> (r: bool)
        ensures
            r == (self@.size > 0),
    {
        self.curr_size > 0
    }

    /// The first indices of the branches registered at position `idx` of the primary chain,
    /// in insertion order.
    pub fn fetch_nodes(&self, idx: usize) -> (r: Vec<usize>)
        requires
            idx < self@.main.len(),
            self.wf(),
        ensures
            r@ == self@.branches[idx as int].map_values(|b: (usize, usize)| b.0),
    {
        let bs = &self.branches[idx];
        assert(bs@ == self@.branches[idx as int]);
        let mut r: Vec<usize> = Vec::new();
        let mut i: usize = 0;
        while i < bs.len()
            invariant
                i <= bs@.len(),
                r@ == bs@.subrange(0, i as int).map_values(|b: (usize, usize)| b.0),
            decreases bs@.len() - i,
        {
            r.push(bs[i].0);
            i = i + 1;
            assert(r@ =~= bs@.subrange(0, i as int).map_values(|b: (usize, usize)| b.0));
        }
        assert(bs@.subrange(0, i as int) =~= bs@);
        r
    }

    /// Appends the bonds of a path over `n` fresh indices from `start`.
    fn push_path(&mut self, start: usize, n: usize)
        requires
            n >= 1,
            start + n <= usize::MAX,
        ensures
            final(self).bonds@ == old(self).bonds@ + path_bonds(start as nat, n as nat),
            final(self).parent_chain == old(self).parent_chain,
            final(self).curr_size == old(self).curr_size,
            final(self).main == old(self).main,
            final(self).branches == old(self).branches,
    {
        let mut j: usize = 1;
        while j < n
            invariant
                1 <= j <= n,
                start + n <= usize::MAX,
                self.bonds@ == old(self).bonds@ + path_bonds(start as nat, j as nat),
                self.parent_chain == old(self).parent_chain,
                self.curr_size == old(self).curr_size,
                self.main == old(self).main,
                self.branches == old(self).branches,
            decreases n - j,
        {
            self.bonds.push((start + j - 1, start + j));
            j = j + 1;
            assert(self.bonds@ =~= old(self).bonds@ + path_bonds(start as nat, j as nat));
        }
    }

    /// Extends the primary chain by `n` atoms. The first call fixes the primary chain's
    /// length, against which locants are checked.
    pub fn chain(&mut self, n: u8) -> (r: Result<(), BuilderError>)
        requires
            old(self).wf(),
            old(self)@.size + n <= usize::MAX,
        ensures
            final(self).wf(),
            r is Ok <==> n > 0,
            r is Err ==> r == Err::<(), BuilderError>(BuilderError::Construction(ConstructionError::EmptyChain))
                && final(self)@ == old(self)@,
            r is Ok ==> final(self)@ == chained(old(self)@, n as nat),
    {
        if n == 0 {
            return Err(BuilderError::Construction(ConstructionError::EmptyChain));
        }
        let ghost s = self@;
        let start = self.curr_size;
        let count = n as usize;
        if self.main.len() > 0 {
            let last = self.main[self.main.len() - 1];
            self.bonds.push((last, start));
        }
        assert(self.bonds@ == s.bonds + (if s.main.len() == 0 {
            Seq::empty()
        } else {
            seq![(s.main.last(), s.size as usize)]
        }));
        self.push_path(start, count);
        let ghost bonds = self.bonds@;
        assert(bonds == chained(s, n as nat).bonds);
        let mut i: usize = 0;
        while i < count
            invariant
                i <= count,
                count == n,
                start == s.size,
                start + count <= usize::MAX,
                self.bonds@ == bonds,
                self.parent_chain == s.parent,
                self.curr_size == start,
                self.main@.len() == self.branches@.len(),
                self.main@ == s.main + index_range(s.size, i as nat),
                branch_views(self.branches@) == s.branches + Seq::new(
                    i as nat,
                    |j: int| Seq::<(usize, usize)>::empty(),
                ),
            decreases count - i,
        {
            self.main.push(start + i);
            let ghost before = self.branches@;
            let fresh: Vec<(usize, usize)> = Vec::new();
            self.branches.push(fresh);
            i = i + 1;
            assert(self.main@ =~= s.main + index_range(s.size, i as nat));
            assert(self.branches@ == before.push(fresh));
            assert(fresh@ =~= Seq::<(usize, usize)>::empty());
            assert(branch_views(self.branches@) =~= branch_views(before).push(fresh@));
            assert(branch_views(self.branches@) =~= s.branches + Seq::new(
                i as nat,
                |j: int| Seq::<(usize, usize)>::empty(),
            ));
        }
        if self.parent_chain == 0 {
            self.parent_chain = n;
        }
        self.curr_size = start + count;
        proof {
            let t = chained(s, n as nat);
            assert(self@ == t);
        }
        Ok(())
    }

    /// Attaches a branch of `n` atoms at position `locant` (1-based) of the primary chain.
    /// Branches at one locant accumulate in insertion order. A refused call changes nothing.
    pub fn chain_at(&mut self, locant: u8, n: u8) -> (r: Result<(), BuilderError>)
        requires
            old(self).wf(),
            old(self)@.size + n <= usize::MAX,
        ensures
            final(self).wf(),
            r is Ok <==> (old(self)@.parent > 0 && 1 <= locant <= old(self)@.parent && n > 0),
            old(self)@.parent == 0 ==> r == Err::<(), BuilderError>(BuilderError::UnconfiguredParentChain),
            old(self)@.parent > 0 && !(1 <= locant <= old(self)@.parent) ==> r == Err::<(), BuilderError>(
                BuilderError::InvalidLocant(locant),
            ),
            old(self)@.parent > 0 && 1 <= locant <= old(self)@.parent && n == 0 ==> r == Err::<
                (),
                BuilderError,
            >(BuilderError::Construction(ConstructionError::EmptyChain)),
            r is Err ==> final(self)@ == old(self)@,
            r is Ok ==> final(self)@ == chained_at(old(self)@, locant as nat, n as nat),
    {
        if self.empty_parent_chain() {
            return Err(BuilderError::UnconfiguredParentChain);
        }
        if locant == 0 || locant > self.parent_chain || !self.idx_exists((locant - 1) as usize) {
            return Err(BuilderError::InvalidLocant(locant));
        }
        if n == 0 {
            return Err(BuilderError::Construction(ConstructionError::EmptyChain));
        }
        let ghost s = self@;
        let idx = (locant - 1) as usize;
        let start = self.curr_size;
        let count = n as usize;
        let anchor = self.main[idx];
        self.bonds.push((anchor, start));
        self.push_path(start, count);
        let ghost before = self.branches@;
        self.branches[idx].push((start, count));
        self.curr_size = start + count;
        proof {
            let t = chained_at(s, locant as nat, n as nat);
            assert(self@.bonds =~= t.bonds);
            assert(branch_views(self.branches@) =~= t.branches) by {
                assert forall|p: int| 0 <= p < t.branches.len() implies branch_views(self.branches@)[p]
                    == t.branches[p] by {
                    if p != idx {
                        assert(self.branches@[p] == before[p]);
                    }
                }
            }
            assert(self@ == t);
            assert(builder_wf(t)) by {
                assert forall|p: int, k: int|
                    0 <= p < t.branches.len() && 0 <= k < t.branches[p].len() implies {
                        let b = #[trigger] t.branches[p][k];
                        b.1 >= 1 && b.0 + b.1 <= t.size
                    } by {
                    if p == idx && k == s.branches[p].len() {
                    } else {
                        assert(t.branches[p][k] == s.branches[p][k]);
                    }
                }
                assert forall|e: int| 0 <= e < t.bonds.len() implies {
                    let b = #[trigger] t.bonds[e];
                    b.0 < t.size && b.1 < t.size
                } by {
                    if e < s.bonds.len() {
                        assert(t.bonds[e] == s.bonds[e]);
                    }
                }
            }
        }
        Ok(())
    }

    /// One chain item per branch index, from `start` on for `n` indices.
    fn branch_tree(g: &CompoundGraph, start: usize, n: usize) -> (r: Compounds)
        requires
            start + n <= g@.len(),
            g@.len() <= usize::MAX,
        ensures
            slot_matches(r, Slot::Branch(start, n), g@),
    {
        let mut items: Vec<Compounds> = Vec::new();
        let mut j: usize = 0;
        while j < n
            invariant
                j <= n,
                start + n <= g@.len(),
                g@.len() <= usize::MAX,
                items@.len() == j,
                forall|q: int|
                    0 <= q < j ==> #[trigger] items@[q] is Compound && items@[q]->Compound_0@
                        == g@[start + q],
            decreases n - j,
        {
            let c = g.node(start + j).clone();
            items.push(Compounds::Compound(c));
            j = j + 1;
        }
        Compounds::Chain(items)
    }

    /// The items of the built chain: each primary-chain node followed by its branches.
    fn to_linked_list(&self, g: &CompoundGraph) -> (r: Vec<Compounds>)
        requires
            self.wf(),
            g@.len() == self@.size,
        ensures
            all_match(r@, layout(self@), g@),
    {
        let ghost s = self@;
        let mut items: Vec<Compounds> = Vec::new();
        let mut p: usize = 0;
        proof {
            assert(Seq::new(0, |q: int| position_slots(s, q)) =~= Seq::<Seq<Slot>>::empty());
        }
        while p < self.main.len()
            invariant
                self.wf(),
                s == self@,
                g@.len() == s.size,
                p <= s.main.len(),
                all_match(items@, layout_upto(s, p as nat), g@),
            decreases s.main.len() - p,
        {
            let ghost prefix = layout_upto(s, p as nat);
            let node = g.node(self.main[p]).clone();
            let ghost items_prev = items@;
            items.push(Compounds::Compound(node));
            let ghost own = prefix.push(Slot::Node(s.main[p as int]));
            assert(all_match(items@, own, g@)) by {
                assert forall|k: int| 0 <= k < items@.len() implies slot_matches(
                    #[trigger] items@[k],
                    own[k],
                    g@,
                ) by {
                    if k < prefix.len() {
                        assert(items@[k] == items_prev[k]);
                    }
                }
            }
            let bs = &self.branches[p];
            assert(bs@ == s.branches[p as int]);
            let mut k: usize = 0;
            while k < bs.len()
                invariant
                    self.wf(),
                    s == self@,
                    g@.len() == s.size,
                    p < s.main.len(),
                    bs@ == s.branches[p as int],
                    k <= bs@.len(),
                    all_match(
                        items@,
                        own + bs@.subrange(0, k as int).map_values(
                            |b: (usize, usize)| Slot::Branch(b.0, b.1),
                        ),
                        g@,
                    ),
                decreases bs@.len() - k,
            {
                let (start, n) = bs[k];
                assert(s.branches[p as int][k as int] == (start, n));
                let t = Self::branch_tree(g, start, n);
                let ghost slots_before = own + bs@.subrange(0, k as int).map_values(
                    |b: (usize, usize)| Slot::Branch(b.0, b.1),
                );
                let ghost items_before = items@;
                items.push(t);
                k = k + 1;
                let ghost slots_after = own + bs@.subrange(0, k as int).map_values(
                    |b: (usize, usize)| Slot::Branch(b.0, b.1),
                );
                assert(slots_after =~= slots_before.push(Slot::Branch(start, n)));
                assert forall|q: int| 0 <= q < items@.len() implies slot_matches(
                    #[trigger] items@[q],
                    slots_after[q],
                    g@,
                ) by {
                    if q < items_before.len() {
                        assert(items@[q] == items_before[q]);
                    }
                }
            }
            proof {
                let f = |q: int| position_slots(s, q);
                assert(bs@.subrange(0, bs@.len() as int) =~= bs@);
                assert(Seq::new((p + 1) as nat, f) =~= Seq::new(p as nat, f).push(f(p as int)));
                Seq::new(p as nat, f).lemma_flatten_push(f(p as int));
                assert(own + bs@.map_values(|b: (usize, usize)| Slot::Branch(b.0, b.1)) =~= prefix
                    + position_slots(s, p as int));
            }
            p = p + 1;
        }
        items
    }

    /// Materializes the session: one carbon node per reserved index, linked along every
    /// recorded bond, laid out as a lone node when only one index was reserved and as a
    /// chain of the primary chain's nodes, each followed by its branches, otherwise.
    pub fn build(self) -> (r: Compounds)
        requires
            self.wf(),
        ensures
            build_result(r, self@),
    {
        let ghost s = self@;
        let carbon = Atom::new(CARBON);
        assert(carbon == carbon_atom());
        let mut g = CompoundGraph::new();
        let mut i: usize = 0;
        while i < self.curr_size
            invariant
                s == self@,
                i <= s.size,
                carbon == carbon_atom(),
                g.wf(),
                g@ == Seq::new(i as nat, |q: int| empty_node(carbon_atom())),
            decreases s.size - i,
        {
            g.add_node(carbon);
            i = i + 1;
            assert(g@ =~= Seq::new(i as nat, |q: int| empty_node(carbon_atom())));
        }
        assert(g@ =~= carbon_nodes(s.size));
        let mut e: usize = 0;
        proof {
            assert(s.bonds.subrange(0, 0) =~= Seq::<(usize, usize)>::empty());
        }
        while e < self.bonds.len()
            invariant
                s == self@,
                self.wf(),
                e <= s.bonds.len(),
                g.wf(),
                g@ == link_all(carbon_nodes(s.size), s.bonds.subrange(0, e as int)),
            decreases s.bonds.len() - e,
        {
            proof {
                let done = s.bonds.subrange(0, e as int);
                assert forall|q: int| 0 <= q < done.len() implies (#[trigger] done[q]).0 < s.size
                    && done[q].1 < s.size by {
                    assert(done[q] == s.bonds[q]);
                }
                lemma_link_all_keeps(carbon_nodes(s.size), done);
            }
            let (a, b) = self.bonds[e];
            assert(s.bonds[e as int] == (a, b));
            let res = g.add_side_chain(a, b);
            assert(g@ == linked(link_all(carbon_nodes(s.size), s.bonds.subrange(0, e as int)), a as int, b as int));
            e = e + 1;
            assert(s.bonds.subrange(0, e as int).drop_last() =~= s.bonds.subrange(0, e - 1));
        }
        assert(s.bonds.subrange(0, s.bonds.len() as int) =~= s.bonds);
        proof {
            lemma_link_all_keeps(carbon_nodes(s.size), s.bonds);
        }
        if self.curr_size == 1 {
            return Compounds::Compound(g.node(0).clone());
        }
        let items = self.to_linked_list(&g);
        Compounds::Chain(items)
    }
}

/// A straight chain of six carbons.
pub fn test_compound() -> (r: Compounds)
    ensures
        build_result(r, chained(fresh_builder(), 6)),
{
    let mut b = OrganicCompoundBuilder::new();
    let configured = b.chain(6);
    b.build()
}

} // verus!
