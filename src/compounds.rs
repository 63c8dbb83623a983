use vstd::prelude::*;

use crate::compound::{compound_views, Compound, CompoundView};

verus! {

/// The tree that a chain builder yields: a single compound, or an ordered
/// sequence of subtrees (the primary chain with its branches nested in it).
#[derive(Debug)]
pub enum Compounds {
    Compound(Compound),
    Chain(Vec<Compounds>),
}

/// The concatenation, in order, of the flattenings of `items`.
pub open spec fn flatten_items(items: Seq<Compounds>) -> Seq<CompoundView>
    decreases items,
{
    if items.len() == 0 {
        Seq::empty()
    } else {
        flatten_items(items.subrange(0, items.len() - 1)) + items[items.len() - 1].spec_flatten()
    }
}

impl Compounds {
    /// The compounds of the tree in depth-first pre-order.
    pub open spec fn spec_flatten(&self) -> Seq<CompoundView>
        decreases self,
    {
        match self {
            Compounds::Compound(c) => seq![c@],
            Compounds::Chain(items) => flatten_items(items@),
        }
    }

    /// The compounds of the tree in depth-first pre-order: a single compound yields itself,
    /// a chain the concatenation of its items' flattenings.
    pub fn flatten(&self) -> (r: Vec<Compound>)
        ensures
            compound_views(r@) == self.spec_flatten(),
        decreases self,
    {
        let mut all: Vec<Compound> = Vec::new();
        match self {
            Compounds::Compound(c) => {
                all.push(c.clone());
                assert(compound_views(all@) =~= seq![c@]);
            },
            Compounds::Chain(items) => {
                let mut i: usize = 0;
                assert(items@.subrange(0, 0) =~= Seq::<Compounds>::empty());
                while i < items.len()
                    invariant
                        *self == Compounds::Chain(*items),
                        i <= items@.len(),
                        compound_views(all@) == flatten_items(items@.subrange(0, i as int)),
                    decreases items@.len() - i,
                {
                    proof {
                        assert(decreases_to!(*self => self->Chain_0));
                        vstd::std_specs::vec::axiom_vec_index_decreases(*items, i as int);

                    }
                    let mut sub = items[i].flatten();
                    let ghost before = all@;
                    let ghost added = sub@;
                    all.append(&mut sub);
                    i = i + 1;
                    assert(items@.subrange(0, i as int).subrange(0, i - 1) =~= items@.subrange(
                        0,
                        i - 1,
                    ));
                    assert(compound_views(all@) =~= compound_views(before) + compound_views(added));
                    assert(compound_views(all@) == flatten_items(items@.subrange(0, i as int)));
                }
                assert(items@.subrange(0, items@.len() as int) =~= items@);
            },
        }
        all
    }
}

/// Flattening a chain of a compound `a` followed by a chain of `b` and `c` yields
/// `a`, `b`, `c` in that order: order is kept and nesting removed.
pub proof fn lemma_flatten_nested(t: Compounds, a: Compound, b: Compound, c: Compound)
    requires
        t is Chain,
        t->Chain_0@.len() == 2,
        t->Chain_0@[0] == Compounds::Compound(a),
        t->Chain_0@[1] is Chain,
        t->Chain_0@[1]->Chain_0@ == seq![Compounds::Compound(b), Compounds::Compound(c)],
    ensures
        t.spec_flatten() == seq![a@, b@, c@],
{
    let items = t->Chain_0@;
    let inner = items[1]->Chain_0@;
    assert(flatten_items(Seq::<Compounds>::empty()) == Seq::<CompoundView>::empty());
    assert(inner.subrange(0, 1).subrange(0, 0) =~= Seq::<Compounds>::empty());
    assert(inner.subrange(0, 1) =~= seq![Compounds::Compound(b)]);
    let s1 = inner.subrange(0, 1);
    assert(s1.len() == 1);
    assert(s1[0] == Compounds::Compound(b));
    assert(s1[0].spec_flatten() == seq![b@]);
    assert(flatten_items(s1) == flatten_items(s1.subrange(0, 0)) + s1[0].spec_flatten());
    assert(flatten_items(s1) =~= seq![b@]);
    assert(inner.subrange(0, 2) =~= inner);
    assert(inner[1].spec_flatten() == seq![c@]);
    assert(flatten_items(inner) == flatten_items(inner.subrange(0, 1)) + seq![c@]);
    assert(items[1].spec_flatten() =~= seq![b@, c@]);
    assert(items.subrange(0, 1).subrange(0, 0) =~= Seq::<Compounds>::empty());
    let s0 = items.subrange(0, 1);
    assert(s0[0] == Compounds::Compound(a));
    assert(s0[0].spec_flatten() == seq![a@]);
    assert(flatten_items(s0) == flatten_items(s0.subrange(0, 0)) + s0[0].spec_flatten());
    assert(flatten_items(s0) =~= seq![a@]);
    assert(items.subrange(0, 2) =~= items);
    assert(flatten_items(items) == flatten_items(items.subrange(0, 1)) + seq![b@, c@]);
    assert(t.spec_flatten() =~= seq![a@, b@, c@]);
}

} // verus!
