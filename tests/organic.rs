use organic::atom::Atom;
use organic::builder::{test_compound, BuilderError, OrganicCompoundBuilder};
use organic::compound::{Compound, CompoundGraph, GraphError};
use organic::compounds::Compounds;
use organic::counter::AtomCounter;
use organic::element::{ConstructionError, Element};
use organic::particle::Particle;

fn leaf(t: &Compounds) -> &Compound {
    match t {
        Compounds::Compound(c) => c,
        Compounds::Chain(_) => panic!("expected a single compound"),
    }
}

fn items(t: &Compounds) -> &Vec<Compounds> {
    match t {
        Compounds::Chain(v) => v,
        Compounds::Compound(_) => panic!("expected a chain"),
    }
}

fn sorted(v: &[usize]) -> Vec<usize> {
    let mut w = v.to_vec();
    w.sort();
    w
}

#[test]
fn element_symbols() {
    assert_eq!(Element::new(1).as_str(), "H");
    assert_eq!(Element::new(6).as_str(), "C");
    assert_eq!(Element::new(26).as_str(), "Fe");
    assert_eq!(Element::new(118).as_str(), "Og");
}

#[test]
fn element_rejects_unknown_numbers() {
    assert_eq!(Element::try_new(0), Err(ConstructionError::InvalidAtomicNumber(0)));
    assert_eq!(Element::try_new(119), Err(ConstructionError::InvalidAtomicNumber(119)));
    assert_eq!(Element::try_new(8), Ok(Element { number: 8 }));
}

#[test]
fn atom_is_neutral() {
    let a = Atom::new(8);
    assert_eq!(a.element, Element::new(8));
    assert_eq!(a.electrons, 8);
    assert_eq!(a.neutrons, 0);
    assert_eq!(a.oxidation, None);
    assert_eq!(a.number(), 8);
}

#[test]
fn first_chain_sets_length() {
    for n in [1u8, 2, 6, 40, 255] {
        let mut b = OrganicCompoundBuilder::new();
        assert_eq!(b.chain(n), Ok(()));
        assert_eq!(b.chain_len(), n);
        assert_eq!(b.size(), n as usize);
    }
}

#[test]
fn chain_of_zero_is_refused() {
    let mut b = OrganicCompoundBuilder::new();
    assert_eq!(b.chain(0), Err(BuilderError::Construction(ConstructionError::EmptyChain)));
    assert_eq!(b.chain_len(), 0);
    assert_eq!(b.size(), 0);
}

#[test]
fn second_chain_extends_without_changing_length() {
    let mut b = Compound::builder();
    assert_eq!(b.chain(4), Ok(()));
    assert_eq!(b.chain(3), Ok(()));
    assert_eq!(b.chain_len(), 4);
    assert_eq!(b.size(), 7);
    let t = b.build();
    assert_eq!(t.flatten().len(), 7);
    let v = items(&t);
    assert_eq!(sorted(&leaf(&v[3]).side_chains), vec![2, 4]);
}

#[test]
fn chain_at_before_chain_fails() {
    let mut b = OrganicCompoundBuilder::new();
    for locant in [0u8, 1, 3] {
        assert_eq!(b.chain_at(locant, 2), Err(BuilderError::UnconfiguredParentChain));
        assert_eq!(b.chain_len(), 0);
        assert_eq!(b.size(), 0);
        assert!(b.empty_parent_chain());
        assert!(!b.chain_exists());
    }
}

#[test]
fn chain_at_out_of_range_locant_fails() {
    let mut b = OrganicCompoundBuilder::new();
    b.chain(6).unwrap();
    for locant in [0u8, 7, 8, 255] {
        assert_eq!(b.chain_at(locant, 1), Err(BuilderError::InvalidLocant(locant)));
        assert_eq!(b.size(), 6);
        assert_eq!(b.chain_len(), 6);
    }
    assert_eq!(b.chain_at(6, 1), Ok(()));
    assert_eq!(b.chain_at(1, 1), Ok(()));
}

#[test]
fn chain_at_zero_length_fails() {
    let mut b = OrganicCompoundBuilder::new();
    b.chain(3).unwrap();
    assert_eq!(
        b.chain_at(2, 0),
        Err(BuilderError::Construction(ConstructionError::EmptyChain))
    );
    assert_eq!(b.size(), 3);
}

#[test]
fn branches_accumulate_in_order() {
    let mut b = OrganicCompoundBuilder::new();
    b.chain(4).unwrap();
    b.chain_at(2, 2).unwrap();
    b.chain_at(2, 1).unwrap();
    assert!(b.idx_exists(1));
    assert!(!b.idx_exists(4));
    assert_eq!(b.fetch_nodes(1), vec![4, 6]);
    assert_eq!(b.fetch_nodes(0), Vec::<usize>::new());
    let t = b.build();
    let v = items(&t);
    assert_eq!(v.len(), 6);
    assert_eq!(items(&v[2]).len(), 2);
    assert_eq!(items(&v[3]).len(), 1);
    assert_eq!(sorted(&leaf(&v[1]).side_chains), vec![0, 2, 4, 6]);
    assert_eq!(sorted(&leaf(&items(&v[2])[0]).side_chains), vec![1, 5]);
    assert_eq!(sorted(&leaf(&items(&v[2])[1]).side_chains), vec![4]);
}

#[test]
fn end_to_end_branch_at_locant_three() {
    let mut b = OrganicCompoundBuilder::new();
    assert_eq!(b.chain(6), Ok(()));
    assert_eq!(b.chain_at(3, 1), Ok(()));
    assert_eq!(b.size(), 7);
    assert_eq!(b.chain_len(), 6);
    assert_eq!(b.fetch_nodes(2).len(), 1);
    let t = b.build();
    let v = items(&t);
    assert_eq!(v.len(), 7);
    for k in [0usize, 1, 2, 4, 5, 6] {
        assert_eq!(leaf(&v[k]).center, Atom::new(6));
    }
    let branch = items(&v[3]);
    assert_eq!(branch.len(), 1);
    assert_eq!(sorted(&leaf(&v[2]).side_chains), vec![1, 3, 6]);
    assert_eq!(leaf(&branch[0]).side_chains, vec![2]);
    assert_eq!(t.flatten().len(), 7);
}

#[test]
fn build_of_one_atom_is_a_single_compound() {
    let mut b = OrganicCompoundBuilder::new();
    b.chain(1).unwrap();
    let t = b.build();
    let c = leaf(&t);
    assert_eq!(c.center, Atom::new(6));
    assert!(c.substituents.is_empty());
    assert!(c.side_chains.is_empty());
}

#[test]
fn six_carbon_chain() {
    let t = test_compound();
    let all = t.flatten();
    assert_eq!(all.len(), 6);
    assert_eq!(all[0].side_chains, vec![1]);
    assert_eq!(sorted(&all[3].side_chains), vec![2, 4]);
    assert_eq!(all[5].side_chains, vec![4]);
}

fn graph_of(n: usize) -> CompoundGraph {
    let mut g = CompoundGraph::new();
    for i in 0..n {
        assert_eq!(g.add_node(Atom::new(6)), i);
    }
    g
}

#[test]
fn self_link_changes_nothing() {
    let mut g = graph_of(2);
    g.add_side_chain(0, 1).unwrap();
    let before = g.node(0).side_chains.len();
    assert_eq!(g.add_side_chain(0, 0), Ok(()));
    assert_eq!(g.node(0).side_chains.len(), before);
    assert!(!g.has_side_chain(0, 0));
}

#[test]
fn linking_back_changes_nothing() {
    let mut g = graph_of(3);
    g.add_side_chain(0, 2).unwrap();
    let a = g.node(0).side_chains.clone();
    let b = g.node(2).side_chains.clone();
    assert_eq!(g.add_side_chain(2, 0), Ok(()));
    assert_eq!(g.add_side_chain(0, 2), Ok(()));
    assert_eq!(g.node(0).side_chains, a);
    assert_eq!(g.node(2).side_chains, b);
    assert_eq!(a, vec![2]);
    assert_eq!(b, vec![0]);
}

#[test]
fn links_are_reciprocal() {
    let mut g = graph_of(4);
    g.add_side_chain(1, 3).unwrap();
    g.add_side_chain(3, 0).unwrap();
    assert!(g.has_side_chain(1, 3));
    assert!(g.has_side_chain(3, 1));
    assert!(g.has_side_chain(0, 3));
    assert!(g.has_side_chain(3, 0));
    assert!(!g.has_side_chain(1, 0));
    assert_eq!(g.node(3).side_chains, vec![1, 0]);
}

#[test]
fn unknown_nodes_are_refused() {
    let mut g = graph_of(2);
    assert_eq!(g.add_side_chain(5, 0), Err(GraphError::UnknownNode(5)));
    assert_eq!(g.add_side_chain(0, 2), Err(GraphError::UnknownNode(2)));
    assert_eq!(
        g.add_substituent(9, Particle::new_atom(Atom::new(1))),
        Err(GraphError::UnknownNode(9))
    );
    assert!(g.node(0).side_chains.is_empty());
}

#[test]
fn substituents_are_appended() {
    let mut g = graph_of(1);
    g.add_substituent(0, Particle::new_atom(Atom::new(17))).unwrap();
    g.add_substituent(0, Particle::new_molecule(vec![Atom::new(8), Atom::new(1)]))
        .unwrap();
    let c = g.node(0);
    assert_eq!(c.substituents.len(), 2);
    assert_eq!(c.condensed_formula(), "CHOCl");
}

#[test]
fn flatten_keeps_order_and_removes_nesting() {
    let a = Compound::new(Atom::new(6));
    let b = Compound::new(Atom::new(7));
    let c = Compound::new(Atom::new(8));
    let t = Compounds::Chain(vec![
        Compounds::Compound(a),
        Compounds::Chain(vec![Compounds::Compound(b), Compounds::Compound(c)]),
    ]);
    let flat = t.flatten();
    let centers: Vec<u8> = flat.iter().map(|x| x.center.number()).collect();
    assert_eq!(centers, vec![6, 7, 8]);
}

#[test]
fn methyl_formula() {
    let mut c = Compound::new(Atom::new(6));
    c.substituents.push(Particle::new_molecule(vec![
        Atom::new(1),
        Atom::new(1),
        Atom::new(1),
    ]));
    let tally = AtomCounter::from_compound(&c);
    assert_eq!(tally.count(6), 1);
    assert_eq!(tally.count(1), 3);
    for n in [0u8, 2, 7, 8, 118] {
        assert_eq!(tally.count(n), 0);
    }
    assert_eq!(tally.to_formula(), "CH3");
    assert_eq!(c.condensed_formula(), "CH3");
}

#[test]
fn formula_orders_and_counts() {
    let mut c = Compound::new(Atom::new(8));
    let mut many = Vec::new();
    for _ in 0..12 {
        many.push(Atom::new(1));
    }
    c.substituents.push(Particle::new_molecule(many));
    c.substituents.push(Particle::new_atom(Atom::new(7)));
    c.substituents.push(Particle::new_atom(Atom::new(6)));
    c.substituents.push(Particle::new_atom(Atom::new(6)));
    c.substituents.push(Particle::new_atom(Atom::new(2)));
    assert_eq!(c.condensed_formula(), "C2H12HeNO");
}

#[test]
fn formula_without_carbon() {
    let mut counter = AtomCounter::new();
    counter.add_atom(Atom::new(8));
    counter.add_atoms(&vec![Atom::new(1), Atom::new(1)]);
    assert_eq!(counter.to_formula(), "H2O");
    assert_eq!(AtomCounter::new().to_formula(), "");
}

#[test]
fn particle_clone_keeps_atoms() {
    let p = Particle::new_molecule(vec![Atom::new(6), Atom::new(8)]);
    match p.clone() {
        Particle::Molecule(m) => assert_eq!(m, vec![Atom::new(6), Atom::new(8)]),
        Particle::Atom(_) => panic!("expected a molecule"),
    }
}

#[test]
fn graph_count_visits_each_node_once() {
    let mut g = graph_of(4);
    g.add_substituent(0, Particle::new_molecule(vec![Atom::new(1), Atom::new(1), Atom::new(1)]))
        .unwrap();
    g.add_substituent(1, Particle::new_atom(Atom::new(8))).unwrap();
    g.add_substituent(3, Particle::new_atom(Atom::new(17))).unwrap();
    g.add_side_chain(0, 1).unwrap();
    g.add_side_chain(1, 2).unwrap();
    g.add_side_chain(2, 0).unwrap();
    let tally = g.count_atoms(1);
    assert_eq!(tally.count(6), 3);
    assert_eq!(tally.count(1), 3);
    assert_eq!(tally.count(8), 1);
    assert_eq!(tally.count(17), 0);
    assert_eq!(g.condensed_formula(0), "C3H3O");
    assert_eq!(g.condensed_formula(3), "CCl");
}

#[test]
fn graph_count_of_lone_node() {
    let g = graph_of(2);
    assert_eq!(g.condensed_formula(1), "C");
    assert_eq!(g.count_atoms(0).count(6), 1);
}
