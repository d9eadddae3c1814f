use ebnf::interner::Interner;
use ebnf::interner::intern_resolve;
use ebnf::release::release_no_nesting;
use ebnf::release::release_node;
use ebnf::release::release_node_with_id;
use ebnf::node::Node;
use ebnf::node::NodeWithID;
use ebnf::node::NoNestingNode;

#[test]
fn interning_same_text_twice_gives_same_symbol() {
    let mut it = Interner::new();
    let a1 = it.intern("apple");
    let b1 = it.intern("pear");
    let a2 = it.intern("apple");
    let b2 = it.intern("pear");
    assert_eq!(a1, a2);
    assert_eq!(b1, b2);
    assert_ne!(a1, b1);
    assert_eq!(it.len(), 2);
}

#[test]
fn resolve_returns_the_interned_text() {
    let mut it = Interner::new();
    let sym = it.intern("grammar");
    assert_eq!(it.resolve(sym), Some("grammar".to_string()));
    assert_eq!(it.resolve(sym + 1), None);
}

#[test]
fn intern_then_resolve_round_trips() {
    let mut it = Interner::new();
    it.intern("noise");
    assert_eq!(intern_resolve(&mut it, "body"), "body".to_string());
    assert_eq!(intern_resolve(&mut it, "noise"), "noise".to_string());
}

#[test]
fn symbols_are_consecutive_indices() {
    let mut it = Interner::new();
    assert_eq!(it.len(), 0);
    assert_eq!(it.intern("zero"), 0);
    assert_eq!(it.intern("one"), 1);
    assert_eq!(it.intern("zero"), 0);
    assert_eq!(it.intern("two"), 2);
    assert_eq!(it.len(), 3);
}

#[test]
fn releasing_a_deep_tree_does_not_grow_the_stack() {
    let mut tree = Node::Terminal("leaf".to_string());
    for _ in 0..100_000 {
        tree = Node::Group(Box::new(tree));
    }
    release_node(tree);
}

#[test]
fn releasing_deep_sibling_trees_keeps_sibling_data() {
    let mut deep = NodeWithID::Terminal(7);
    for _ in 0..100_000 {
        deep = NodeWithID::Group(Box::new(deep));
    }
    let keep = NodeWithID::Terminal(9);
    release_node_with_id(deep);
    assert!(matches!(keep, NodeWithID::Terminal(9)));

    let mut flat = NoNestingNode::Terminal(1);
    for _ in 0..50_000 {
        flat = NoNestingNode::Concatenations(vec![flat]);
    }
    release_no_nesting(flat);
}
