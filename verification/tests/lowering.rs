use ebnf::finalize::finalize_rhs;
use ebnf::flatten::flatten;
use ebnf::interner::Interner;
use ebnf::interning::intern_node;
use ebnf::nesting::remove_nesting;
use ebnf::node::Alternation;
use ebnf::node::Excepted;
use ebnf::node::ExceptedWithID;
use ebnf::node::FinalAlternation;
use ebnf::node::FinalNode;
use ebnf::node::FinalRhs;
use ebnf::node::Node;
use ebnf::node::NodeWithID;
use ebnf::node::NoNestingNode;
use ebnf::node::OperatorFlattenedNode;
use ebnf::node::RegexExtKind;
use ebnf::node::Rhs;
use ebnf::node::SymbolKind;
use ebnf::pipeline::lower_rhs;

fn final_rhs(alts: Vec<Vec<FinalNode>>) -> FinalRhs {
    FinalRhs {
        alternations: alts
            .into_iter()
            .map(|concatenations| FinalAlternation { concatenations })
            .collect(),
    }
}

#[test]
fn distribution_concatenation_over_alternation() {
    let a = NoNestingNode::Terminal(0);
    let b = NoNestingNode::Terminal(1);
    let c = NoNestingNode::Terminal(2);
    let tree = NoNestingNode::Concatenations(vec![
        NoNestingNode::Alternations(vec![a, b]),
        c,
    ]);
    let rhs = flatten(&tree);
    let expected = Rhs {
        alternations: vec![
            Alternation {
                concatenations: vec![
                    OperatorFlattenedNode::Terminal(0),
                    OperatorFlattenedNode::Terminal(2),
                ],
            },
            Alternation {
                concatenations: vec![
                    OperatorFlattenedNode::Terminal(1),
                    OperatorFlattenedNode::Terminal(2),
                ],
            },
        ],
    };
    assert_eq!(rhs, expected);
}

#[test]
fn distribution_alternation_of_concatenation() {
    let a = NoNestingNode::Terminal(0);
    let b = NoNestingNode::Terminal(1);
    let c = NoNestingNode::Terminal(2);
    let tree = NoNestingNode::Alternations(vec![
        NoNestingNode::Concatenations(vec![a, b]),
        c,
    ]);
    let rhs = flatten(&tree);
    let expected = Rhs {
        alternations: vec![
            Alternation {
                concatenations: vec![
                    OperatorFlattenedNode::Terminal(0),
                    OperatorFlattenedNode::Terminal(1),
                ],
            },
            Alternation {
                concatenations: vec![OperatorFlattenedNode::Terminal(2)],
            },
        ],
    };
    assert_eq!(rhs, expected);
}

#[test]
fn grouped_alternation_then_terminal() {
    // R -> ('a' | 'b') 'c'
    let tree = Node::Multiple(vec![
        Node::Group(Box::new(Node::Symbol(
            Box::new(Node::Terminal("a".to_string())),
            SymbolKind::Alternation,
            Box::new(Node::Terminal("b".to_string())),
        ))),
        Node::Terminal("c".to_string()),
    ]);
    let mut it = Interner::new();
    let (rhs, synthetic) = lower_rhs(&tree, &mut it);
    let expected = final_rhs(vec![
        vec![FinalNode::Terminal(0), FinalNode::Terminal(2)],
        vec![FinalNode::Terminal(1), FinalNode::Terminal(2)],
    ]);
    assert_eq!(rhs, expected);
    assert!(synthetic.is_empty());
    assert_eq!(it.resolve(0), Some("a".to_string()));
    assert_eq!(it.resolve(1), Some("b".to_string()));
    assert_eq!(it.resolve(2), Some("c".to_string()));
}

#[test]
fn optional_expands_to_alternative_with_empty_sequence() {
    let tree = Node::RegexExt(
        Box::new(Node::Terminal("a".to_string())),
        RegexExtKind::Optional,
    );
    let mut it = Interner::new();
    let (rhs, synthetic) = lower_rhs(&tree, &mut it);
    let expected = final_rhs(vec![vec![FinalNode::Terminal(0)], vec![]]);
    assert_eq!(rhs, expected);
    assert!(synthetic.is_empty());
}

#[test]
fn repeat_zero_or_more_emits_synthetic_rule() {
    let tree = Node::RegexExt(
        Box::new(Node::Terminal("x".to_string())),
        RegexExtKind::Repeat0,
    );
    let mut it = Interner::new();
    let (rhs, synthetic) = lower_rhs(&tree, &mut it);
    assert_eq!(rhs, final_rhs(vec![vec![FinalNode::Nonterminal(1)]]));
    assert_eq!(synthetic.len(), 1);
    assert_eq!(synthetic[0].0, 1);
    let body = final_rhs(vec![
        vec![FinalNode::Terminal(0), FinalNode::Nonterminal(1)],
        vec![],
    ]);
    assert_eq!(synthetic[0].1, body);
}

#[test]
fn repeat_one_or_more_emits_two_synthetic_rules() {
    let tree = Node::RegexExt(
        Box::new(Node::Terminal("x".to_string())),
        RegexExtKind::Repeat1,
    );
    let mut it = Interner::new();
    let (rhs, synthetic) = lower_rhs(&tree, &mut it);
    assert_eq!(rhs, final_rhs(vec![vec![FinalNode::Nonterminal(1)]]));
    assert_eq!(synthetic.len(), 2);
    assert_eq!(synthetic[0].0, 1);
    assert_eq!(
        synthetic[0].1,
        final_rhs(vec![vec![FinalNode::Terminal(0), FinalNode::Nonterminal(2)]])
    );
    assert_eq!(synthetic[1].0, 2);
    assert_eq!(
        synthetic[1].1,
        final_rhs(vec![
            vec![FinalNode::Nonterminal(1), FinalNode::Nonterminal(2)],
            vec![],
        ])
    );
}

#[test]
fn exception_atom_survives_and_collapses_to_symbol() {
    let tree = Node::EXCEPT(Excepted::Terminal("a".to_string()), None);
    let mut it = Interner::new();

    // Stage 2: the text is interned, the tag kept.
    let staged = intern_node(&tree, &mut it);
    assert!(matches!(
        staged,
        NodeWithID::EXCEPT(ExceptedWithID::Terminal(0), None)
    ));

    // Stage 3: structurally unchanged.
    let mut rules = Vec::new();
    let (flat_tree, next) = remove_nesting(&staged, 1, &mut rules);
    assert!(matches!(
        flat_tree,
        NoNestingNode::EXCEPT(ExceptedWithID::Terminal(0), None)
    ));
    assert_eq!(next, 1);
    assert!(rules.is_empty());

    // Stage 4: a single one-atom alternation, still tagged.
    let rhs = flatten(&flat_tree);
    assert_eq!(
        rhs,
        Rhs {
            alternations: vec![Alternation {
                concatenations: vec![OperatorFlattenedNode::EXCEPT(
                    ExceptedWithID::Terminal(0),
                    None
                )],
            }],
        }
    );

    // Stage 5: the tag collapses to the bare interned symbol.
    let canonical = finalize_rhs(&rhs);
    assert_eq!(canonical, final_rhs(vec![vec![FinalNode::EXCEPT(0, None)]]));
    assert_eq!(it.intern("a"), 0);
}

#[test]
fn nesting_removal_splices_nested_concatenations() {
    // (('a' 'b') 'c') keeps one flat concatenation.
    let tree = Node::Symbol(
        Box::new(Node::Symbol(
            Box::new(Node::Terminal("a".to_string())),
            SymbolKind::Concatenation,
            Box::new(Node::Terminal("b".to_string())),
        )),
        SymbolKind::Concatenation,
        Box::new(Node::Terminal("c".to_string())),
    );
    let mut it = Interner::new();
    let (rhs, _) = lower_rhs(&tree, &mut it);
    let expected = final_rhs(vec![vec![
        FinalNode::Terminal(0),
        FinalNode::Terminal(1),
        FinalNode::Terminal(2),
    ]]);
    assert_eq!(rhs, expected);
}

#[test]
fn lowering_is_deterministic() {
    let build = || {
        Node::Multiple(vec![
            Node::Group(Box::new(Node::Symbol(
                Box::new(Node::Terminal("a".to_string())),
                SymbolKind::Alternation,
                Box::new(Node::RegexString("[0-9]+".to_string())),
            ))),
            Node::RegexExt(
                Box::new(Node::Nonterminal("rest".to_string())),
                RegexExtKind::Repeat0,
            ),
        ])
    };
    let mut it1 = Interner::new();
    let mut it2 = Interner::new();
    let out1 = lower_rhs(&build(), &mut it1);
    let out2 = lower_rhs(&build(), &mut it2);
    assert_eq!(out1.0, out2.0);
    assert_eq!(out1.1, out2.1);
}

#[test]
fn regex_terminal_is_kept_distinct_from_plain_terminal() {
    let tree = Node::Symbol(
        Box::new(Node::Terminal("a".to_string())),
        SymbolKind::Concatenation,
        Box::new(Node::RegexString("a".to_string())),
    );
    let mut it = Interner::new();
    let (rhs, _) = lower_rhs(&tree, &mut it);
    // Equal texts share one symbol, but the atom kinds stay apart.
    let expected = final_rhs(vec![vec![
        FinalNode::Terminal(0),
        FinalNode::RegexString(0),
    ]]);
    assert_eq!(rhs, expected);
}

#[test]
fn empty_sequence_lowers_to_one_empty_alternative() {
    let tree = Node::Multiple(vec![]);
    let mut it = Interner::new();
    let (rhs, synthetic) = lower_rhs(&tree, &mut it);
    assert_eq!(rhs, final_rhs(vec![vec![]]));
    assert!(synthetic.is_empty());
    assert_eq!(it.len(), 0);
}

#[test]
fn optional_group_before_terminal() {
    // R -> ('a' | 'b')? 'c'
    let tree = Node::Multiple(vec![
        Node::RegexExt(
            Box::new(Node::Group(Box::new(Node::Symbol(
                Box::new(Node::Terminal("a".to_string())),
                SymbolKind::Alternation,
                Box::new(Node::Terminal("b".to_string())),
            )))),
            RegexExtKind::Optional,
        ),
        Node::Terminal("c".to_string()),
    ]);
    let mut it = Interner::new();
    let (rhs, synthetic) = lower_rhs(&tree, &mut it);
    let expected = final_rhs(vec![
        vec![FinalNode::Terminal(0), FinalNode::Terminal(2)],
        vec![FinalNode::Terminal(1), FinalNode::Terminal(2)],
        vec![FinalNode::Terminal(2)],
    ]);
    assert_eq!(rhs, expected);
    assert!(synthetic.is_empty());
}

#[test]
fn multiple_splices_nested_sequences() {
    let tree = Node::Multiple(vec![
        Node::Multiple(vec![
            Node::Terminal("a".to_string()),
            Node::Terminal("b".to_string()),
        ]),
        Node::Terminal("c".to_string()),
    ]);
    let mut it = Interner::new();
    let (rhs, _) = lower_rhs(&tree, &mut it);
    let expected = final_rhs(vec![vec![
        FinalNode::Terminal(0),
        FinalNode::Terminal(1),
        FinalNode::Terminal(2),
    ]]);
    assert_eq!(rhs, expected);
}

#[test]
fn bounded_exception_keeps_its_bound() {
    let tree = Node::EXCEPT(Excepted::Nonterminal("digits".to_string()), Some(3));
    let mut it = Interner::new();
    let (rhs, synthetic) = lower_rhs(&tree, &mut it);
    assert_eq!(rhs, final_rhs(vec![vec![FinalNode::EXCEPT(0, Some(3))]]));
    assert!(synthetic.is_empty());
    assert_eq!(it.resolve(0), Some("digits".to_string()));
}
