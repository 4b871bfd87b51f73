//! Dependency ordering of signatures.

use typecheck::db::Db;
use typecheck::error::Error;
use typecheck::model::{Expression, Item, ItemData, ItemKind, Model, Pattern};
use typecheck::toposort::{dependency_order, topological_sort};
use typecheck::ty::{OptType, PrimitiveType, VarType};
use typecheck::typecheck::PatternTy;
use typecheck::typer::collect_item_signature;
use typecheck::types::Type;

fn par_int_node() -> Type {
    Type::Primitive {
        inst: VarType::Par,
        opt: OptType::NonOpt,
        primitive_type: PrimitiveType::Int,
    }
}

fn pos(order: &[usize], x: usize) -> usize {
    order.iter().position(|&v| v == x).expect("not ordered")
}

#[test]
fn chain_is_ordered_dependencies_first() {
    let (order, cyclic) = topological_sort(3, &vec![(0, 1), (1, 2)]);
    assert!(cyclic.is_empty());
    assert_eq!(order.len(), 3);
    assert!(pos(&order, 2) < pos(&order, 1));
    assert!(pos(&order, 1) < pos(&order, 0));
}

#[test]
fn two_cycle_is_flagged() {
    let (order, cyclic) = topological_sort(2, &vec![(0, 1), (1, 0)]);
    assert!(order.is_empty());
    assert_eq!(cyclic.len(), 2);
    assert!(cyclic.contains(&0) && cyclic.contains(&1));
}

#[test]
fn independent_nodes_all_ordered() {
    let (order, cyclic) = topological_sort(4, &vec![]);
    assert!(cyclic.is_empty());
    assert_eq!(order.len(), 4);
}

/// `s: set of int`, then two bounded declarations over `s`, then an
/// `any` declaration over one of them.
fn chain_model() -> Model {
    let s = Item {
        kind: ItemKind::Declaration {
            declared_type: 1,
            pattern: 0,
            definition: None,
        },
        data: ItemData {
            types: vec![
                par_int_node(),
                Type::SetOf {
                    inst: VarType::Par,
                    opt: OptType::NonOpt,
                    element: 0,
                },
            ],
            expressions: vec![],
            patterns: vec![Pattern::Identifier(0)],
        },
    };
    let bounded = |name: u32| Item {
        kind: ItemKind::Declaration {
            declared_type: 0,
            pattern: 0,
            definition: None,
        },
        data: ItemData {
            types: vec![Type::Bounded {
                inst: Some(VarType::Var),
                opt: None,
                domain: 0,
            }],
            expressions: vec![Expression::Identifier(0)],
            patterns: vec![Pattern::Identifier(name)],
        },
    };
    let t = Item {
        kind: ItemKind::Declaration {
            declared_type: 0,
            pattern: 0,
            definition: Some(0),
        },
        data: ItemData {
            types: vec![Type::Any],
            expressions: vec![Expression::Identifier(1)],
            patterns: vec![Pattern::Identifier(3)],
        },
    };
    Model {
        names: vec![
            "s".to_string(),
            "y".to_string(),
            "z".to_string(),
            "t".to_string(),
        ],
        items: vec![s, bounded(1), bounded(2), t],
    }
}

#[test]
fn signature_dependencies_are_ordered_before_their_dependents() {
    let model = chain_model();
    let (order, cyclic, _) = dependency_order(&model);
    assert!(cyclic.is_empty());
    assert_eq!(order.len(), 4);
    assert!(pos(&order, 0) < pos(&order, 1));
    assert!(pos(&order, 0) < pos(&order, 2));
    assert!(pos(&order, 1) < pos(&order, 3));
}

#[test]
fn following_the_order_triggers_no_cycle_guard() {
    let model = chain_model();
    let mut db = Db::new(model);
    let (order, cyclic, _) = dependency_order(&db.model);
    assert!(cyclic.is_empty());
    for &i in &order {
        let (_, errs) = collect_item_signature(&mut db, i);
        assert!(
            !errs
                .iter()
                .any(|e| matches!(e, Error::CyclicTypeDependency { .. })),
            "cycle guard fired for item {}",
            i
        );
    }
}

#[test]
fn mutually_referential_signatures_are_flagged_and_terminate() {
    // u: any = v; v: any = u
    let mk = |other: u32, name: u32| Item {
        kind: ItemKind::Declaration {
            declared_type: 0,
            pattern: 0,
            definition: Some(0),
        },
        data: ItemData {
            types: vec![Type::Any],
            expressions: vec![Expression::Identifier(other)],
            patterns: vec![Pattern::Identifier(name)],
        },
    };
    let model = Model {
        names: vec!["u".to_string(), "v".to_string()],
        items: vec![mk(1, 0), mk(0, 1)],
    };
    let (order, cyclic, _) = dependency_order(&model);
    assert!(order.is_empty());
    assert_eq!(cyclic.len(), 2);
    // Typing still terminates, under the cycle guard
    let mut db = Db::new(model);
    let (_, errs) = collect_item_signature(&mut db, 0);
    assert!(errs
        .iter()
        .any(|e| matches!(e, Error::CyclicTypeDependency { .. })));
}

#[test]
fn shuffling_unrelated_items_keeps_computed_types() {
    let a = |name: u32| Item {
        kind: ItemKind::Declaration {
            declared_type: 0,
            pattern: 0,
            definition: Some(0),
        },
        data: ItemData {
            types: vec![Type::Any],
            expressions: vec![Expression::IntegerLiteral(5)],
            patterns: vec![Pattern::Identifier(name)],
        },
    };
    let b = |name: u32| Item {
        kind: ItemKind::Declaration {
            declared_type: 0,
            pattern: 0,
            definition: Some(0),
        },
        data: ItemData {
            types: vec![Type::Any],
            expressions: vec![Expression::BooleanLiteral(true)],
            patterns: vec![Pattern::Identifier(name)],
        },
    };
    let names = vec!["a".to_string(), "b".to_string()];
    let m1 = Model {
        names: names.clone(),
        items: vec![a(0), b(1)],
    };
    let m2 = Model {
        names,
        items: vec![b(1), a(0)],
    };
    let mut db1 = Db::new(m1);
    let mut db2 = Db::new(m2);
    let (s1a, _) = collect_item_signature(&mut db1, 0);
    let (s2a, _) = collect_item_signature(&mut db2, 1);
    let t1 = match s1a.patterns.get(0, 0) {
        Some(PatternTy::Variable(t)) => *t,
        other => panic!("unexpected {:?}", other),
    };
    let t2 = match s2a.patterns.get(1, 0) {
        Some(PatternTy::Variable(t)) => *t,
        other => panic!("unexpected {:?}", other),
    };
    // The same declaration computes the same type in either order
    assert_eq!(db1.interner.get(t1), db2.interner.get(t2));
    assert_eq!(t1, db1.registry.par_int);
    assert_eq!(t2, db2.registry.par_int);
}

#[test]
fn self_loop_is_flagged() {
    let (order, cyclic) = topological_sort(2, &vec![(0, 0)]);
    assert_eq!(order, vec![1]);
    assert_eq!(cyclic, vec![0]);
}
