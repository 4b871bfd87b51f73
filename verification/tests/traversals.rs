//! Declared-type tree traversals.

use typecheck::model::{Expression, ItemData, Pattern};
use typecheck::ty::{OptType, PrimitiveType, VarType};
use typecheck::types::Type;

fn data_with_types(types: Vec<Type>) -> ItemData {
    ItemData {
        types,
        expressions: vec![Expression::Missing],
        patterns: vec![Pattern::Anonymous],
    }
}

fn par_int_node() -> Type {
    Type::Primitive {
        inst: VarType::Par,
        opt: OptType::NonOpt,
        primitive_type: PrimitiveType::Int,
    }
}

#[test]
fn complete_tree_has_no_any() {
    // tuple(int, set of int)
    let data = data_with_types(vec![
        par_int_node(),
        par_int_node(),
        Type::SetOf {
            inst: VarType::Par,
            opt: OptType::NonOpt,
            element: 1,
        },
        Type::Tuple {
            opt: OptType::NonOpt,
            fields: vec![0, 2],
        },
    ]);
    assert!(Type::is_complete(3, &data));
    assert_eq!(Type::any_types(3, &data), Vec::<usize>::new());
}

#[test]
fn any_makes_tree_incomplete() {
    // array [int] of any
    let data = data_with_types(vec![
        Type::Any,
        par_int_node(),
        Type::Array {
            opt: OptType::NonOpt,
            dimensions: 1,
            element: 0,
        },
    ]);
    assert!(!Type::is_complete(2, &data));
    assert_eq!(Type::any_types(2, &data), vec![0]);
    // The `Any` node alone is also incomplete
    assert!(!Type::is_complete(0, &data));
    // A leaf with no `Any` stays complete
    assert!(Type::is_complete(1, &data));
}

#[test]
fn completeness_agrees_with_any_traversal_at_every_root() {
    // is_complete(t) is false exactly when any_types(t) is non-empty
    let data = data_with_types(vec![
        Type::Any,
        par_int_node(),
        Type::Array {
            opt: OptType::NonOpt,
            dimensions: 1,
            element: 0,
        },
        par_int_node(),
        Type::Tuple {
            opt: OptType::NonOpt,
            fields: vec![3],
        },
    ]);
    for t in 0..5 {
        assert_eq!(
            Type::is_complete(t, &data),
            Type::any_types(t, &data).is_empty(),
            "disagree at root {}",
            t
        );
    }
}

#[test]
fn missing_counts_as_complete() {
    let data = data_with_types(vec![Type::Missing]);
    assert!(Type::is_complete(0, &data));
    assert_eq!(Type::any_types(0, &data), Vec::<usize>::new());
}

#[test]
fn walk_is_preorder_with_children_in_declaration_order() {
    let data = data_with_types(vec![
        par_int_node(),
        par_int_node(),
        Type::Tuple {
            opt: OptType::NonOpt,
            fields: vec![0, 1],
        },
        Type::SetOf {
            inst: VarType::Par,
            opt: OptType::NonOpt,
            element: 2,
        },
    ]);
    assert_eq!(Type::walk(3, &data), vec![3, 2, 0, 1]);
    assert_eq!(Type::walk(2, &data), vec![2, 0, 1]);
    assert_eq!(Type::walk(0, &data), vec![0]);
}

#[test]
fn array_walk_visits_dimensions_then_element() {
    let data = data_with_types(vec![
        par_int_node(),
        Type::Any,
        Type::Array {
            opt: OptType::NonOpt,
            dimensions: 0,
            element: 1,
        },
    ]);
    assert_eq!(Type::walk(2, &data), vec![2, 0, 1]);
}

#[test]
fn filtered_traversals_pick_matching_nodes_in_walk_order() {
    // record(a: op(int: ()), b: var _) with a bounded node inside
    let data = ItemData {
        types: vec![
            par_int_node(),
            Type::Operation {
                opt: OptType::NonOpt,
                return_type: 0,
                parameter_types: vec![],
            },
            Type::AnonymousTypeInstVar {
                inst: None,
                opt: None,
                pattern: 0,
            },
            Type::Bounded {
                inst: Some(VarType::Var),
                opt: None,
                domain: 2,
            },
            Type::Record {
                opt: OptType::NonOpt,
                fields: vec![(0, 1), (0, 2), (0, 3)],
            },
        ],
        expressions: vec![
            Expression::IntegerLiteral(1),
            Expression::IntegerLiteral(2),
            Expression::IntegerLiteral(3),
        ],
        patterns: vec![Pattern::Anonymous],
    };
    assert_eq!(Type::operations(4, &data), vec![1]);
    assert_eq!(Type::anonymous_ty_vars(4, &data), vec![2]);
    assert_eq!(Type::primitives(4, &data), vec![0]);
    assert_eq!(Type::expressions(4, &data), vec![2]);
    assert_eq!(Type::any_types(4, &data), Vec::<usize>::new());
    assert!(Type::is_complete(4, &data));
}
