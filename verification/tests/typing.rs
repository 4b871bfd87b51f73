//! End-to-end typing of items: inference, overloads, cycle guard and
//! error recovery.

use typecheck::db::Db;
use typecheck::error::Error;
use typecheck::model::{
    Expression, Item, ItemData, ItemKind, Model, Parameter, Pattern, PatternRef,
};
use typecheck::signature::SignatureTypeContext;
use typecheck::ty::{OptType, PrimitiveType, TyData, VarType};
use typecheck::typecheck::{PatternTy, TypeContext, TypeDiagnostics, TypeResult};
use typecheck::typer::{collect_item_body, collect_item_signature};
use typecheck::types::Type;

fn par_int_node() -> Type {
    Type::Primitive {
        inst: VarType::Par,
        opt: OptType::NonOpt,
        primitive_type: PrimitiveType::Int,
    }
}

fn var_int_node() -> Type {
    Type::Primitive {
        inst: VarType::Var,
        opt: OptType::NonOpt,
        primitive_type: PrimitiveType::Int,
    }
}

fn decl(
    name: u32,
    types: Vec<Type>,
    declared_type: usize,
    expressions: Vec<Expression>,
    definition: Option<usize>,
) -> Item {
    Item {
        kind: ItemKind::Declaration {
            declared_type,
            pattern: 0,
            definition,
        },
        data: ItemData {
            types,
            expressions,
            patterns: vec![Pattern::Identifier(name)],
        },
    }
}

/// A function item `f(<param>) -> <ret>` with one parameter.
fn unary_fn(name: u32, param_name: u32, ret: Type, param: Type) -> Item {
    Item {
        kind: ItemKind::Function {
            pattern: 0,
            return_type: 0,
            parameters: vec![Parameter {
                declared_type: 1,
                pattern: 1,
            }],
            body: None,
        },
        data: ItemData {
            types: vec![ret, param],
            expressions: vec![],
            patterns: vec![Pattern::Identifier(name), Pattern::Identifier(param_name)],
        },
    }
}

#[test]
fn any_declaration_infers_from_initialiser() {
    // x: any = 5 infers par int
    let model = Model {
        names: vec!["x".to_string()],
        items: vec![decl(
            0,
            vec![Type::Any],
            0,
            vec![Expression::IntegerLiteral(5)],
            Some(0),
        )],
    };
    let mut db = Db::new(model);
    let (sig, errs) = collect_item_signature(&mut db, 0);
    assert!(errs.is_empty());
    match sig.patterns.get(0, 0) {
        Some(PatternTy::Variable(t)) => assert_eq!(*t, db.registry.par_int),
        other => panic!("unexpected pattern type {:?}", other),
    }
}

#[test]
fn any_declaration_without_initialiser_reports_uninferrable() {
    let model = Model {
        names: vec!["x".to_string()],
        items: vec![decl(0, vec![Type::Any], 0, vec![], None)],
    };
    let mut db = Db::new(model);
    let (sig, errs) = collect_item_signature(&mut db, 0);
    assert_eq!(
        errs,
        vec![Error::UninferrableAny {
            pattern: PatternRef {
                item: 0,
                pattern: 0
            }
        }]
    );
    match sig.patterns.get(0, 0) {
        Some(PatternTy::Variable(t)) => assert_eq!(*t, db.registry.error),
        other => panic!("unexpected pattern type {:?}", other),
    }
}

#[test]
fn self_referential_declaration_reports_one_cycle_and_error_type() {
    // x: any = x must answer exactly one cyclic-dependency diagnostic
    // and an error type, not diverge
    let model = Model {
        names: vec!["x".to_string()],
        items: vec![decl(
            0,
            vec![Type::Any],
            0,
            vec![Expression::Identifier(0)],
            Some(0),
        )],
    };
    let mut db = Db::new(model);
    let (sig, errs) = collect_item_signature(&mut db, 0);
    assert_eq!(
        errs,
        vec![Error::CyclicTypeDependency {
            pattern: PatternRef {
                item: 0,
                pattern: 0
            }
        }]
    );
    match sig.patterns.get(0, 0) {
        Some(PatternTy::Variable(t)) => assert_eq!(*t, db.registry.error),
        other => panic!("unexpected pattern type {:?}", other),
    }
}

#[test]
fn cycle_through_a_call_terminates_with_one_diagnostic() {
    // x: any = f(x) with f(par int) -> par int
    let model = Model {
        names: vec!["f".to_string(), "x".to_string(), "a".to_string()],
        items: vec![
            unary_fn(0, 2, par_int_node(), par_int_node()),
            decl(
                1,
                vec![Type::Any],
                0,
                vec![
                    Expression::Identifier(1),
                    Expression::Identifier(0),
                    Expression::Call {
                        function: 1,
                        arguments: vec![0],
                    },
                ],
                Some(2),
            ),
        ],
    };
    let mut db = Db::new(model);
    let (_, errs) = collect_item_signature(&mut db, 1);
    let cyclic: Vec<&Error> = errs
        .iter()
        .filter(|e| matches!(e, Error::CyclicTypeDependency { .. }))
        .collect();
    assert_eq!(cyclic.len(), 1);
}

#[test]
fn type_pattern_is_idempotent() {
    // The second call answers the identical type without re-reporting
    let model = Model {
        names: vec!["x".to_string()],
        items: vec![decl(
            0,
            vec![Type::Any],
            0,
            vec![Expression::IntegerLiteral(5)],
            Some(0),
        )],
    };
    let mut db = Db::new(model);
    let mut ctx = SignatureTypeContext::new(0);
    let p = PatternRef {
        item: 0,
        pattern: 0,
    };
    let first = ctx.type_pattern(&mut db, p);
    let diags_after_first = ctx.state.diagnostics.len();
    let second = ctx.type_pattern(&mut db, p);
    assert_eq!(first, second);
    assert_eq!(ctx.state.diagnostics.len(), diags_after_first);
}

#[test]
fn unresolved_name_is_reported_and_recovered() {
    let model = Model {
        names: vec!["x".to_string()],
        items: vec![decl(
            0,
            vec![Type::Any],
            0,
            vec![Expression::Identifier(7)],
            Some(0),
        )],
    };
    let mut db = Db::new(model);
    let (sig, errs) = collect_item_signature(&mut db, 0);
    assert_eq!(errs.len(), 1);
    assert!(matches!(errs[0], Error::UnresolvedName { name: 7, .. }));
    // Checking continued: the declaration still has a (error) type
    assert!(sig.patterns.get(0, 0).is_some());
}

#[test]
fn overloaded_call_selects_most_specific() {
    // f(par int) -> par int and f(var int) -> var int
    let model = Model {
        names: vec![
            "f".to_string(),
            "x".to_string(),
            "v".to_string(),
            "y".to_string(),
            "a".to_string(),
        ],
        items: vec![
            unary_fn(0, 4, par_int_node(), par_int_node()),
            unary_fn(0, 4, var_int_node(), var_int_node()),
            // x: any = f(5) selects the par overload
            decl(
                1,
                vec![Type::Any],
                0,
                vec![
                    Expression::IntegerLiteral(5),
                    Expression::Identifier(0),
                    Expression::Call {
                        function: 1,
                        arguments: vec![0],
                    },
                ],
                Some(2),
            ),
            // v: var int
            decl(2, vec![var_int_node()], 0, vec![], None),
            // y: any = f(v) selects the var overload
            decl(
                3,
                vec![Type::Any],
                0,
                vec![
                    Expression::Identifier(2),
                    Expression::Identifier(0),
                    Expression::Call {
                        function: 1,
                        arguments: vec![0],
                    },
                ],
                Some(2),
            ),
        ],
    };
    let mut db = Db::new(model);
    let (sig_x, errs_x) = collect_item_signature(&mut db, 2);
    assert!(errs_x.is_empty());
    match sig_x.patterns.get(2, 0) {
        Some(PatternTy::Variable(t)) => assert_eq!(*t, db.registry.par_int),
        other => panic!("unexpected {:?}", other),
    }
    let (sig_y, errs_y) = collect_item_signature(&mut db, 4);
    assert!(errs_y.is_empty());
    match sig_y.patterns.get(4, 0) {
        Some(PatternTy::Variable(t)) => assert_eq!(*t, db.registry.var_int),
        other => panic!("unexpected {:?}", other),
    }
    // The call resolved the identifier to the selected overload's item
    match sig_x.identifier_resolution.get(2, 1) {
        Some(p) => assert_eq!(*p, PatternRef { item: 0, pattern: 0 }),
        None => panic!("no resolution recorded"),
    }
    match sig_y.identifier_resolution.get(4, 1) {
        Some(p) => assert_eq!(*p, PatternRef { item: 1, pattern: 0 }),
        None => panic!("no resolution recorded"),
    }
}

#[test]
fn call_with_unrelated_argument_reports_no_matching_overload() {
    let model = Model {
        names: vec!["f".to_string(), "x".to_string(), "a".to_string()],
        items: vec![
            unary_fn(0, 2, par_int_node(), par_int_node()),
            decl(
                1,
                vec![Type::Any],
                0,
                vec![
                    Expression::StringLiteral,
                    Expression::Identifier(0),
                    Expression::Call {
                        function: 1,
                        arguments: vec![0],
                    },
                ],
                Some(2),
            ),
        ],
    };
    let mut db = Db::new(model);
    let (sig, errs) = collect_item_signature(&mut db, 1);
    assert_eq!(errs.len(), 1);
    assert!(matches!(errs[0], Error::NoMatchingOverload { name: 0, .. }));
    match sig.patterns.get(1, 0) {
        Some(PatternTy::Variable(t)) => assert_eq!(*t, db.registry.error),
        other => panic!("unexpected {:?}", other),
    }
}

#[test]
fn equally_specific_overloads_report_ambiguity() {
    let model = Model {
        names: vec!["f".to_string(), "x".to_string(), "a".to_string()],
        items: vec![
            unary_fn(0, 2, par_int_node(), par_int_node()),
            unary_fn(0, 2, var_int_node(), par_int_node()),
            decl(
                1,
                vec![Type::Any],
                0,
                vec![
                    Expression::IntegerLiteral(1),
                    Expression::Identifier(0),
                    Expression::Call {
                        function: 1,
                        arguments: vec![0],
                    },
                ],
                Some(2),
            ),
        ],
    };
    let mut db = Db::new(model);
    let (_, errs) = collect_item_signature(&mut db, 2);
    assert_eq!(errs.len(), 1);
    assert!(matches!(errs[0], Error::AmbiguousOverload { name: 0, .. }));
}

#[test]
fn type_result_falls_back_from_body_to_signature() {
    // x: int = 5: the pattern's type lives in the signature results;
    // the body holds the initialiser's expression type
    let model = Model {
        names: vec!["x".to_string()],
        items: vec![decl(
            0,
            vec![par_int_node()],
            0,
            vec![Expression::IntegerLiteral(5)],
            Some(0),
        )],
    };
    let mut db = Db::new(model);
    let result = TypeResult::new(&mut db, 0);
    match result.get_pattern(0) {
        Some(PatternTy::Variable(t)) => assert_eq!(*t, db.registry.par_int),
        other => panic!("unexpected {:?}", other),
    }
    assert_eq!(result.get_expression(0), Some(db.registry.par_int));
    // Neither map holds an entry: absent, not a fatal error
    assert!(result.get_pattern(9).is_none());
    assert!(result.get_expression(9).is_none());
    assert!(result.name_resolution(9).is_none());
    assert!(result.pattern_resolution(9).is_none());
}

#[test]
fn initialiser_must_fit_declared_type() {
    // x: var int = true is a structural mismatch in the body
    let model = Model {
        names: vec!["x".to_string()],
        items: vec![decl(
            0,
            vec![var_int_node()],
            0,
            vec![Expression::BooleanLiteral(true)],
            Some(0),
        )],
    };
    let mut db = Db::new(model);
    let (_, errs) = collect_item_body(&mut db, 0);
    assert_eq!(errs.len(), 1);
    assert!(matches!(errs[0], Error::StructuralTypeMismatch { .. }));
}

#[test]
fn constraint_must_be_boolean() {
    let ok = Item {
        kind: ItemKind::Constraint { expression: 0 },
        data: ItemData {
            types: vec![],
            expressions: vec![Expression::BooleanLiteral(true)],
            patterns: vec![],
        },
    };
    let bad = Item {
        kind: ItemKind::Constraint { expression: 0 },
        data: ItemData {
            types: vec![],
            expressions: vec![Expression::IntegerLiteral(1)],
            patterns: vec![],
        },
    };
    let model = Model {
        names: vec![],
        items: vec![ok, bad],
    };
    let mut db = Db::new(model);
    let (_, errs0) = collect_item_body(&mut db, 0);
    assert!(errs0.is_empty());
    let (_, errs1) = collect_item_body(&mut db, 1);
    assert_eq!(errs1.len(), 1);
    assert!(matches!(errs1[0], Error::StructuralTypeMismatch { .. }));
}

#[test]
fn structural_errors_recover_with_error_types() {
    // (1, true).2 is par bool; .3 is out of range; 5(1) applies a
    // non-function; [1,2][true] mismatches the index
    let exprs = vec![
        Expression::IntegerLiteral(1),
        Expression::BooleanLiteral(true),
        Expression::TupleLiteral(vec![0, 1]),
        Expression::TupleAccess { tuple: 2, field: 2 },
    ];
    let model = Model {
        names: vec!["x".to_string()],
        items: vec![decl(0, vec![Type::Any], 0, exprs, Some(3))],
    };
    let mut db = Db::new(model);
    let (sig, errs) = collect_item_signature(&mut db, 0);
    assert!(errs.is_empty());
    match sig.patterns.get(0, 0) {
        Some(PatternTy::Variable(t)) => assert_eq!(*t, db.registry.par_bool),
        other => panic!("unexpected {:?}", other),
    }

    let model2 = Model {
        names: vec!["x".to_string()],
        items: vec![decl(
            0,
            vec![Type::Any],
            0,
            vec![
                Expression::IntegerLiteral(1),
                Expression::TupleLiteral(vec![0]),
                Expression::TupleAccess { tuple: 1, field: 3 },
            ],
            Some(2),
        )],
    };
    let mut db2 = Db::new(model2);
    let (_, errs2) = collect_item_signature(&mut db2, 0);
    assert_eq!(errs2.len(), 1);
    assert!(matches!(errs2[0], Error::StructuralTypeMismatch { .. }));

    let model3 = Model {
        names: vec!["x".to_string()],
        items: vec![decl(
            0,
            vec![Type::Any],
            0,
            vec![
                Expression::IntegerLiteral(5),
                Expression::IntegerLiteral(1),
                Expression::Call {
                    function: 0,
                    arguments: vec![1],
                },
            ],
            Some(2),
        )],
    };
    let mut db3 = Db::new(model3);
    let (_, errs3) = collect_item_signature(&mut db3, 0);
    assert_eq!(errs3.len(), 1);
    assert!(matches!(errs3[0], Error::StructuralTypeMismatch { .. }));

    let model4 = Model {
        names: vec!["x".to_string()],
        items: vec![decl(
            0,
            vec![Type::Any],
            0,
            vec![
                Expression::IntegerLiteral(1),
                Expression::IntegerLiteral(2),
                Expression::ArrayLiteral(vec![0, 1]),
                Expression::BooleanLiteral(true),
                Expression::ArrayAccess {
                    collection: 2,
                    index: 3,
                },
            ],
            Some(4),
        )],
    };
    let mut db4 = Db::new(model4);
    let (_, errs4) = collect_item_signature(&mut db4, 0);
    assert_eq!(errs4.len(), 1);
    assert!(matches!(errs4[0], Error::StructuralTypeMismatch { .. }));
}

#[test]
fn array_and_set_literals_compose_structurally() {
    // x: any = [1, 2] is array [int] of par int
    let model = Model {
        names: vec!["x".to_string()],
        items: vec![decl(
            0,
            vec![Type::Any],
            0,
            vec![
                Expression::IntegerLiteral(1),
                Expression::IntegerLiteral(2),
                Expression::ArrayLiteral(vec![0, 1]),
            ],
            Some(2),
        )],
    };
    let mut db = Db::new(model);
    let (sig, errs) = collect_item_signature(&mut db, 0);
    assert!(errs.is_empty());
    let t = match sig.patterns.get(0, 0) {
        Some(PatternTy::Variable(t)) => *t,
        other => panic!("unexpected {:?}", other),
    };
    match db.interner.get(t) {
        TyData::Array {
            dimensions,
            element,
            ..
        } => {
            assert_eq!(*dimensions, db.registry.par_int);
            assert_eq!(*element, db.registry.par_int);
        }
        other => panic!("unexpected {:?}", other),
    }
}

#[test]
fn bounded_declaration_takes_element_type_of_domain() {
    // s: set of int = ...; y: var s-domain is var int
    let set_item = decl(
        0,
        vec![
            par_int_node(),
            Type::SetOf {
                inst: VarType::Par,
                opt: OptType::NonOpt,
                element: 0,
            },
        ],
        1,
        vec![],
        None,
    );
    let bounded_item = Item {
        kind: ItemKind::Declaration {
            declared_type: 0,
            pattern: 0,
            definition: None,
        },
        data: ItemData {
            types: vec![Type::Bounded {
                inst: Some(VarType::Var),
                opt: None,
                domain: 0,
            }],
            expressions: vec![Expression::Identifier(0)],
            patterns: vec![Pattern::Identifier(1)],
        },
    };
    let model = Model {
        names: vec!["s".to_string(), "y".to_string()],
        items: vec![set_item, bounded_item],
    };
    let mut db = Db::new(model);
    let (sig, errs) = collect_item_signature(&mut db, 1);
    assert!(errs.is_empty());
    match sig.patterns.get(1, 0) {
        Some(PatternTy::Variable(t)) => assert_eq!(*t, db.registry.var_int),
        other => panic!("unexpected {:?}", other),
    }
}

#[test]
fn function_body_is_checked_against_return_type() {
    // f(a: par int) -> par int = a  passes; = true fails
    let mk = |body_expr: Expression| Item {
        kind: ItemKind::Function {
            pattern: 0,
            return_type: 0,
            parameters: vec![Parameter {
                declared_type: 1,
                pattern: 1,
            }],
            body: Some(0),
        },
        data: ItemData {
            types: vec![par_int_node(), par_int_node()],
            expressions: vec![body_expr],
            patterns: vec![Pattern::Identifier(0), Pattern::Identifier(1)],
        },
    };
    let model = Model {
        names: vec!["f".to_string(), "a".to_string()],
        items: vec![mk(Expression::Identifier(1)), mk(Expression::BooleanLiteral(true))],
    };
    let mut db = Db::new(model);
    let (body0, errs0) = collect_item_body(&mut db, 0);
    assert!(errs0.is_empty());
    // The parameter reference resolved through the cached signature
    assert_eq!(
        body0.expressions.get(0, 0).copied(),
        Some(db.registry.par_int)
    );
    let (_, errs1) = collect_item_body(&mut db, 1);
    assert_eq!(errs1.len(), 1);
    assert!(matches!(errs1[0], Error::StructuralTypeMismatch { .. }));
}

#[test]
fn assignment_and_output_are_checked() {
    let x = decl(0, vec![par_int_node()], 0, vec![], None);
    let assign_ok = Item {
        kind: ItemKind::Assignment {
            assignee: 0,
            definition: 1,
        },
        data: ItemData {
            types: vec![],
            expressions: vec![Expression::Identifier(0), Expression::IntegerLiteral(3)],
            patterns: vec![],
        },
    };
    let assign_bad = Item {
        kind: ItemKind::Assignment {
            assignee: 0,
            definition: 1,
        },
        data: ItemData {
            types: vec![],
            expressions: vec![Expression::Identifier(0), Expression::BooleanLiteral(true)],
            patterns: vec![],
        },
    };
    let output_ok = Item {
        kind: ItemKind::Output { expression: 0 },
        data: ItemData {
            types: vec![],
            expressions: vec![Expression::StringLiteral],
            patterns: vec![],
        },
    };
    let output_bad = Item {
        kind: ItemKind::Output { expression: 0 },
        data: ItemData {
            types: vec![],
            expressions: vec![Expression::IntegerLiteral(1)],
            patterns: vec![],
        },
    };
    let model = Model {
        names: vec!["x".to_string()],
        items: vec![x, assign_ok, assign_bad, output_ok, output_bad],
    };
    let mut db = Db::new(model);
    assert!(collect_item_body(&mut db, 1).1.is_empty());
    assert_eq!(collect_item_body(&mut db, 2).1.len(), 1);
    assert!(collect_item_body(&mut db, 3).1.is_empty());
    assert_eq!(collect_item_body(&mut db, 4).1.len(), 1);
}

#[test]
fn diagnostics_split_signature_from_body() {
    // x: any has a signature error and no body error
    let model = Model {
        names: vec!["x".to_string()],
        items: vec![
            decl(0, vec![Type::Any], 0, vec![], None),
            Item {
                kind: ItemKind::Constraint { expression: 0 },
                data: ItemData {
                    types: vec![],
                    expressions: vec![Expression::IntegerLiteral(1)],
                    patterns: vec![],
                },
            },
        ],
    };
    let mut db = Db::new(model);
    let d0 = TypeDiagnostics::new(&mut db, 0);
    assert_eq!(d0.0.len(), 1);
    assert!(matches!(d0.0[0], Error::UninferrableAny { .. }));
    assert_eq!(d0.1.as_ref().map(|v| v.len()), Some(0));
    assert_eq!(d0.iter().len(), 1);
    assert_eq!(d0.outer_iter().len(), 2);
    // A constraint item has only body errors
    let d1 = TypeDiagnostics::new(&mut db, 1);
    assert!(d1.1.is_none());
    assert_eq!(d1.0.len(), 1);
    assert_eq!(d1.outer_iter().len(), 1);
    assert_eq!(d1.iter(), d1.0);
}

#[test]
fn set_literal_and_tuple_compose() {
    // x: any = {1, 2} is set of par int; y: any = (1, true)
    let model = Model {
        names: vec!["x".to_string()],
        items: vec![decl(
            0,
            vec![Type::Any],
            0,
            vec![
                Expression::IntegerLiteral(1),
                Expression::IntegerLiteral(2),
                Expression::SetLiteral(vec![0, 1]),
            ],
            Some(2),
        )],
    };
    let mut db = Db::new(model);
    let (sig, errs) = collect_item_signature(&mut db, 0);
    assert!(errs.is_empty());
    let t = match sig.patterns.get(0, 0) {
        Some(PatternTy::Variable(t)) => *t,
        other => panic!("unexpected {:?}", other),
    };
    match db.interner.get(t) {
        TyData::SetOf { inst, opt, element } => {
            assert_eq!(*inst, VarType::Par);
            assert_eq!(*opt, OptType::NonOpt);
            assert_eq!(*element, db.registry.par_int);
        }
        other => panic!("unexpected {:?}", other),
    }

    let model2 = Model {
        names: vec!["y".to_string()],
        items: vec![decl(
            0,
            vec![Type::Any],
            0,
            vec![
                Expression::IntegerLiteral(1),
                Expression::BooleanLiteral(true),
                Expression::TupleLiteral(vec![0, 1]),
            ],
            Some(2),
        )],
    };
    let mut db2 = Db::new(model2);
    let (sig2, errs2) = collect_item_signature(&mut db2, 0);
    assert!(errs2.is_empty());
    let t2 = match sig2.patterns.get(0, 0) {
        Some(PatternTy::Variable(t)) => *t,
        other => panic!("unexpected {:?}", other),
    };
    match db2.interner.get(t2) {
        TyData::Tuple { fields, .. } => {
            assert_eq!(fields, &vec![db2.registry.par_int, db2.registry.par_bool]);
        }
        other => panic!("unexpected {:?}", other),
    }
}

#[test]
fn mixed_array_literal_elements_are_a_mismatch() {
    // [1, true] has no common element type
    let model = Model {
        names: vec!["x".to_string()],
        items: vec![decl(
            0,
            vec![Type::Any],
            0,
            vec![
                Expression::IntegerLiteral(1),
                Expression::BooleanLiteral(true),
                Expression::ArrayLiteral(vec![0, 1]),
            ],
            Some(2),
        )],
    };
    let mut db = Db::new(model);
    let (_, errs) = collect_item_signature(&mut db, 0);
    assert_eq!(errs.len(), 1);
    assert!(matches!(errs[0], Error::StructuralTypeMismatch { .. }));
}

#[test]
fn bounded_declaration_over_a_non_set_domain_is_a_mismatch() {
    // x: int = 5; y: (domain x) — the domain must be a set
    let x = decl(0, vec![par_int_node()], 0, vec![], None);
    let y = Item {
        kind: ItemKind::Declaration {
            declared_type: 0,
            pattern: 0,
            definition: None,
        },
        data: ItemData {
            types: vec![Type::Bounded {
                inst: None,
                opt: None,
                domain: 0,
            }],
            expressions: vec![Expression::Identifier(0)],
            patterns: vec![Pattern::Identifier(1)],
        },
    };
    let model = Model {
        names: vec!["x".to_string(), "y".to_string()],
        items: vec![x, y],
    };
    let mut db = Db::new(model);
    let (sig, errs) = collect_item_signature(&mut db, 1);
    assert_eq!(errs.len(), 1);
    assert!(matches!(errs[0], Error::StructuralTypeMismatch { .. }));
    match sig.patterns.get(1, 0) {
        Some(PatternTy::Variable(t)) => assert_eq!(*t, db.registry.error),
        other => panic!("unexpected {:?}", other),
    }
}

#[test]
fn empty_literals_use_the_bottom_types() {
    let model = Model {
        names: vec!["x".to_string()],
        items: vec![decl(
            0,
            vec![Type::Any],
            0,
            vec![Expression::ArrayLiteral(vec![])],
            Some(0),
        )],
    };
    let mut db = Db::new(model);
    let (sig, errs) = collect_item_signature(&mut db, 0);
    assert!(errs.is_empty());
    match sig.patterns.get(0, 0) {
        Some(PatternTy::Variable(t)) => assert_eq!(*t, db.registry.array_of_bottom),
        other => panic!("unexpected {:?}", other),
    }
}

#[test]
fn registry_holds_all_common_types() {
    let model = Model {
        names: vec![],
        items: vec![],
    };
    let db = Db::new(model);
    assert_eq!(db.registry.all.len(), 14);
    assert!(db.registry.all.contains(&db.registry.par_int));
    assert!(db.registry.all.contains(&db.registry.error));
    assert!(db.registry.all.contains(&db.registry.array_of_bottom));
}
