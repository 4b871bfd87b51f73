//! Rendering of computed types.

use typecheck::db::Db;
use typecheck::model::{Expression, Item, ItemData, ItemKind, Model, Parameter, Pattern};
use typecheck::pretty::{decimal_string, pretty_ty};
use typecheck::registry::TypeRegistry;
use typecheck::ty::{Interner, OptType, PrimitiveType, TyData, VarType};
use typecheck::body::BodyTypeContext;
use typecheck::model::PatternRef;
use typecheck::signature::SignatureTypeContext;
use typecheck::typecheck::{PatternTy, TypeContext, TypeResult};
use typecheck::types::Type;

#[test]
fn decimal_rendering() {
    assert_eq!(decimal_string(0), "0");
    assert_eq!(decimal_string(7), "7");
    assert_eq!(decimal_string(12345), "12345");
}

#[test]
fn primitive_and_composite_types_render() {
    let mut it = Interner::new();
    let reg = TypeRegistry::new(&mut it);
    let names: Vec<String> = vec![];
    assert_eq!(pretty_ty(&it, &names, reg.par_int), "int");
    assert_eq!(pretty_ty(&it, &names, reg.var_int), "var int");
    assert_eq!(pretty_ty(&it, &names, reg.var_bool), "var bool");
    assert_eq!(pretty_ty(&it, &names, reg.string), "string");
    assert_eq!(pretty_ty(&it, &names, reg.error), "error");
    assert_eq!(
        pretty_ty(&it, &names, reg.array_of_string),
        "array [int] of string"
    );
    assert_eq!(pretty_ty(&it, &names, reg.set_of_bottom), "set of bottom");
    let opt_var_int = it.intern(TyData::Primitive {
        inst: VarType::Var,
        opt: OptType::Opt,
        primitive_type: PrimitiveType::Int,
    });
    assert_eq!(pretty_ty(&it, &names, opt_var_int), "opt var int");
    let tup = it.intern(TyData::Tuple {
        opt: OptType::NonOpt,
        fields: vec![reg.par_int, reg.var_bool],
    });
    assert_eq!(pretty_ty(&it, &names, tup), "tuple(int, var bool)");
}

#[test]
fn pattern_and_expression_types_print_with_names() {
    // x: int = 5
    let model = Model {
        names: vec!["x".to_string()],
        items: vec![Item {
            kind: ItemKind::Declaration {
                declared_type: 0,
                pattern: 0,
                definition: Some(0),
            },
            data: ItemData {
                types: vec![Type::Primitive {
                    inst: VarType::Par,
                    opt: OptType::NonOpt,
                    primitive_type: PrimitiveType::Int,
                }],
                expressions: vec![Expression::IntegerLiteral(5)],
                patterns: vec![Pattern::Identifier(0)],
            },
        }],
    };
    let mut db = Db::new(model);
    let result = TypeResult::new(&mut db, 0);
    assert_eq!(
        result.pretty_print_pattern_ty(&db, 0),
        Some("int: x".to_string())
    );
    assert_eq!(
        result.pretty_print_expression_ty(&db, 0),
        Some("int".to_string())
    );
    assert_eq!(result.pretty_print_pattern_ty(&db, 7), None);
    assert_eq!(result.pretty_print_expression_ty(&db, 7), None);
    let dump = result.debug_print(&db);
    assert!(dump.contains("Computed types:"));
    assert!(dump.contains("Declarations:"));
    assert!(dump.contains("Variable(int)"));
}

#[test]
fn function_patterns_print_item_like() {
    // f(a: var int) -> par bool
    let model = Model {
        names: vec!["f".to_string(), "a".to_string()],
        items: vec![Item {
            kind: ItemKind::Function {
                pattern: 0,
                return_type: 0,
                parameters: vec![Parameter {
                    declared_type: 1,
                    pattern: 1,
                }],
                body: None,
            },
            data: ItemData {
                types: vec![
                    Type::Primitive {
                        inst: VarType::Par,
                        opt: OptType::NonOpt,
                        primitive_type: PrimitiveType::Bool,
                    },
                    Type::Primitive {
                        inst: VarType::Var,
                        opt: OptType::NonOpt,
                        primitive_type: PrimitiveType::Int,
                    },
                ],
                expressions: vec![],
                patterns: vec![Pattern::Identifier(0), Pattern::Identifier(1)],
            },
        }],
    };
    let mut db = Db::new(model);
    let result = TypeResult::new(&mut db, 0);
    assert_eq!(
        result.pretty_print_pattern_ty(&db, 0),
        Some("function bool: f(var int)".to_string())
    );
    // The parameter pattern prints with its declared type and name
    assert_eq!(
        result.pretty_print_pattern_ty(&db, 1),
        Some("var int: a".to_string())
    );
}

#[test]
fn unprintable_pattern_kinds_render_as_none() {
    // An item with three patterns to attach kinds to
    let model = Model {
        names: vec!["x".to_string()],
        items: vec![Item {
            kind: ItemKind::Declaration {
                declared_type: 0,
                pattern: 0,
                definition: None,
            },
            data: ItemData {
                types: vec![Type::Primitive {
                    inst: VarType::Par,
                    opt: OptType::NonOpt,
                    primitive_type: PrimitiveType::Int,
                }],
                expressions: vec![],
                patterns: vec![
                    Pattern::Identifier(0),
                    Pattern::Anonymous,
                    Pattern::Anonymous,
                ],
            },
        }],
    };
    let mut db = Db::new(model);
    let mut ctx = SignatureTypeContext::new(0);
    ctx.add_declaration(
        PatternRef {
            item: 0,
            pattern: 0,
        },
        PatternTy::Variable(db.registry.par_int),
    );
    ctx.add_declaration(
        PatternRef {
            item: 0,
            pattern: 1,
        },
        PatternTy::AnnotationAtom,
    );
    ctx.add_declaration(
        PatternRef {
            item: 0,
            pattern: 2,
        },
        PatternTy::Computing,
    );
    let (sig, _) = ctx.finish();
    let (body, _) = BodyTypeContext::new(0).finish();
    let result = TypeResult {
        item: 0,
        body,
        signature: Some(sig),
    };
    // A value-like kind renders; the atom and the transient marker do not
    assert_eq!(
        result.pretty_print_pattern_ty(&db, 0),
        Some("int: x".to_string())
    );
    assert_eq!(result.pretty_print_pattern_ty(&db, 1), None);
    assert_eq!(result.pretty_print_pattern_ty(&db, 2), None);
    // And nothing at all for a pattern with no entry
    assert_eq!(result.pretty_print_pattern_ty(&db, 9), None);
    let _ = &mut db;
}

#[test]
fn function_typed_identifier_expression_prints_item_like() {
    // x: any = f, where f is a function: the identifier's type prints
    // in item-like declaration syntax
    let model = Model {
        names: vec!["f".to_string(), "x".to_string(), "a".to_string()],
        items: vec![
            Item {
                kind: ItemKind::Function {
                    pattern: 0,
                    return_type: 0,
                    parameters: vec![Parameter {
                        declared_type: 1,
                        pattern: 1,
                    }],
                    body: None,
                },
                data: ItemData {
                    types: vec![
                        Type::Primitive {
                            inst: VarType::Par,
                            opt: OptType::NonOpt,
                            primitive_type: PrimitiveType::Int,
                        },
                        Type::Primitive {
                            inst: VarType::Var,
                            opt: OptType::NonOpt,
                            primitive_type: PrimitiveType::Int,
                        },
                    ],
                    expressions: vec![],
                    patterns: vec![Pattern::Identifier(0), Pattern::Identifier(2)],
                },
            },
            Item {
                kind: ItemKind::Declaration {
                    declared_type: 0,
                    pattern: 0,
                    definition: Some(0),
                },
                data: ItemData {
                    types: vec![Type::Any],
                    expressions: vec![Expression::Identifier(0)],
                    patterns: vec![Pattern::Identifier(1)],
                },
            },
        ],
    };
    let mut db = Db::new(model);
    let result = TypeResult::new(&mut db, 1);
    let rendered = result.pretty_print_expression_ty(&db, 0).unwrap();
    assert!(
        rendered.starts_with("function "),
        "unexpected rendering {rendered:?}"
    );
    assert!(rendered.contains("f("), "unexpected rendering {rendered:?}");
}
