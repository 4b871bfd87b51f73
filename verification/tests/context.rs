//! The context operations the engine records results through.

use typecheck::body::BodyTypeContext;
use typecheck::db::Db;
use typecheck::error::Error;
use typecheck::model::{
    Expression, ExpressionRef, Item, ItemData, ItemKind, Model, Pattern, PatternRef,
};
use typecheck::signature::SignatureTypeContext;
use typecheck::ty::{OptType, PrimitiveType, VarType};
use typecheck::typecheck::{PatternTy, TypeContext};
use typecheck::types::Type;

fn one_decl_model() -> Model {
    Model {
        names: vec!["x".to_string()],
        items: vec![Item {
            kind: ItemKind::Declaration {
                declared_type: 0,
                pattern: 0,
                definition: Some(0),
            },
            data: ItemData {
                types: vec![Type::Primitive {
                    inst: VarType::Par,
                    opt: OptType::NonOpt,
                    primitive_type: PrimitiveType::Int,
                }],
                expressions: vec![Expression::IntegerLiteral(5)],
                patterns: vec![Pattern::Identifier(0)],
            },
        }],
    }
}

#[test]
fn signature_context_records_and_freezes() {
    let mut db = Db::new(one_decl_model());
    let mut ctx = SignatureTypeContext::new(0);
    let p = PatternRef {
        item: 0,
        pattern: 0,
    };
    ctx.add_declaration(p, PatternTy::AnnotationAtom);
    ctx.add_expression(
        ExpressionRef {
            item: 0,
            expression: 0,
        },
        db.registry.par_int,
    );
    ctx.add_identifier_resolution(
        ExpressionRef {
            item: 0,
            expression: 0,
        },
        p,
    );
    ctx.add_pattern_resolution(p, p);
    ctx.add_diagnostic(0, Error::UninferrableAny { pattern: p });
    // An explicit declaration wins over recomputing: type_pattern
    // answers the cached entry unchanged
    let cached = ctx.type_pattern(&mut db, p);
    assert_eq!(cached, PatternTy::AnnotationAtom);
    let (sig, errs) = ctx.finish();
    assert_eq!(sig.patterns.get(0, 0), Some(&PatternTy::AnnotationAtom));
    assert_eq!(sig.expressions.get(0, 0), Some(&db.registry.par_int));
    assert_eq!(sig.identifier_resolution.get(0, 0), Some(&p));
    assert_eq!(sig.pattern_resolution.get(0, 0), Some(&p));
    assert_eq!(errs, vec![Error::UninferrableAny { pattern: p }]);
}

#[test]
fn signature_context_types_an_item() {
    let mut db = Db::new(one_decl_model());
    let mut ctx = SignatureTypeContext::new(0);
    ctx.type_item(&mut db, 0);
    let (sig, errs) = ctx.finish();
    assert!(errs.is_empty());
    match sig.patterns.get(0, 0) {
        Some(PatternTy::Variable(t)) => assert_eq!(*t, db.registry.par_int),
        other => panic!("unexpected {:?}", other),
    }
}

#[test]
fn body_context_reads_signatures_from_the_cache() {
    let mut db = Db::new(one_decl_model());
    let mut ctx = BodyTypeContext::new(0);
    let p = PatternRef {
        item: 0,
        pattern: 0,
    };
    // Nothing cached yet: the lookup computes the signature on demand
    assert!(db.lookup_item_signature(0).is_none());
    let pt = ctx.type_pattern(&mut db, p);
    match pt {
        PatternTy::Variable(t) => assert_eq!(t, db.registry.par_int),
        other => panic!("unexpected {:?}", other),
    }
    assert!(db.lookup_item_signature(0).is_some());
    assert_eq!(db.lookup_item_signature_errors(0).map(|v| v.len()), Some(0));
    // The body context itself stored nothing for the pattern
    let (body, errs) = ctx.finish();
    assert!(errs.is_empty());
    assert!(body.patterns.get(0, 0).is_none());
}

#[test]
fn body_context_types_an_item() {
    let mut db = Db::new(one_decl_model());
    let mut ctx = BodyTypeContext::new(0);
    ctx.type_item(&mut db);
    let (body, errs) = ctx.finish();
    assert!(errs.is_empty());
    assert_eq!(body.expressions.get(0, 0), Some(&db.registry.par_int));
}
