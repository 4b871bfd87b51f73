//! The inst/optionality subtyping lattice over interned types.

use typecheck::registry::TypeRegistry;
use typecheck::ty::{FunctionType, Interner, OptType, PrimitiveType, Ty, TyData, VarType};

fn setup() -> (Interner, TypeRegistry) {
    let mut it = Interner::new();
    let reg = TypeRegistry::new(&mut it);
    (it, reg)
}

#[test]
fn par_is_subtype_of_var_not_conversely() {
    let (it, reg) = setup();
    assert!(it.is_subtype(reg.par_int, reg.var_int));
    assert!(!it.is_subtype(reg.var_int, reg.par_int));
    assert!(it.is_subtype(reg.par_bool, reg.var_bool));
    assert!(!it.is_subtype(reg.var_bool, reg.par_bool));
    assert!(it.is_subtype(reg.par_int, reg.par_int));
}

#[test]
fn distinct_bases_are_unrelated() {
    let (it, reg) = setup();
    assert!(!it.is_subtype(reg.par_int, reg.par_bool));
    assert!(!it.is_subtype(reg.par_int, reg.var_bool));
    assert!(!it.is_subtype(reg.string, reg.par_int));
}

#[test]
fn non_optional_is_subtype_of_optional() {
    let (mut it, reg) = setup();
    let opt_int = it.intern(TyData::Primitive {
        inst: VarType::Par,
        opt: OptType::Opt,
        primitive_type: PrimitiveType::Int,
    });
    assert!(it.is_subtype(reg.par_int, opt_int));
    assert!(!it.is_subtype(opt_int, reg.par_int));
    assert!(it.is_subtype(reg.bottom, reg.opt_bottom));
    assert!(!it.is_subtype(reg.opt_bottom, reg.bottom));
}

#[test]
fn bottom_is_subtype_of_everything() {
    let (it, reg) = setup();
    assert!(it.is_subtype(reg.bottom, reg.par_int));
    assert!(it.is_subtype(reg.bottom, reg.var_bool));
    assert!(it.is_subtype(reg.bottom, reg.string));
    assert!(it.is_subtype(reg.bottom, reg.array_of_string));
    assert!(!it.is_subtype(reg.par_int, reg.bottom));
}

#[test]
fn error_is_compatible_both_ways() {
    let (it, reg) = setup();
    assert!(it.is_subtype(reg.error, reg.par_int));
    assert!(it.is_subtype(reg.par_int, reg.error));
}

#[test]
fn composites_relate_pointwise() {
    let (mut it, reg) = setup();
    let set_par_int = it.intern(TyData::SetOf {
        inst: VarType::Par,
        opt: OptType::NonOpt,
        element: reg.par_int,
    });
    assert!(it.is_subtype(reg.set_of_bottom, set_par_int));
    assert!(!it.is_subtype(set_par_int, reg.set_of_bottom));
    assert!(it.is_subtype(reg.array_of_bottom, reg.array_of_string));

    let tup_par = it.intern(TyData::Tuple {
        opt: OptType::NonOpt,
        fields: vec![reg.par_int, reg.par_bool],
    });
    let tup_var = it.intern(TyData::Tuple {
        opt: OptType::NonOpt,
        fields: vec![reg.var_int, reg.var_bool],
    });
    assert!(it.is_subtype(tup_par, tup_var));
    assert!(!it.is_subtype(tup_var, tup_par));
    let tup_short = it.intern(TyData::Tuple {
        opt: OptType::NonOpt,
        fields: vec![reg.par_int],
    });
    assert!(!it.is_subtype(tup_short, tup_par));
}

#[test]
fn functions_are_contravariant_in_parameters() {
    let (mut it, reg) = setup();
    // op(int: (var int)) accepts more than op(int: (par int))
    let f_takes_var = it.intern(TyData::Function {
        opt: OptType::NonOpt,
        function: FunctionType {
            return_type: reg.par_int,
            params: vec![reg.var_int],
        },
    });
    let f_takes_par = it.intern(TyData::Function {
        opt: OptType::NonOpt,
        function: FunctionType {
            return_type: reg.par_int,
            params: vec![reg.par_int],
        },
    });
    assert!(it.is_subtype(f_takes_var, f_takes_par));
    assert!(!it.is_subtype(f_takes_par, f_takes_var));
}

#[test]
fn ty_handles_compare_by_identity() {
    let (mut it, reg) = setup();
    let another_int = it.intern(TyData::Primitive {
        inst: VarType::Par,
        opt: OptType::NonOpt,
        primitive_type: PrimitiveType::Int,
    });
    assert_ne!(another_int, reg.par_int);
    assert_eq!(Ty(3), Ty(3));
    // Structurally the two entries agree
    assert_eq!(it.get(another_int), it.get(reg.par_int));
}
