//! Registry for common computed types.
//!
//! The registry interns the primitive types and a few compound types the
//! engine reaches for constantly, so that every part of typing hands out
//! the same interned entry for the same common type.

use vstd::prelude::*;

use crate::ty::{arena_inv, Interner, OptType, PrimitiveType, Ty, TyData, VarType};

verus! {

/// Registry for common types.
#[derive(Clone, Debug)]
pub struct TypeRegistry {
    /// All registry types, in registration order
    pub all: Vec<Ty>,
    /// The error sentinel
    pub error: Ty,
    /// `par bool`
    pub par_bool: Ty,
    /// `var bool`
    pub var_bool: Ty,
    /// `par int`
    pub par_int: Ty,
    /// `var int`
    pub var_int: Ty,
    /// `par float`
    pub par_float: Ty,
    /// `var float`
    pub var_float: Ty,
    /// `string`
    pub string: Ty,
    /// `ann`
    pub ann: Ty,
    /// The empty type
    pub bottom: Ty,
    /// The optional empty type
    pub opt_bottom: Ty,
    /// `set of` the empty type
    pub set_of_bottom: Ty,
    /// `array [int] of string`
    pub array_of_string: Ty,
    /// `array [bottom] of bottom`
    pub array_of_bottom: Ty,
}

/// Shorthand for a non-optional primitive entry.
pub open spec fn prim(inst: VarType, p: PrimitiveType) -> TyData {
    TyData::Primitive { inst, opt: OptType::NonOpt, primitive_type: p }
}

impl TypeRegistry {
    /// The registry's handles point at entries of the arena with exactly
    /// the advertised shapes.
    pub open spec fn wf(&self, d: Seq<TyData>) -> bool {
        &&& self.error.0 < d.len() && d[self.error.0 as int] is Error
        &&& self.par_bool.0 < d.len() && d[self.par_bool.0 as int] == prim(
            VarType::Par,
            PrimitiveType::Bool,
        )
        &&& self.var_bool.0 < d.len() && d[self.var_bool.0 as int] == prim(
            VarType::Var,
            PrimitiveType::Bool,
        )
        &&& self.par_int.0 < d.len() && d[self.par_int.0 as int] == prim(
            VarType::Par,
            PrimitiveType::Int,
        )
        &&& self.var_int.0 < d.len() && d[self.var_int.0 as int] == prim(
            VarType::Var,
            PrimitiveType::Int,
        )
        &&& self.par_float.0 < d.len() && d[self.par_float.0 as int] == prim(
            VarType::Par,
            PrimitiveType::Float,
        )
        &&& self.var_float.0 < d.len() && d[self.var_float.0 as int] == prim(
            VarType::Var,
            PrimitiveType::Float,
        )
        &&& self.string.0 < d.len() && d[self.string.0 as int] == prim(
            VarType::Par,
            PrimitiveType::String,
        )
        &&& self.ann.0 < d.len() && d[self.ann.0 as int] == prim(VarType::Par, PrimitiveType::Ann)
        &&& self.bottom.0 < d.len() && d[self.bottom.0 as int] == (TyData::Bottom {
            opt: OptType::NonOpt,
        })
        &&& self.opt_bottom.0 < d.len() && d[self.opt_bottom.0 as int] == (TyData::Bottom {
            opt: OptType::Opt,
        })
        &&& self.set_of_bottom.0 < d.len() && d[self.set_of_bottom.0 as int] == (TyData::SetOf {
            inst: VarType::Par,
            opt: OptType::NonOpt,
            element: self.bottom,
        })
        &&& self.array_of_string.0 < d.len() && d[self.array_of_string.0 as int]
            == (TyData::Array {
            opt: OptType::NonOpt,
            dimensions: self.par_int,
            element: self.string,
        })
        &&& self.array_of_bottom.0 < d.len() && d[self.array_of_bottom.0 as int]
            == (TyData::Array {
            opt: OptType::NonOpt,
            dimensions: self.bottom,
            element: self.bottom,
        })
        &&& self.all@.len() == 14
    }

    /// Create a new type registry over the given interner.
    pub fn new(it: &mut Interner) -> (r: TypeRegistry)
        requires
            old(it).inv(),
        ensures
            final(it).inv(),
            old(it)@.is_prefix_of(final(it)@),
            r.wf(final(it)@),
    {
        let error = it.intern(TyData::Error);
        let par_bool = it.intern(
            TyData::Primitive {
                inst: VarType::Par,
                opt: OptType::NonOpt,
                primitive_type: PrimitiveType::Bool,
            },
        );
        let var_bool = it.intern(
            TyData::Primitive {
                inst: VarType::Var,
                opt: OptType::NonOpt,
                primitive_type: PrimitiveType::Bool,
            },
        );
        let par_int = it.intern(
            TyData::Primitive {
                inst: VarType::Par,
                opt: OptType::NonOpt,
                primitive_type: PrimitiveType::Int,
            },
        );
        let var_int = it.intern(
            TyData::Primitive {
                inst: VarType::Var,
                opt: OptType::NonOpt,
                primitive_type: PrimitiveType::Int,
            },
        );
        let par_float = it.intern(
            TyData::Primitive {
                inst: VarType::Par,
                opt: OptType::NonOpt,
                primitive_type: PrimitiveType::Float,
            },
        );
        let var_float = it.intern(
            TyData::Primitive {
                inst: VarType::Var,
                opt: OptType::NonOpt,
                primitive_type: PrimitiveType::Float,
            },
        );
        let string = it.intern(
            TyData::Primitive {
                inst: VarType::Par,
                opt: OptType::NonOpt,
                primitive_type: PrimitiveType::String,
            },
        );
        let ann = it.intern(
            TyData::Primitive {
                inst: VarType::Par,
                opt: OptType::NonOpt,
                primitive_type: PrimitiveType::Ann,
            },
        );
        let bottom = it.intern(TyData::Bottom { opt: OptType::NonOpt });
        let opt_bottom = it.intern(TyData::Bottom { opt: OptType::Opt });
        let set_of_bottom = it.intern(
            TyData::SetOf { inst: VarType::Par, opt: OptType::NonOpt, element: bottom },
        );
        let array_of_string = it.intern(
            TyData::Array { opt: OptType::NonOpt, dimensions: par_int, element: string },
        );
        let array_of_bottom = it.intern(
            TyData::Array { opt: OptType::NonOpt, dimensions: bottom, element: bottom },
        );
        let mut all: Vec<Ty> = Vec::new();
        all.push(error);
        all.push(par_bool);
        all.push(var_bool);
        all.push(par_int);
        all.push(var_int);
        all.push(par_float);
        all.push(var_float);
        all.push(string);
        all.push(ann);
        all.push(bottom);
        all.push(opt_bottom);
        all.push(set_of_bottom);
        all.push(array_of_string);
        all.push(array_of_bottom);
        proof {
            assert(old(it)@.is_prefix_of(it@)) by {
                assert(old(it)@ =~= it@.subrange(0, old(it)@.len() as int));
            }
        }
        TypeRegistry {
            all,
            error,
            par_bool,
            var_bool,
            par_int,
            var_int,
            par_float,
            var_float,
            string,
            ann,
            bottom,
            opt_bottom,
            set_of_bottom,
            array_of_string,
            array_of_bottom,
        }
    }

    /// The registry keeps its meaning when the arena grows.
    pub proof fn lemma_wf_extend(&self, d1: Seq<TyData>, d2: Seq<TyData>)
        requires
            self.wf(d1),
            d1.is_prefix_of(d2),
        ensures
            self.wf(d2),
    {
        assert(d2[self.error.0 as int] == d1[self.error.0 as int]);
        assert(d2[self.par_bool.0 as int] == d1[self.par_bool.0 as int]);
        assert(d2[self.var_bool.0 as int] == d1[self.var_bool.0 as int]);
        assert(d2[self.par_int.0 as int] == d1[self.par_int.0 as int]);
        assert(d2[self.var_int.0 as int] == d1[self.var_int.0 as int]);
        assert(d2[self.par_float.0 as int] == d1[self.par_float.0 as int]);
        assert(d2[self.var_float.0 as int] == d1[self.var_float.0 as int]);
        assert(d2[self.string.0 as int] == d1[self.string.0 as int]);
        assert(d2[self.ann.0 as int] == d1[self.ann.0 as int]);
        assert(d2[self.bottom.0 as int] == d1[self.bottom.0 as int]);
        assert(d2[self.opt_bottom.0 as int] == d1[self.opt_bottom.0 as int]);
        assert(d2[self.set_of_bottom.0 as int] == d1[self.set_of_bottom.0 as int]);
        assert(d2[self.array_of_string.0 as int] == d1[self.array_of_string.0 as int]);
        assert(d2[self.array_of_bottom.0 as int] == d1[self.array_of_bottom.0 as int]);
    }
}

} // verus!
