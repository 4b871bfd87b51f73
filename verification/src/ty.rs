//! Computed types.
//!
//! A [`Ty`] is an interned handle into an [`Interner`]: a fully resolved
//! type produced and consumed by the inference engine. The interner is an
//! arena that only grows; a composite entry refers to entries interned
//! before it, so every handle stays valid and keeps its meaning while
//! typing adds new entries.
//!
//! The subtyping relation [`spec_subtype`] combines the two-point inst
//! lattice (a fixed, parameter-like value may be used where a solve-time,
//! variable-like value is expected) and the optionality lattice
//! (a non-optional value may be used where an optional one is expected),
//! applied pointwise to the element types of composites.

use vstd::prelude::*;

verus! {

/// Whether a value is fixed at compile time (`Par`) or decided at solve
/// time (`Var`). `Par` is the subtype.
#[derive(Clone, Copy, Debug, PartialEq, Eq, Hash, Structural)]
pub enum VarType {
    /// Fixed, parameter-like value
    Par,
    /// Solve-time, variable-like value
    Var,
}

/// Whether a value may be absent. Non-optional is the subtype.
#[derive(Clone, Copy, Debug, PartialEq, Eq, Hash, Structural)]
pub enum OptType {
    /// The value is always present
    NonOpt,
    /// The value may be absent
    Opt,
}

/// The base of an unbounded primitive type.
#[derive(Clone, Copy, Debug, PartialEq, Eq, Hash, Structural)]
pub enum PrimitiveType {
    /// Boolean
    Bool,
    /// Integer
    Int,
    /// Floating-point number (only its type is represented here)
    Float,
    /// Character string
    String,
    /// Annotation
    Ann,
}

/// Handle for an interned computed type.
#[derive(Clone, Copy, Debug, PartialEq, Eq, Hash, Structural)]
pub struct Ty(pub usize);

/// The type of one function overload: its parameter types and its
/// return type.
#[derive(Clone, Debug, PartialEq)]
pub struct FunctionType {
    /// Return type
    pub return_type: Ty,
    /// Parameter types, in declaration order
    pub params: Vec<Ty>,
}

/// One candidate signature sharing an overloaded name.
#[derive(Clone, Debug, PartialEq)]
pub struct FunctionEntry {
    /// Whether the item declaring this overload has a body
    pub has_body: bool,
    /// The overload's type
    pub overload: FunctionType,
}

/// The shape of one interned type.
#[derive(Clone, Debug, PartialEq)]
pub enum TyData {
    /// Error sentinel: compatible with everything, so checking continues
    Error,
    /// The empty type, subtype of every type
    Bottom {
        /// Optionality
        opt: OptType,
    },
    /// Unbounded primitive type
    Primitive {
        /// Inst
        inst: VarType,
        /// Optionality
        opt: OptType,
        /// The base type
        primitive_type: PrimitiveType,
    },
    /// A type-inst variable, compatible only with itself
    TyVar {
        /// Identity of the variable
        var: u32,
    },
    /// Set type
    SetOf {
        /// Inst
        inst: VarType,
        /// Optionality
        opt: OptType,
        /// Element type
        element: Ty,
    },
    /// Array type
    Array {
        /// Optionality
        opt: OptType,
        /// Type of the dimensions
        dimensions: Ty,
        /// Element type
        element: Ty,
    },
    /// Tuple type
    Tuple {
        /// Optionality
        opt: OptType,
        /// Field types in order
        fields: Vec<Ty>,
    },
    /// Record type
    Record {
        /// Optionality
        opt: OptType,
        /// Field names and types in declaration order
        fields: Vec<(u32, Ty)>,
    },
    /// Operation (function) type
    Function {
        /// Optionality
        opt: OptType,
        /// Parameter and return types
        function: FunctionType,
    },
}

/// `a` is below or equal to `b` on the inst lattice.
pub open spec fn inst_le(a: VarType, b: VarType) -> bool {
    a == VarType::Par || b == VarType::Var
}

/// `a` is below or equal to `b` on the optionality lattice.
pub open spec fn opt_le(a: OptType, b: OptType) -> bool {
    a == OptType::NonOpt || b == OptType::Opt
}

/// The optionality carried by an interned type (the error sentinel and
/// type-inst variables count as non-optional).
pub open spec fn opt_of(d: TyData) -> OptType {
    match d {
        TyData::Error => OptType::NonOpt,
        TyData::Bottom { opt } => opt,
        TyData::Primitive { opt, .. } => opt,
        TyData::TyVar { .. } => OptType::NonOpt,
        TyData::SetOf { opt, .. } => opt,
        TyData::Array { opt, .. } => opt,
        TyData::Tuple { opt, .. } => opt,
        TyData::Record { opt, .. } => opt,
        TyData::Function { opt, .. } => opt,
    }
}

/// The entries a composite entry refers to all lie below `bound` in the
/// arena.
pub open spec fn ty_children_below(d: TyData, bound: int) -> bool {
    match d {
        TyData::Error => true,
        TyData::Bottom { .. } => true,
        TyData::Primitive { .. } => true,
        TyData::TyVar { .. } => true,
        TyData::SetOf { element, .. } => 0 <= element.0 < bound,
        TyData::Array { dimensions, element, .. } => {
            &&& 0 <= dimensions.0 < bound
            &&& 0 <= element.0 < bound
        },
        TyData::Tuple { fields, .. } => forall|i: int|
            0 <= i < fields@.len() ==> 0 <= (#[trigger] fields@[i]).0 < bound,
        TyData::Record { fields, .. } => forall|i: int|
            0 <= i < fields@.len() ==> 0 <= (#[trigger] fields@[i]).1.0 < bound,
        TyData::Function { function, .. } => {
            &&& 0 <= function.return_type.0 < bound
            &&& forall|i: int|
                0 <= i < function.params@.len() ==> 0 <= (#[trigger] function.params@[i]).0 < bound
        },
    }
}

/// Every entry of the arena refers only to earlier entries.
pub open spec fn arena_inv(d: Seq<TyData>) -> bool {
    forall|i: int| 0 <= i < d.len() ==> ty_children_below(#[trigger] d[i], i)
}

/// The subtyping relation over interned types: `a` may be used where `b`
/// is expected.
///
/// The error sentinel is compatible in both directions so that checking
/// continues after an error. Bottom is a subtype of everything of
/// admissible optionality. Primitives relate when their base agrees and
/// inst and optionality are admissible; sets, arrays, tuples and records
/// relate pointwise; functions relate with contravariant parameters.
pub open spec fn spec_subtype(d: Seq<TyData>, a: int, b: int) -> bool
    decreases a + b,
    when arena_inv(d) && 0 <= a < d.len() && 0 <= b < d.len()
{
    let x = d[a];
    let y = d[b];
    if x is Error || y is Error {
        true
    } else if x is Bottom {
        opt_le(opt_of(x), opt_of(y))
    } else {
        match (x, y) {
            (
                TyData::Primitive { inst: ia, opt: oa, primitive_type: pa },
                TyData::Primitive { inst: ib, opt: ob, primitive_type: pb },
            ) => pa == pb && inst_le(ia, ib) && opt_le(oa, ob),
            (TyData::TyVar { var: va }, TyData::TyVar { var: vb }) => va == vb,
            (
                TyData::SetOf { inst: ia, opt: oa, element: ea },
                TyData::SetOf { inst: ib, opt: ob, element: eb },
            ) => inst_le(ia, ib) && opt_le(oa, ob) && spec_subtype(d, ea.0 as int, eb.0 as int),
            (
                TyData::Array { opt: oa, dimensions: da, element: ea },
                TyData::Array { opt: ob, dimensions: db, element: eb },
            ) => {
                &&& opt_le(oa, ob)
                &&& spec_subtype(d, da.0 as int, db.0 as int)
                &&& spec_subtype(d, ea.0 as int, eb.0 as int)
            },
            (TyData::Tuple { opt: oa, fields: fa }, TyData::Tuple { opt: ob, fields: fb }) => {
                &&& opt_le(oa, ob)
                &&& fa@.len() == fb@.len()
                &&& forall|i: int|
                    0 <= i < fa@.len() ==> spec_subtype(
                        d,
                        (#[trigger] fa@[i]).0 as int,
                        fb@[i].0 as int,
                    )
            },
            (TyData::Record { opt: oa, fields: fa }, TyData::Record { opt: ob, fields: fb }) => {
                &&& opt_le(oa, ob)
                &&& fa@.len() == fb@.len()
                &&& forall|i: int| 0 <= i < fa@.len() ==> (#[trigger] fa@[i]).0 == fb@[i].0
                &&& forall|i: int|
                    0 <= i < fa@.len() ==> spec_subtype(
                        d,
                        (#[trigger] fa@[i]).1.0 as int,
                        fb@[i].1.0 as int,
                    )
            },
            (
                TyData::Function { opt: oa, function: ga },
                TyData::Function { opt: ob, function: gb },
            ) => {
                &&& opt_le(oa, ob)
                &&& spec_subtype(d, ga.return_type.0 as int, gb.return_type.0 as int)
                &&& ga.params@.len() == gb.params@.len()
                &&& forall|i: int|
                    0 <= i < ga.params@.len() ==> spec_subtype(
                        d,
                        (#[trigger] gb.params@[i]).0 as int,
                        ga.params@[i].0 as int,
                    )
            },
            _ => false,
        }
    }
}

/// Arena of interned computed types. It only grows, and every entry
/// refers only to entries interned before it.
#[derive(Clone, Debug)]
pub struct Interner {
    data: Vec<TyData>,
}

impl View for Interner {
    type V = Seq<TyData>;

    closed spec fn view(&self) -> Seq<TyData> {
        self.data@
    }
}

impl Interner {
    /// The arena refers only backwards.
    pub open spec fn inv(&self) -> bool {
        arena_inv(self@)
    }

    /// The handle points at an entry of this interner.
    pub open spec fn contains_ty(&self, t: Ty) -> bool {
        t.0 < self@.len()
    }

    /// Create an empty interner.
    pub fn new() -> (r: Interner)
        ensures
            r@.len() == 0,
            r.inv(),
    {
        Interner { data: Vec::new() }
    }

    /// Number of interned entries.
    pub fn len(&self) -> (r: usize)
        ensures
            r == self@.len(),
    {
        self.data.len()
    }

    /// Intern a new entry. The entry may refer only to existing entries.
    pub fn intern(&mut self, d: TyData) -> (r: Ty)
        requires
            old(self).inv(),
            ty_children_below(d, old(self)@.len() as int),
        ensures
            final(self).inv(),
            final(self)@ == old(self)@.push(d),
            r.0 == old(self)@.len(),
            final(self).contains_ty(r),
    {
        let r = Ty(self.data.len());
        self.data.push(d);
        proof {
            assert forall|i: int| 0 <= i < self@.len() implies ty_children_below(
                #[trigger] self@[i],
                i,
            ) by {
                if i < self@.len() - 1 {
                    assert(self@[i] == old(self)@[i]);
                }
            }
        }
        r
    }

    /// Read the entry a handle points at.
    pub fn get(&self, t: Ty) -> (r: &TyData)
        requires
            self.contains_ty(t),
        ensures
            *r == self@[t.0 as int],
    {
        &self.data[t.0]
    }

    /// Decide the subtyping relation: `a` may be used where `b` is
    /// expected.
    pub fn is_subtype(&self, a: Ty, b: Ty) -> (r: bool)
        requires
            self.inv(),
            self.contains_ty(a),
            self.contains_ty(b),
        ensures
            r == spec_subtype(self@, a.0 as int, b.0 as int),
        decreases a.0 + b.0,
    {
        match (&self.data[a.0], &self.data[b.0]) {
            (TyData::Error, _) => true,
            (_, TyData::Error) => true,
            (TyData::Bottom { opt: oa }, y) => {
                let ob = opt_data(y);
                *oa == OptType::NonOpt || ob == OptType::Opt
            },
            (
                TyData::Primitive { inst: ia, opt: oa, primitive_type: pa },
                TyData::Primitive { inst: ib, opt: ob, primitive_type: pb },
            ) => {
                *pa == *pb && (*ia == VarType::Par || *ib == VarType::Var) && (*oa == OptType::NonOpt
                    || *ob == OptType::Opt)
            },
            (TyData::TyVar { var: va }, TyData::TyVar { var: vb }) => *va == *vb,
            (
                TyData::SetOf { inst: ia, opt: oa, element: ea },
                TyData::SetOf { inst: ib, opt: ob, element: eb },
            ) => {
                (*ia == VarType::Par || *ib == VarType::Var) && (*oa == OptType::NonOpt || *ob
                    == OptType::Opt) && self.is_subtype(*ea, *eb)
            },
            (
                TyData::Array { opt: oa, dimensions: da, element: ea },
                TyData::Array { opt: ob, dimensions: db, element: eb },
            ) => {
                (*oa == OptType::NonOpt || *ob == OptType::Opt) && self.is_subtype(*da, *db)
                    && self.is_subtype(*ea, *eb)
            },
            (TyData::Tuple { opt: oa, fields: fa }, TyData::Tuple { opt: ob, fields: fb }) => {
                if !(*oa == OptType::NonOpt || *ob == OptType::Opt) || fa.len() != fb.len() {
                    false
                } else {
                    let ghost gd = self@;
                    let ghost ga = a.0 as int;
                    let ghost gb = b.0 as int;
                    let mut i: usize = 0;
                    let mut ok: bool = true;
                    while i < fa.len()
                        invariant
                            self.inv(),
                            self.contains_ty(a),
                            self.contains_ty(b),
                            gd == self@,
                            ga == a.0 as int,
                            gb == b.0 as int,
                            i <= fa@.len(),
                            self@[a.0 as int] matches TyData::Tuple { fields: f, .. } && f@ == fa@,
                            self@[b.0 as int] matches TyData::Tuple { fields: f, .. } && f@ == fb@,
                            fa@.len() == fb@.len(),
                            ok == forall|j: int|
                                0 <= j < i ==> spec_subtype(
                                    gd,
                                    (#[trigger] fa@[j]).0 as int,
                                    fb@[j].0 as int,
                                ),
                        decreases fa@.len() - i,
                    {
                        let s = self.is_subtype(fa[i], fb[i]);
                        ok = ok && s;
                        i = i + 1;
                    }
                    ok
                }
            },
            (TyData::Record { opt: oa, fields: fa }, TyData::Record { opt: ob, fields: fb }) => {
                if !(*oa == OptType::NonOpt || *ob == OptType::Opt) || fa.len() != fb.len() {
                    false
                } else {
                    let ghost gd = self@;
                    let mut i: usize = 0;
                    let mut ok: bool = true;
                    while i < fa.len()
                        invariant
                            self.inv(),
                            self.contains_ty(a),
                            self.contains_ty(b),
                            gd == self@,
                            i <= fa@.len(),
                            self@[a.0 as int] matches TyData::Record { fields: f, .. } && f@ == fa@,
                            self@[b.0 as int] matches TyData::Record { fields: f, .. } && f@ == fb@,
                            fa@.len() == fb@.len(),
                            ok == forall|j: int|
                                0 <= j < i ==> (#[trigger] fa@[j]).0 == fb@[j].0 && spec_subtype(
                                    gd,
                                    fa@[j].1.0 as int,
                                    fb@[j].1.0 as int,
                                ),
                        decreases fa@.len() - i,
                    {
                        let s = fa[i].0 == fb[i].0 && self.is_subtype(fa[i].1, fb[i].1);
                        ok = ok && s;
                        i = i + 1;
                    }
                    proof {
                        if ok {
                            assert(forall|j: int|
                                0 <= j < fa@.len() ==> (#[trigger] fa@[j]).0 == fb@[j].0);
                        }
                    }
                    ok
                }
            },
            (
                TyData::Function { opt: oa, function: ga },
                TyData::Function { opt: ob, function: gb },
            ) => {
                if !(*oa == OptType::NonOpt || *ob == OptType::Opt) || ga.params.len()
                    != gb.params.len() || !self.is_subtype(ga.return_type, gb.return_type) {
                    false
                } else {
                    let ghost gd = self@;
                    let mut i: usize = 0;
                    let mut ok: bool = true;
                    while i < ga.params.len()
                        invariant
                            self.inv(),
                            self.contains_ty(a),
                            self.contains_ty(b),
                            gd == self@,
                            i <= ga.params@.len(),
                            self@[a.0 as int] matches TyData::Function { function: f, .. }
                                && f.params@ == ga.params@,
                            self@[b.0 as int] matches TyData::Function { function: f, .. }
                                && f.params@ == gb.params@,
                            ga.params@.len() == gb.params@.len(),
                            ok == forall|j: int|
                                0 <= j < i ==> spec_subtype(
                                    gd,
                                    (#[trigger] gb.params@[j]).0 as int,
                                    ga.params@[j].0 as int,
                                ),
                        decreases ga.params@.len() - i,
                    {
                        let s = self.is_subtype(gb.params[i], ga.params[i]);
                        ok = ok && s;
                        i = i + 1;
                    }
                    ok
                }
            },
            _ => false,
        }
    }
}

/// Read the optionality of an entry.
fn opt_data(d: &TyData) -> (r: OptType)
    ensures
        r == opt_of(*d),
{
    match d {
        TyData::Error => OptType::NonOpt,
        TyData::Bottom { opt } => *opt,
        TyData::Primitive { opt, .. } => *opt,
        TyData::TyVar { .. } => OptType::NonOpt,
        TyData::SetOf { opt, .. } => *opt,
        TyData::Array { opt, .. } => *opt,
        TyData::Tuple { opt, .. } => *opt,
        TyData::Record { opt, .. } => *opt,
        TyData::Function { opt, .. } => *opt,
    }
}

/// Subtyping does not change when the arena grows: the relation between
/// two existing entries reads only entries below them.
pub proof fn lemma_subtype_extend(d1: Seq<TyData>, d2: Seq<TyData>, a: int, b: int)
    requires
        arena_inv(d1),
        arena_inv(d2),
        d1.is_prefix_of(d2),
        0 <= a < d1.len(),
        0 <= b < d1.len(),
    ensures
        spec_subtype(d1, a, b) == spec_subtype(d2, a, b),
    decreases a + b,
{
    assert(d1[a] == d2[a]);
    assert(d1[b] == d2[b]);
    let x = d1[a];
    let y = d1[b];
    if x is Error || y is Error || x is Bottom {
    } else {
        match (x, y) {
            (TyData::SetOf { element: ea, .. }, TyData::SetOf { element: eb, .. }) => {
                lemma_subtype_extend(d1, d2, ea.0 as int, eb.0 as int);
            },
            (
                TyData::Array { dimensions: da, element: ea, .. },
                TyData::Array { dimensions: db, element: eb, .. },
            ) => {
                lemma_subtype_extend(d1, d2, da.0 as int, db.0 as int);
                lemma_subtype_extend(d1, d2, ea.0 as int, eb.0 as int);
            },
            (TyData::Tuple { fields: fa, .. }, TyData::Tuple { fields: fb, .. }) => {
                if fa@.len() == fb@.len() {
                    assert forall|i: int| 0 <= i < fa@.len() implies spec_subtype(
                        d1,
                        (#[trigger] fa@[i]).0 as int,
                        fb@[i].0 as int,
                    ) == spec_subtype(d2, fa@[i].0 as int, fb@[i].0 as int) by {
                        lemma_subtype_extend(d1, d2, fa@[i].0 as int, fb@[i].0 as int);
                    }
                }
            },
            (TyData::Record { fields: fa, .. }, TyData::Record { fields: fb, .. }) => {
                if fa@.len() == fb@.len() {
                    assert forall|i: int| 0 <= i < fa@.len() implies spec_subtype(
                        d1,
                        (#[trigger] fa@[i]).1.0 as int,
                        fb@[i].1.0 as int,
                    ) == spec_subtype(d2, fa@[i].1.0 as int, fb@[i].1.0 as int) by {
                        lemma_subtype_extend(d1, d2, fa@[i].1.0 as int, fb@[i].1.0 as int);
                    }
                }
            },
            (TyData::Function { function: ga, .. }, TyData::Function { function: gb, .. }) => {
                lemma_subtype_extend(d1, d2, ga.return_type.0 as int, gb.return_type.0 as int);
                if ga.params@.len() == gb.params@.len() {
                    assert forall|i: int| 0 <= i < ga.params@.len() implies spec_subtype(
                        d1,
                        (#[trigger] gb.params@[i]).0 as int,
                        ga.params@[i].0 as int,
                    ) == spec_subtype(d2, gb.params@[i].0 as int, ga.params@[i].0 as int) by {
                        lemma_subtype_extend(
                            d1,
                            d2,
                            gb.params@[i].0 as int,
                            ga.params@[i].0 as int,
                        );
                    }
                }
            },
            _ => {},
        }
    }
}

/// Copy a list of type handles.
pub fn copy_tys(v: &Vec<Ty>) -> (r: Vec<Ty>)
    ensures
        r@ == v@,
{
    let mut r: Vec<Ty> = Vec::new();
    let mut i: usize = 0;
    while i < v.len()
        invariant
            i <= v@.len(),
            r@ == v@.take(i as int),
        decreases v@.len() - i,
    {
        r.push(v[i]);
        proof {
            assert(r@ =~= v@.take(i + 1 as int));
        }
        i = i + 1;
    }
    proof {
        assert(r@ =~= v@);
    }
    r
}

/// Deep equality of function types, stated over views.
pub open spec fn function_type_eq(a: FunctionType, b: FunctionType) -> bool {
    a.return_type == b.return_type && a.params@ == b.params@
}

/// Deep equality of overload entries, stated over views.
pub open spec fn function_entry_eq(a: FunctionEntry, b: FunctionEntry) -> bool {
    a.has_body == b.has_body && function_type_eq(a.overload, b.overload)
}

impl FunctionType {
    /// Copy this function type.
    pub fn duplicate(&self) -> (r: FunctionType)
        ensures
            function_type_eq(r, *self),
    {
        FunctionType { return_type: self.return_type, params: copy_tys(&self.params) }
    }
}

impl FunctionEntry {
    /// Copy this overload entry.
    pub fn duplicate(&self) -> (r: FunctionEntry)
        ensures
            function_entry_eq(r, *self),
    {
        FunctionEntry { has_body: self.has_body, overload: self.overload.duplicate() }
    }
}

} // verus!
