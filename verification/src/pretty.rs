//! Rendering of computed types for diagnostics display.
//!
//! A display concern layered on top of the inference contracts, not
//! part of them: these helpers turn a [`Ty`] or [`crate::typecheck::PatternTy`]
//! into a human-readable string, special-casing function-shaped types to
//! print item-like declaration syntax. Handles out of range render as
//! `"?"` rather than failing, so a stale result can still be shown.

use vstd::prelude::*;
use vstd::string::StringExecFns;

use crate::db::Db;
use crate::model::{Expression, Pattern};
use crate::ty::{Interner, OptType, PrimitiveType, Ty, TyData, VarType};
use crate::typecheck::{PatternTy, TypeResult};

verus! {

/// One decimal digit as text.
fn digit_string(d: u64) -> (r: String)
    requires
        d < 10,
{
    match d {
        0u64 => String::from_str("0"),
        1u64 => String::from_str("1"),
        2u64 => String::from_str("2"),
        3u64 => String::from_str("3"),
        4u64 => String::from_str("4"),
        5u64 => String::from_str("5"),
        6u64 => String::from_str("6"),
        7u64 => String::from_str("7"),
        8u64 => String::from_str("8"),
        _ => String::from_str("9"),
    }
}

/// A number in decimal.
pub fn decimal_string(n: u64) -> (r: String)
    decreases n,
{
    if n < 10 {
        digit_string(n)
    } else {
        let mut s = decimal_string(n / 10);
        let d = digit_string(n % 10);
        s.append(d.as_str());
        s
    }
}

/// The name an identifier denotes, or a placeholder for one the name
/// table does not hold.
fn name_string(names: &Vec<String>, id: u32) -> (r: String) {
    if (id as usize) < names.len() {
        let mut s = String::new();
        s.append(names[id as usize].as_str());
        s
    } else {
        String::from_str("_")
    }
}

/// Render an interned computed type. The common primitive entries
/// render as their keywords, pinned here so a caller can rely on the
/// exact text.
pub fn pretty_ty(it: &Interner, names: &Vec<String>, t: Ty) -> (r: String)
    requires
        it.inv(),
    ensures
        t.0 < it@.len() && it@[t.0 as int] is Error ==> r@ == "error"@,
        t.0 < it@.len() && it@[t.0 as int] == (TyData::Primitive {
            inst: VarType::Par,
            opt: OptType::NonOpt,
            primitive_type: PrimitiveType::Int,
        }) ==> r@ == "int"@,
        t.0 < it@.len() && it@[t.0 as int] == (TyData::Primitive {
            inst: VarType::Var,
            opt: OptType::NonOpt,
            primitive_type: PrimitiveType::Int,
        }) ==> r@ == "var int"@,
        t.0 < it@.len() && it@[t.0 as int] == (TyData::Primitive {
            inst: VarType::Par,
            opt: OptType::NonOpt,
            primitive_type: PrimitiveType::Bool,
        }) ==> r@ == "bool"@,
        t.0 < it@.len() && it@[t.0 as int] == (TyData::Primitive {
            inst: VarType::Par,
            opt: OptType::NonOpt,
            primitive_type: PrimitiveType::String,
        }) ==> r@ == "string"@,
    decreases t.0,
{
    if t.0 >= it.len() {
        return String::from_str("?");
    }
    proof {
        assert(crate::ty::ty_children_below(it@[t.0 as int], t.0 as int));
    }
    match it.get(t) {
        TyData::Error => String::from_str("error"),
        TyData::Bottom { opt } => {
            let mut s = String::new();
            if matches!(opt, OptType::Opt) {
                s.append("opt ");
            }
            s.append("bottom");
            s
        },
        TyData::Primitive { inst, opt, primitive_type } => {
            let mut s = String::new();
            if matches!(opt, OptType::Opt) {
                s.append("opt ");
            }
            if matches!(inst, VarType::Var) {
                s.append("var ");
            }
            match primitive_type {
                PrimitiveType::Bool => s.append("bool"),
                PrimitiveType::Int => s.append("int"),
                PrimitiveType::Float => s.append("float"),
                PrimitiveType::String => s.append("string"),
                PrimitiveType::Ann => s.append("ann"),
            }
            proof {
                if *inst == VarType::Par && *opt == OptType::NonOpt {
                    if *primitive_type == PrimitiveType::Int {
                        assert(s@ =~= "int"@);
                    }
                    if *primitive_type == PrimitiveType::Bool {
                        assert(s@ =~= "bool"@);
                    }
                    if *primitive_type == PrimitiveType::String {
                        assert(s@ =~= "string"@);
                    }
                }
                if *inst == VarType::Var && *opt == OptType::NonOpt && *primitive_type
                    == PrimitiveType::Int {
                    reveal_strlit("var ");
                    reveal_strlit("int");
                    reveal_strlit("var int");
                    assert(s@ =~= "var int"@);
                }
            }
            s
        },
        TyData::TyVar { var } => {
            let v = *var;
            let mut s = String::from_str("$");
            let d = decimal_string(v as u64);
            s.append(d.as_str());
            s
        },
        TyData::SetOf { inst, opt, element } => {
            let i2 = *inst;
            let o2 = *opt;
            let el = *element;
            let mut s = String::new();
            if matches!(o2, OptType::Opt) {
                s.append("opt ");
            }
            if matches!(i2, VarType::Var) {
                s.append("var ");
            }
            s.append("set of ");
            let e = pretty_ty(it, names, el);
            s.append(e.as_str());
            s
        },
        TyData::Array { opt, dimensions, element } => {
            let o2 = *opt;
            let dims = *dimensions;
            let el = *element;
            let mut s = String::new();
            if matches!(o2, OptType::Opt) {
                s.append("opt ");
            }
            s.append("array [");
            let d = pretty_ty(it, names, dims);
            s.append(d.as_str());
            s.append("] of ");
            let e = pretty_ty(it, names, el);
            s.append(e.as_str());
            s
        },
        TyData::Tuple { opt, fields } => {
            let o2 = *opt;
            let fs = crate::ty::copy_tys(fields);
            let mut s = String::new();
            if matches!(o2, OptType::Opt) {
                s.append("opt ");
            }
            s.append("tuple(");
            let mut i: usize = 0;
            while i < fs.len()
                invariant
                    it.inv(),
                    forall|k: int| 0 <= k < fs@.len() ==> (#[trigger] fs@[k]).0 < t.0,
                decreases fs@.len() - i,
            {
                if i > 0 {
                    s.append(", ");
                }
                let e = pretty_ty(it, names, fs[i]);
                s.append(e.as_str());
                i = i + 1;
            }
            s.append(")");
            s
        },
        TyData::Record { opt, fields } => {
            let o2 = *opt;
            let mut fs: Vec<(u32, Ty)> = Vec::new();
            let mut j: usize = 0;
            while j < fields.len()
                invariant
                    j <= fields@.len(),
                    fs@ == fields@.take(j as int),
                decreases fields@.len() - j,
            {
                fs.push(fields[j]);
                proof {
                    assert(fs@ =~= fields@.take(j + 1 as int));
                }
                j = j + 1;
            }
            proof {
                assert(fs@ =~= fields@);
            }
            let mut s = String::new();
            if matches!(o2, OptType::Opt) {
                s.append("opt ");
            }
            s.append("record(");
            let mut i: usize = 0;
            while i < fs.len()
                invariant
                    it.inv(),
                    forall|k: int| 0 <= k < fs@.len() ==> (#[trigger] fs@[k]).1.0 < t.0,
                decreases fs@.len() - i,
            {
                if i > 0 {
                    s.append(", ");
                }
                let e = pretty_ty(it, names, fs[i].1);
                s.append(e.as_str());
                s.append(": ");
                let nm = name_string(names, fs[i].0);
                s.append(nm.as_str());
                i = i + 1;
            }
            s.append(")");
            s
        },
        TyData::Function { opt, function } => {
            let o2 = *opt;
            let rt = function.return_type;
            let ps = crate::ty::copy_tys(&function.params);
            let mut s = String::new();
            if matches!(o2, OptType::Opt) {
                s.append("opt ");
            }
            s.append("op(");
            let e = pretty_ty(it, names, rt);
            s.append(e.as_str());
            s.append(": (");
            let mut i: usize = 0;
            while i < ps.len()
                invariant
                    it.inv(),
                    forall|k: int| 0 <= k < ps@.len() ==> (#[trigger] ps@[k]).0 < t.0,
                decreases ps@.len() - i,
            {
                if i > 0 {
                    s.append(", ");
                }
                let e2 = pretty_ty(it, names, ps[i]);
                s.append(e2.as_str());
                i = i + 1;
            }
            s.append("))");
            s
        },
    }
}

/// Render a function type as an item-like declaration:
/// `function <return>: <name>(<params>)`.
fn pretty_function_item(it: &Interner, names: &Vec<String>, f: &crate::ty::FunctionType, name: u32)
    -> (r: String)
    requires
        it.inv(),
    ensures
        r@.len() >= "function "@.len(),
        r@.subrange(0, "function "@.len() as int) == "function "@,
{
    let mut s = String::from_str("function ");
    let e = pretty_ty(it, names, f.return_type);
    s.append(e.as_str());
    s.append(": ");
    let nm = name_string(names, name);
    s.append(nm.as_str());
    s.append("(");
    proof {
        assert(s@.len() >= "function "@.len());
        assert(s@.subrange(0, "function "@.len() as int) =~= "function "@);
    }
    let ps = crate::ty::copy_tys(&f.params);
    let mut i: usize = 0;
    while i < ps.len()
        invariant
            it.inv(),
            s@.len() >= "function "@.len(),
            s@.subrange(0, "function "@.len() as int) == "function "@,
        decreases ps@.len() - i,
    {
        if i > 0 {
            s.append(", ");
        }
        let e2 = pretty_ty(it, names, ps[i]);
        s.append(e2.as_str());
        proof {
            assert(s@.subrange(0, "function "@.len() as int) =~= "function "@);
        }
        i = i + 1;
    }
    s.append(")");
    proof {
        assert(s@.subrange(0, "function "@.len() as int) =~= "function "@);
    }
    s
}

/// Render a pattern type with its variant name, for debugging dumps.
/// The transient marker renders as exactly `{computing}`.
pub fn pattern_ty_debug(it: &Interner, names: &Vec<String>, p: &PatternTy) -> (r: String)
    requires
        it.inv(),
    ensures
        p is Computing ==> r@ == "{computing}"@,
{
    match p {
        PatternTy::Variable(t) => {
            let mut s = String::from_str("Variable(");
            let e = pretty_ty(it, names, *t);
            s.append(e.as_str());
            s.append(")");
            s
        },
        PatternTy::Function(f) => {
            let mut s = String::from_str("Function(");
            let e = pretty_ty(it, names, f.overload.return_type);
            s.append(e.as_str());
            s.append(")");
            s
        },
        PatternTy::Argument(t) => {
            let mut s = String::from_str("Argument(");
            let e = pretty_ty(it, names, *t);
            s.append(e.as_str());
            s.append(")");
            s
        },
        PatternTy::TyVar(v) => {
            let mut s = String::from_str("TyVar($");
            let d = decimal_string(*v as u64);
            s.append(d.as_str());
            s.append(")");
            s
        },
        PatternTy::TypeAlias { ty, .. } => {
            let mut s = String::from_str("TypeAlias(");
            let e = pretty_ty(it, names, *ty);
            s.append(e.as_str());
            s.append(")");
            s
        },
        PatternTy::Enum(t) => {
            let mut s = String::from_str("Enum(");
            let e = pretty_ty(it, names, *t);
            s.append(e.as_str());
            s.append(")");
            s
        },
        PatternTy::EnumConstructor(_) => String::from_str("EnumConstructor"),
        PatternTy::AnonymousEnumConstructor(_) => String::from_str("AnonymousEnumConstructor"),
        PatternTy::EnumDestructure(_) => String::from_str("EnumDestructure"),
        PatternTy::EnumAtom(t) => {
            let mut s = String::from_str("EnumAtom(");
            let e = pretty_ty(it, names, *t);
            s.append(e.as_str());
            s.append(")");
            s
        },
        PatternTy::AnnotationConstructor(_) => String::from_str("AnnotationConstructor"),
        PatternTy::AnnotationDestructure(_) => String::from_str("AnnotationDestructure"),
        PatternTy::AnnotationAtom => String::from_str("AnnotationAtom"),
        PatternTy::Destructuring(t) => {
            let mut s = String::from_str("Destructuring(");
            let e = pretty_ty(it, names, *t);
            s.append(e.as_str());
            s.append(")");
            s
        },
        PatternTy::DestructuringFn { constructor, destructor } => {
            let mut s = String::from_str("DestructuringFn(");
            let e = pretty_ty(it, names, *constructor);
            s.append(e.as_str());
            s.append(", ");
            let e2 = pretty_ty(it, names, *destructor);
            s.append(e2.as_str());
            s.append(")");
            s
        },
        PatternTy::Computing => String::from_str("{computing}"),
    }
}

/// The pattern exists in the model and is an identifier, so a rendering
/// can name it.
pub open spec fn pattern_named_here(m: crate::model::Model, item: int, pattern: int) -> bool {
    &&& 0 <= item < m.items@.len()
    &&& 0 <= pattern < m.items@[item].data.patterns@.len()
    &&& m.items@[item].data.patterns@[pattern] is Identifier
}

/// Which pattern kinds have a printable form: value-like kinds always;
/// atom, function, alias and constructor kinds only when the pattern is
/// a named identifier (and a constructor only with at least one entry);
/// the remaining kinds — including the transient `Computing` marker —
/// have none.
pub open spec fn pattern_ty_printable(pt: PatternTy, named: bool) -> bool {
    match pt {
        PatternTy::Variable(_) => true,
        PatternTy::Argument(_) => true,
        PatternTy::Enum(_) => true,
        PatternTy::Destructuring(_) => true,
        PatternTy::DestructuringFn { .. } => true,
        PatternTy::TyVar(_) => true,
        PatternTy::EnumAtom(_) => named,
        PatternTy::Function(_) => named,
        PatternTy::TypeAlias { .. } => named,
        PatternTy::EnumConstructor(es) => named && es@.len() > 0,
        PatternTy::AnonymousEnumConstructor(_) => false,
        PatternTy::EnumDestructure(_) => false,
        PatternTy::AnnotationConstructor(_) => false,
        PatternTy::AnnotationDestructure(_) => false,
        PatternTy::AnnotationAtom => false,
        PatternTy::Computing => false,
    }
}

impl TypeResult {
    /// Pretty print the type of an expression, using item-like syntax
    /// for an identifier of function type.
    pub fn pretty_print_expression_ty(&self, db: &Db, expression: usize) -> (r: Option<String>)
        requires
            self.inv(),
            db.wf(),
        ensures
            (r is Some) == (self.spec_get_expression(expression as int) is Some),
            self.spec_get_expression(expression as int) == Some(db.registry.par_int) ==> (r
                matches Some(s) && s@ == "int"@),
            self.spec_get_expression(expression as int) == Some(db.registry.par_bool) ==> (r
                matches Some(s) && s@ == "bool"@),
            self.spec_get_expression(expression as int) == Some(db.registry.error) ==> (r matches
            Some(s) && s@ == "error"@),
            ({
                let node = db.model.items@[self.item as int].data.expressions@[expression as int];
                (self.item as int) < db.model.items@.len() && (expression as int)
                    < db.model.items@[self.item as int].data.expressions@.len() && node
                    is Identifier && (self.spec_get_expression(expression as int) matches Some(t)
                    && t.0 < db.interner@.len() && db.interner@[t.0 as int] is Function) ==> (r
                matches Some(s) && s@.len() >= "function "@.len() && s@.subrange(
                    0,
                    "function "@.len() as int,
                ) == "function "@)
            }),
    {
        let ty = match self.get_expression(expression) {
            Some(t) => t,
            None => {
                return None;
            },
        };
        if self.item < db.model.items.len() && expression
            < db.model.items[self.item].data.expressions.len() {
            if let Expression::Identifier(name) = &db.model.items[self.item].data.expressions[
                expression] {
                if ty.0 < db.interner.len() {
                    if let TyData::Function { function, .. } = db.interner.get(ty) {
                        return Some(
                            pretty_function_item(&db.interner, &db.model.names, function, *name),
                        );
                    }
                }
            }
        }
        Some(pretty_ty(&db.interner, &db.model.names, ty))
    }

    /// Pretty print the type of a pattern: a rendering exactly when a
    /// type was computed for the pattern and its kind has a printable
    /// form for this pattern.
    pub fn pretty_print_pattern_ty(&self, db: &Db, pattern: usize) -> (r: Option<String>)
        requires
            self.inv(),
            db.wf(),
        ensures
            (r is Some) == (self.spec_get_pattern(pattern as int) matches Some(pt)
                && pattern_ty_printable(
                pt,
                pattern_named_here(db.model, self.item as int, pattern as int),
            )),
    {
        let decl = match self.get_pattern(pattern) {
            Some(d) => d.duplicate(),
            None => {
                return None;
            },
        };
        let named: Option<u32> =
            if self.item < db.model.items.len() && pattern
                < db.model.items[self.item].data.patterns.len() {
                match &db.model.items[self.item].data.patterns[pattern] {
                    Pattern::Identifier(n) => Some(*n),
                    _ => None,
                }
            } else {
                None
            };
        match &decl {
            PatternTy::Variable(ty) | PatternTy::Argument(ty) | PatternTy::Enum(ty)
                | PatternTy::Destructuring(ty) | PatternTy::DestructuringFn {
                constructor: ty,
                ..
            } => {
                if let Some(nm) = named {
                    if ty.0 < db.interner.len() {
                        if let TyData::Function { function, .. } = db.interner.get(*ty) {
                            return Some(
                                pretty_function_item(&db.interner, &db.model.names, function, nm),
                            );
                        }
                    }
                    let mut s = pretty_ty(&db.interner, &db.model.names, *ty);
                    s.append(": ");
                    let n2 = name_string(&db.model.names, nm);
                    s.append(n2.as_str());
                    return Some(s);
                }
                Some(pretty_ty(&db.interner, &db.model.names, *ty))
            },
            PatternTy::EnumAtom(ty) => {
                match named {
                    Some(nm) => {
                        let mut s = pretty_ty(&db.interner, &db.model.names, *ty);
                        s.append(": ");
                        let n2 = name_string(&db.model.names, nm);
                        s.append(n2.as_str());
                        Some(s)
                    },
                    None => None,
                }
            },
            PatternTy::Function(f) => {
                match named {
                    Some(nm) => Some(
                        pretty_function_item(&db.interner, &db.model.names, &f.overload, nm),
                    ),
                    None => None,
                }
            },
            PatternTy::EnumConstructor(ec) => {
                if ec.len() == 0 {
                    return None;
                }
                match named {
                    Some(nm) => Some(
                        pretty_function_item(
                            &db.interner,
                            &db.model.names,
                            &ec[0].constructor.overload,
                            nm,
                        ),
                    ),
                    None => None,
                }
            },
            PatternTy::TyVar(v) => {
                let mut s = String::from_str("$");
                let d = decimal_string(*v as u64);
                s.append(d.as_str());
                Some(s)
            },
            PatternTy::TypeAlias { ty, .. } => {
                match named {
                    Some(nm) => {
                        let mut s = String::from_str("type ");
                        let n2 = name_string(&db.model.names, nm);
                        s.append(n2.as_str());
                        s.append(" = ");
                        let e = pretty_ty(&db.interner, &db.model.names, *ty);
                        s.append(e.as_str());
                        Some(s)
                    },
                    None => None,
                }
            },
            _ => None,
        }
    }

    /// Dump every computed type and resolution of this item as text.
    pub fn debug_print(&self, db: &Db) -> (r: String)
        requires
            self.inv(),
            db.wf(),
    {
        let mut w = String::from_str("Computed types:\n  Declarations:\n");
        let mut i: usize = 0;
        while i < self.body.patterns.num_entries()
            invariant
                self.inv(),
                db.wf(),
            decreases self.body.patterns.entries_seq().len() - i,
        {
            let entry = self.body.patterns.entry_at(i);
            w.append("    ");
            let d = decimal_string(entry.index as u64);
            w.append(d.as_str());
            w.append(": ");
            let t = pattern_ty_debug(&db.interner, &db.model.names, &entry.value);
            w.append(t.as_str());
            w.append("\n");
            i = i + 1;
        }
        if let Some(s) = &self.signature {
            let mut i2: usize = 0;
            while i2 < s.patterns.num_entries()
                invariant
                    self.inv(),
                    db.wf(),
                    s.inv(),
                decreases s.patterns.entries_seq().len() - i2,
            {
                let entry = s.patterns.entry_at(i2);
                // One line per pattern: a body entry for the same index
                // takes precedence over the signature entry
                if entry.item == self.item && self.body.patterns.get(self.item, entry.index).is_none() {
                    w.append("    ");
                    let d = decimal_string(entry.index as u64);
                    w.append(d.as_str());
                    w.append(": ");
                    let t = pattern_ty_debug(&db.interner, &db.model.names, &entry.value);
                    w.append(t.as_str());
                    w.append("\n");
                }
                i2 = i2 + 1;
            }
        }
        w.append("  Expressions:\n");
        let mut i3: usize = 0;
        while i3 < self.body.expressions.num_entries()
            invariant
                self.inv(),
                db.wf(),
            decreases self.body.expressions.entries_seq().len() - i3,
        {
            let entry = self.body.expressions.entry_at(i3);
            w.append("    ");
            let d = decimal_string(entry.index as u64);
            w.append(d.as_str());
            w.append(": ");
            let t = pretty_ty(&db.interner, &db.model.names, entry.value);
            w.append(t.as_str());
            w.append("\n");
            i3 = i3 + 1;
        }
        if let Some(s) = &self.signature {
            let mut i6: usize = 0;
            while i6 < s.expressions.num_entries()
                invariant
                    self.inv(),
                    db.wf(),
                    s.inv(),
                decreases s.expressions.entries_seq().len() - i6,
            {
                let entry = s.expressions.entry_at(i6);
                if entry.item == self.item && self.body.expressions.get(
                    self.item,
                    entry.index,
                ).is_none() {
                    w.append("    ");
                    let d = decimal_string(entry.index as u64);
                    w.append(d.as_str());
                    w.append(": ");
                    let t = pretty_ty(&db.interner, &db.model.names, entry.value);
                    w.append(t.as_str());
                    w.append("\n");
                }
                i6 = i6 + 1;
            }
        }
        w.append("  Name resolution:\n");
        let mut i4: usize = 0;
        while i4 < self.body.identifier_resolution.num_entries()
            invariant
                self.inv(),
                db.wf(),
            decreases self.body.identifier_resolution.entries_seq().len() - i4,
        {
            let entry = self.body.identifier_resolution.entry_at(i4);
            w.append("    ");
            let d = decimal_string(entry.index as u64);
            w.append(d.as_str());
            w.append(": (");
            let d2 = decimal_string(entry.value.item as u64);
            w.append(d2.as_str());
            w.append(", ");
            let d3 = decimal_string(entry.value.pattern as u64);
            w.append(d3.as_str());
            w.append(")\n");
            i4 = i4 + 1;
        }
        if let Some(s) = &self.signature {
            let mut i7: usize = 0;
            while i7 < s.identifier_resolution.num_entries()
                invariant
                    self.inv(),
                    db.wf(),
                    s.inv(),
                decreases s.identifier_resolution.entries_seq().len() - i7,
            {
                let entry = s.identifier_resolution.entry_at(i7);
                if entry.item == self.item && self.body.identifier_resolution.get(
                    self.item,
                    entry.index,
                ).is_none() {
                    w.append("    ");
                    let d = decimal_string(entry.index as u64);
                    w.append(d.as_str());
                    w.append(": (");
                    let d2 = decimal_string(entry.value.item as u64);
                    w.append(d2.as_str());
                    w.append(", ");
                    let d3 = decimal_string(entry.value.pattern as u64);
                    w.append(d3.as_str());
                    w.append(")\n");
                }
                i7 = i7 + 1;
            }
        }
        w.append("  Pattern resolution:\n");
        let mut i5: usize = 0;
        while i5 < self.body.pattern_resolution.num_entries()
            invariant
                self.inv(),
                db.wf(),
            decreases self.body.pattern_resolution.entries_seq().len() - i5,
        {
            let entry = self.body.pattern_resolution.entry_at(i5);
            w.append("    ");
            let d = decimal_string(entry.index as u64);
            w.append(d.as_str());
            w.append(": (");
            let d2 = decimal_string(entry.value.item as u64);
            w.append(d2.as_str());
            w.append(", ");
            let d3 = decimal_string(entry.value.pattern as u64);
            w.append(d3.as_str());
            w.append(")\n");
            i5 = i5 + 1;
        }
        if let Some(s) = &self.signature {
            let mut i8: usize = 0;
            while i8 < s.pattern_resolution.num_entries()
                invariant
                    self.inv(),
                    db.wf(),
                    s.inv(),
                decreases s.pattern_resolution.entries_seq().len() - i8,
            {
                let entry = s.pattern_resolution.entry_at(i8);
                if entry.item == self.item && self.body.pattern_resolution.get(
                    self.item,
                    entry.index,
                ).is_none() {
                    w.append("    ");
                    let d = decimal_string(entry.index as u64);
                    w.append(d.as_str());
                    w.append(": (");
                    let d2 = decimal_string(entry.value.item as u64);
                    w.append(d2.as_str());
                    w.append(", ");
                    let d3 = decimal_string(entry.value.pattern as u64);
                    w.append(d3.as_str());
                    w.append(")\n");
                }
                i8 = i8 + 1;
            }
        }
        w
    }
}

} // verus!
