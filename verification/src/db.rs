//! The typing database.
//!
//! [`Db`] owns what a typing computation reads and produces: the lowered
//! model, the interner of computed types, the registry of common types,
//! and the per-item cache of computed signatures. It stands in for the
//! external incremental-computation substrate: signatures are computed
//! on demand, stored by item identity, and read back by body typing —
//! and only by body typing, because signature computations never consult
//! the cache.

use vstd::prelude::*;

use crate::error::Error;
use crate::model::Model;
use crate::registry::TypeRegistry;
use crate::signature::SignatureTypes;
use crate::ty::Interner;

verus! {

broadcast use vstd::std_specs::vec::axiom_spec_len;

/// The typing database: model, type arena, registry and signature cache.
#[derive(Debug)]
pub struct Db {
    /// The lowered model
    pub model: Model,
    /// The arena of computed types
    pub interner: Interner,
    /// Common computed types
    pub registry: TypeRegistry,
    /// Cached signature results, one slot per item
    pub signatures: Vec<Option<SignatureTypes>>,
    /// Cached signature diagnostics, one slot per item
    pub signature_errors: Vec<Option<Vec<Error>>>,
}

impl Db {
    /// The model is well-formed, the arena and registry agree, and every
    /// cached signature is well-formed over the arena.
    pub open spec fn wf(&self) -> bool {
        &&& self.model.wf()
        &&& self.interner.inv()
        &&& self.registry.wf(self.interner@)
        &&& self.signatures@.len() == self.model.items@.len()
        &&& self.signature_errors@.len() == self.model.items@.len()
        &&& forall|i: int|
            0 <= i < self.signatures@.len() ==> ((#[trigger] self.signatures@[i]) matches Some(s)
                ==> s.inv() && s.below(self.interner@.len() as int))
    }

    /// Create a database over a lowered model.
    pub fn new(model: Model) -> (r: Db)
        requires
            model.wf(),
        ensures
            r.wf(),
            r.model == model,
            forall|i: int| 0 <= i < r.signatures@.len() ==> (#[trigger] r.signatures@[i]) is None,
    {
        let mut interner = Interner::new();
        let registry = TypeRegistry::new(&mut interner);
        let n = model.items.len();
        let mut signatures: Vec<Option<SignatureTypes>> = Vec::new();
        let mut signature_errors: Vec<Option<Vec<Error>>> = Vec::new();
        let mut i: usize = 0;
        while i < n
            invariant
                i <= n,
                signatures@.len() == i,
                signature_errors@.len() == i,
                forall|j: int| 0 <= j < i ==> (#[trigger] signatures@[j]) is None,
            decreases n - i,
        {
            signatures.push(None);
            signature_errors.push(None);
            i = i + 1;
        }
        Db { model, interner, registry, signatures, signature_errors }
    }

    /// Store an item's computed signature and its diagnostics.
    pub fn store_signature(&mut self, item: usize, sig: SignatureTypes, errs: Vec<Error>)
        requires
            old(self).wf(),
            item < old(self).signatures@.len(),
            sig.inv(),
            sig.below(old(self).interner@.len() as int),
        ensures
            final(self).wf(),
            final(self).model == old(self).model,
            final(self).interner == old(self).interner,
            final(self).registry == old(self).registry,
            final(self).signatures@ == old(self).signatures@.update(item as int, Some(sig)),
            final(self).signature_errors@ == old(self).signature_errors@.update(
                item as int,
                Some(errs),
            ),
    {
        let _ = self.signatures.remove(item);
        self.signatures.insert(item, Some(sig));
        let _ = self.signature_errors.remove(item);
        self.signature_errors.insert(item, Some(errs));
        proof {
            assert(self.signatures@ =~= old(self).signatures@.update(item as int, Some(sig)));
            assert(self.signature_errors@ =~= old(self).signature_errors@.update(
                item as int,
                Some(errs),
            ));
        }
    }

    /// Read an item's cached signature results, if computed.
    pub fn lookup_item_signature(&self, item: usize) -> (r: Option<&SignatureTypes>)
        requires
            self.wf(),
            (item as int) < self.model.items@.len(),
        ensures
            match r {
                Some(s) => self.signatures@[item as int] == Some(*s),
                None => self.signatures@[item as int] is None,
            },
    {
        match &self.signatures[item] {
            Some(s) => Some(s),
            None => None,
        }
    }

    /// Read an item's cached signature diagnostics, if computed.
    pub fn lookup_item_signature_errors(&self, item: usize) -> (r: Option<&Vec<Error>>)
        requires
            self.wf(),
            (item as int) < self.model.items@.len(),
        ensures
            match r {
                Some(e) => self.signature_errors@[item as int] == Some(*e),
                None => self.signature_errors@[item as int] is None,
            },
    {
        match &self.signature_errors[item] {
            Some(e) => Some(e),
            None => None,
        }
    }

    /// Intern a new computed type, keeping the database well-formed.
    pub fn intern(&mut self, d: crate::ty::TyData) -> (r: crate::ty::Ty)
        requires
            old(self).wf(),
            crate::ty::ty_children_below(d, old(self).interner@.len() as int),
        ensures
            final(self).wf(),
            final(self).model == old(self).model,
            final(self).registry == old(self).registry,
            final(self).signatures == old(self).signatures,
            final(self).signature_errors == old(self).signature_errors,
            final(self).interner@ == old(self).interner@.push(d),
            old(self).interner@.is_prefix_of(final(self).interner@),
            r.0 == old(self).interner@.len(),
            final(self).interner@[r.0 as int] == d,
    {
        let r = self.interner.intern(d);
        proof {
            assert(old(self).interner@.is_prefix_of(self.interner@)) by {
                assert(old(self).interner@ =~= self.interner@.subrange(
                    0,
                    old(self).interner@.len() as int,
                ));
            }
            self.registry.lemma_wf_extend(old(self).interner@, self.interner@);
            assert forall|i: int|
                0 <= i < self.signatures@.len() implies ((#[trigger] self.signatures@[i]) matches
            Some(s) ==> s.inv() && s.below(self.interner@.len() as int)) by {
                if self.signatures@[i] is Some {
                    let s = self.signatures@[i]->Some_0;
                    assert(s.inv() && s.below(old(self).interner@.len() as int));
                }
            }
        }
        r
    }

    /// An upper bound on the recursion a typing computation can need:
    /// used as the engine's termination budget. The bound is generous
    /// enough that every per-item arena fits under it with room to
    /// spare, which the contract states; the `Computing` sentinel fires
    /// long before the budget on any real cycle.
    pub fn recursion_budget(&self) -> (r: u128)
        ensures
            r >= 64,
            forall|i: int|
                0 <= i < self.model.items@.len() ==> r as int >= 8 + 2 * ((
                #[trigger] self.model.items@[i]).data.types@.len()
                    + self.model.items@[i].data.expressions@.len()
                    + self.model.items@[i].data.patterns@.len()),
    {
        let mut f: u128 = 64;
        let mut i: usize = 0;
        while i < self.model.items.len()
            invariant
                64 <= f < 0x80000000000000000u128,
                i <= self.model.items@.len(),
                forall|j: int|
                    0 <= j < i ==> f as int >= 4 + ((#[trigger] self.model.items@[j]).data.types@.len()
                        + self.model.items@[j].data.expressions@.len()
                        + self.model.items@[j].data.patterns@.len()) || f
                        >= 0x10000000000000000u128,
            decreases self.model.items@.len() - i,
        {
            let it = &self.model.items[i];
            let t = it.data.types.len() as u128 + it.data.expressions.len() as u128
                + it.data.patterns.len() as u128 + 4;
            if f < 0x10000000000000000u128 {
                f = f + t;
            }
            i = i + 1;
        }
        if f <= 0xFFFFFFFFu128 {
            proof {
                assert(f * f >= 2 * f) by (nonlinear_arith)
                    requires
                        f >= 2,
                {}
                assert(f * f <= 0xFFFFFFFFu128 * 0xFFFFFFFFu128) by (nonlinear_arith)
                    requires
                        f <= 0xFFFFFFFFu128,
                {}
                assert forall|j: int|
                    0 <= j < self.model.items@.len() implies (f * f + 64) as int >= 8 + 2 * ((
                    #[trigger] self.model.items@[j]).data.types@.len()
                        + self.model.items@[j].data.expressions@.len()
                        + self.model.items@[j].data.patterns@.len()) by {
                    assert(f as int >= 4 + ((self.model.items@[j]).data.types@.len()
                        + self.model.items@[j].data.expressions@.len()
                        + self.model.items@[j].data.patterns@.len()));
                }
            }
            f * f + 64
        } else {
            proof {
                assert forall|j: int|
                    0 <= j < self.model.items@.len() implies (f * 16 + 64) as int >= 8 + 2 * ((
                    #[trigger] self.model.items@[j]).data.types@.len()
                        + self.model.items@[j].data.expressions@.len()
                        + self.model.items@[j].data.patterns@.len()) by {
                    let sz = (self.model.items@[j]).data.types@.len()
                        + self.model.items@[j].data.expressions@.len()
                        + self.model.items@[j].data.patterns@.len();
                    if f >= 0x10000000000000000u128 {
                        assert((self.model.items@[j]).data.types@.len()
                            == (self.model.items@[j]).data.types.len());
                        assert(self.model.items@[j].data.expressions@.len()
                            == self.model.items@[j].data.expressions.len());
                        assert(self.model.items@[j].data.patterns@.len()
                            == self.model.items@[j].data.patterns.len());
                        assert(sz <= 3 * (usize::MAX as int));
                    } else {
                        assert(f as int >= 4 + sz);
                    }
                }
            }
            f * 16 + 64
        }
    }
}

} // verus!
