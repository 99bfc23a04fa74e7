//! Union values and their accessors.
//!
//! An interface group's tagged union is modeled by the index of the active
//! variant among the group's members together with the variant's payload.
//! The accessors are pure structural operations: a predicate, an immutable
//! extractor, a mutable extractor, a consuming extractor and the two
//! conversions between payload and union.

use vstd::prelude::*;

verus! {

/// A value of an interface group's tagged union: the active variant's
/// index among the group's members, and its payload.
pub struct InterfaceValue {
    /// Index of the active variant, in member declaration order.
    pub variant: usize,
    /// The active variant's payload, as its encoded byte string.
    pub payload: Vec<u8>,
}

impl InterfaceValue {
    /// The union's current value is variant `i`.
    pub open spec fn is_variant_spec(self, i: int) -> bool {
        self.variant as int == i
    }

    /// The payload the immutable extractor for variant `i` hands out.
    pub open spec fn as_variant_spec(self, i: int) -> Option<Seq<u8>> {
        if self.is_variant_spec(i) {
            Some(self.payload@)
        } else {
            None
        }
    }

    /// What the consuming extractor for variant `i` returns: the payload
    /// on a match, else the union value unchanged.
    pub open spec fn try_into_variant_spec(self, i: int) -> Result<Seq<u8>, InterfaceValue> {
        if self.is_variant_spec(i) {
            Ok(self.payload@)
        } else {
            Err(self)
        }
    }

    /// Lossless conversion from a payload of variant `i` into the union;
    /// always succeeds.
    pub fn from_payload(variant: usize, payload: Vec<u8>) -> (r: InterfaceValue)
        ensures
            r.variant == variant,
            r.payload == payload,
    {
        InterfaceValue { variant, payload }
    }

    /// Predicate: true iff the current value is variant `i`.
    pub fn is_variant(&self, i: usize) -> (r: bool)
        ensures
            r == self.is_variant_spec(i as int),
    {
        self.variant == i
    }

    /// Immutable extractor: the payload iff the current value is variant
    /// `i`, else absent.
    pub fn as_variant(&self, i: usize) -> (r: Option<&Vec<u8>>)
        ensures
            r is Some <==> self.as_variant_spec(i as int) is Some,
            r matches Some(p) ==> self.as_variant_spec(i as int) == Some(p@),
    {
        if self.variant == i {
            Some(&self.payload)
        } else {
            None
        }
    }

    /// Mutable extractor: mutable access to the payload iff the current
    /// value is variant `i`, else absent and the value is unchanged.
    pub fn as_variant_mut(&mut self, i: usize) -> (r: Option<&mut Vec<u8>>)
        ensures
            old(self).is_variant_spec(i as int) ==> (r matches Some(p) && *p == old(self).payload
                && final(self).variant == old(self).variant && final(self).payload == *final(p)),
            !old(self).is_variant_spec(i as int) ==> (r is None && *final(self) == *old(self)),
    {
        if self.variant == i {
            Some(&mut self.payload)
        } else {
            None
        }
    }

    /// Consuming extractor: the payload by value iff the current value is
    /// variant `i`, else the original union value back, unchanged, so the
    /// caller can retry against another variant.
    pub fn try_into_variant(self, i: usize) -> (r: Result<Vec<u8>, InterfaceValue>)
        ensures
            r is Ok <==> self.try_into_variant_spec(i as int) is Ok,
            r matches Ok(p) ==> self.try_into_variant_spec(i as int) == Ok::<Seq<u8>, InterfaceValue>(p@),
            r matches Err(v) ==> self.try_into_variant_spec(i as int) == Err::<Seq<u8>, InterfaceValue>(v),
    {
        if self.variant == i {
            Ok(self.payload)
        } else {
            Err(self)
        }
    }
}

/// Accessor exhaustiveness law: among the predicates of the `n` variants
/// of a group, a union value built from one variant answers true to
/// exactly that variant's predicate; the matching extractors hand out the
/// original payload and every other extractor is empty or returns the
/// value unchanged.
pub proof fn lemma_accessor_exhaustive(v: InterfaceValue, n: int)
    requires
        0 <= v.variant < n,
    ensures
        v.is_variant_spec(v.variant as int),
        forall|i: int| 0 <= i < n && i != v.variant as int ==> !v.is_variant_spec(i),
        v.as_variant_spec(v.variant as int) == Some(v.payload@),
        forall|i: int| 0 <= i < n && i != v.variant as int ==> v.as_variant_spec(i) is None,
        v.try_into_variant_spec(v.variant as int) == Ok::<Seq<u8>, InterfaceValue>(v.payload@),
        forall|i: int|
            0 <= i < n && i != v.variant as int ==> v.try_into_variant_spec(i) == Err::<
                Seq<u8>,
                InterfaceValue,
            >(v),
{
}

} // verus!
