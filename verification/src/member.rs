//! Member descriptors: the normalized view of one callable definition.
//!
//! Upstream collaborators (the definition parser, the signature hasher and
//! the name resolver) supply one descriptor per definition; this crate
//! aggregates descriptors of one kind into an interface group.

use vstd::prelude::*;

verus! {

/// The kind of callable definition a member describes.
#[derive(Clone, Copy, PartialEq, Eq, Structural, Debug)]
pub enum Kind {
    Call,
    Error,
    Event,
}

impl Kind {
    /// Width in bytes of this kind's selector: a truncated signature hash
    /// for calls and errors, the full hash for events.
    pub open spec fn selector_width(self) -> nat {
        match self {
            Kind::Call => 4,
            Kind::Error => 4,
            Kind::Event => 32,
        }
    }

    /// Executable selector width of this kind.
    pub fn width(self) -> (r: usize)
        ensures
            r == self.selector_width(),
    {
        match self {
            Kind::Call => 4,
            Kind::Error => 4,
            Kind::Event => 32,
        }
    }
}

/// Normalized view of one callable definition.
pub struct MemberDescriptor {
    /// The kind of definition; uniform within one interface group.
    pub kind: Kind,
    /// Identifier of the union variant standing for this member; unique
    /// within its group by construction of the upstream name resolver.
    pub variant_id: String,
    /// Identifier of the payload type that encodes this member's
    /// parameters; for calls it may differ from `variant_id` (overloads
    /// use a disambiguated raw type name), for errors and events it equals
    /// `variant_id`.
    pub payload_type_id: String,
    /// Fixed-width selector bytes derived from the signature hash.
    pub selector: Vec<u8>,
    /// Minimum number of bytes this member's encoded payload can occupy.
    pub min_payload_len: usize,
}

/// The members' selectors, as byte sequences, in declaration order.
pub open spec fn sel_seq(ms: Seq<MemberDescriptor>) -> Seq<Seq<u8>> {
    ms.map_values(|m: MemberDescriptor| m.selector@)
}

/// The members' minimum payload lengths, in declaration order.
pub open spec fn min_lens(ms: Seq<MemberDescriptor>) -> Seq<usize> {
    ms.map_values(|m: MemberDescriptor| m.min_payload_len)
}

/// Variant identifiers are pairwise distinct.
pub open spec fn distinct_variant_ids(ms: Seq<MemberDescriptor>) -> bool {
    forall|i: int, j: int|
        0 <= i < j < ms.len() ==> ms[i].variant_id@ != ms[j].variant_id@
}

/// Every member is of kind `kind`, carries a selector of that kind's
/// width, and (for errors and events) names its variant as payload type.
pub open spec fn members_well_formed(ms: Seq<MemberDescriptor>, kind: Kind) -> bool {
    forall|i: int|
        0 <= i < ms.len() ==> {
            &&& (#[trigger] ms[i]).kind == kind
            &&& ms[i].selector@.len() == kind.selector_width()
            &&& (kind != Kind::Call ==> ms[i].payload_type_id@ == ms[i].variant_id@)
        }
}

} // verus!
