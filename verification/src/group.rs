//! Interface groups: the tagged union over one contract's same-kind
//! definitions, with its canonical selector table and dispatch contract.
//!
//! A group is compiled once from the ordered member descriptors of one
//! kind and is immutable thereafter. Construction is all-or-nothing: a
//! duplicated selector rejects the whole group. Dispatch routes a raw
//! selector to the first (and, selectors being distinct, only) member that
//! carries it. Event groups receive only the union and its accessors, no
//! dispatch contract.

use vstd::prelude::*;
use vstd::string::StringExecFns;

use crate::codec::{payload_decodable, payload_decode_raw, payload_encode_raw, payload_encoded_size};
use crate::errors::{BuildError, DispatchError};
use crate::member::{distinct_variant_ids, members_well_formed, min_lens, sel_seq, Kind,
    MemberDescriptor};
use crate::selector::{bytes_eq, clone_bytes};
use crate::table::{aggregate_min_length, build_selector_table, seq_min, sorted_strict, table_view,
    lemma_seq_min_attained, lemma_seq_min_le_all};
use crate::value::InterfaceValue;

verus! {

/// Index of the first member whose selector equals `sel`, or `-1` when no
/// member carries it.
pub open spec fn first_match(ms: Seq<MemberDescriptor>, sel: Seq<u8>) -> int
    decreases ms.len(),
{
    if ms.len() == 0 {
        -1
    } else if ms[0].selector@ == sel {
        0
    } else {
        let r = first_match(ms.drop_first(), sel);
        if r < 0 {
            -1
        } else {
            r + 1
        }
    }
}

/// Some member of the group carries this selector.
pub open spec fn group_has_selector(ms: Seq<MemberDescriptor>, sel: Seq<u8>) -> bool {
    exists|i: int| 0 <= i < ms.len() && ms[i].selector@ == sel
}

/// `first_match` finds exactly the first carrier of a selector, and `-1`
/// exactly when there is none.
pub proof fn lemma_first_match_properties(ms: Seq<MemberDescriptor>, sel: Seq<u8>)
    ensures
        first_match(ms, sel) == -1 <==> !group_has_selector(ms, sel),
        first_match(ms, sel) >= 0 ==> {
            &&& first_match(ms, sel) < ms.len()
            &&& ms[first_match(ms, sel)].selector@ == sel
            &&& forall|j: int| 0 <= j < first_match(ms, sel) ==> ms[j].selector@ != sel
        },
    decreases ms.len(),
{
    if ms.len() > 0 && ms[0].selector@ != sel {
        lemma_first_match_properties(ms.drop_first(), sel);
        let r = first_match(ms.drop_first(), sel);
        if r < 0 {
            assert forall|i: int| 0 <= i < ms.len() implies ms[i].selector@ != sel by {
                if i >= 1 {
                    assert(ms.drop_first()[i - 1] == ms[i]);
                }
            }
        } else {
            assert(ms.drop_first()[r] == ms[r + 1]);
            assert forall|j: int| 0 <= j < r + 1 implies ms[j].selector@ != sel by {
                if j >= 1 {
                    assert(ms.drop_first()[j - 1] == ms[j]);
                }
            }
        }
    }
}

/// When the members' selectors are pairwise distinct, the first match of
/// member `i`'s selector is `i` itself.
pub proof fn lemma_first_match_unique(ms: Seq<MemberDescriptor>, i: int)
    requires
        sel_seq(ms).no_duplicates(),
        0 <= i < ms.len(),
    ensures
        first_match(ms, ms[i].selector@) == i,
{
    let sel = ms[i].selector@;
    lemma_first_match_properties(ms, sel);
    let fm = first_match(ms, sel);
    assert(group_has_selector(ms, sel));
    assert(fm >= 0);
    if fm != i {
        assert(sel_seq(ms)[fm] == sel_seq(ms)[i]);
    }
}

/// Suffix of a group's derived name, by kind.
pub open spec fn kind_suffix(kind: Kind) -> Seq<char> {
    match kind {
        Kind::Call => "Calls"@,
        Kind::Error => "Errors"@,
        Kind::Event => "Events"@,
    }
}

/// Display name of a contract's group of one kind: the contract name
/// followed by the kind's plural suffix.
pub fn derive_group_name(contract_name: &String, kind: Kind) -> (r: String)
    ensures
        r@ == contract_name@ + kind_suffix(kind),
{
    let suffix: &str = match kind {
        Kind::Call => "Calls",
        Kind::Error => "Errors",
        Kind::Event => "Events",
    };
    contract_name.clone().concat(suffix)
}

/// The tagged union over one contract's same-kind definitions, with its
/// canonical selector table and early-reject bound.
pub struct InterfaceGroup {
    /// Display name: the contract name followed by the kind's suffix.
    pub name: String,
    /// The members' kind.
    pub kind: Kind,
    /// The members, in original declaration order; this order numbers the
    /// union's variants.
    pub members: Vec<MemberDescriptor>,
    /// The members' selectors sorted ascending; the only order exposed for
    /// enumeration, independent of declaration order.
    pub selector_table: Vec<Vec<u8>>,
    /// Least minimum encoded payload length over all members.
    pub min_data_length: usize,
}

impl InterfaceGroup {
    /// Well-formedness: what construction establishes and every dispatch
    /// operation relies on.
    pub open spec fn wf(self) -> bool {
        &&& self.members@.len() >= 2
        &&& members_well_formed(self.members@, self.kind)
        &&& distinct_variant_ids(self.members@)
        &&& sel_seq(self.members@).no_duplicates()
        &&& self.selector_table@.len() == self.members@.len()
        &&& sorted_strict(table_view(self.selector_table@))
        &&& table_view(self.selector_table@).to_multiset() == sel_seq(self.members@).to_multiset()
        &&& self.min_data_length == seq_min(min_lens(self.members@))
    }

    /// Whether the group carries the dispatch contract: event groups get
    /// only the union and its accessors.
    pub open spec fn has_dispatch(self) -> bool {
        self.kind != Kind::Event
    }

    /// A union value of this group: its variant index names a member.
    pub open spec fn value_wf(self, v: InterfaceValue) -> bool {
        (v.variant as int) < self.members@.len()
    }

    /// Compile one kind's ordered members into a group.
    ///
    /// Zero or one member build no group: a single definition needs no
    /// dispatch union and is emitted standalone by the surrounding code.
    /// With two or more members, construction succeeds if and only if the
    /// members' selectors are pairwise distinct, and fails atomically on a
    /// duplicate.
    pub fn compile(contract_name: &String, kind: Kind, members: Vec<MemberDescriptor>) -> (r:
        Result<Option<InterfaceGroup>, BuildError>)
        requires
            members_well_formed(members@, kind),
            distinct_variant_ids(members@),
        ensures
            members@.len() <= 1 ==> r == Ok::<Option<InterfaceGroup>, BuildError>(None),
            members@.len() >= 2 ==> match r {
                Ok(og) => og matches Some(g) && g.wf() && g.kind == kind && g.members@ == members@
                    && g.name@ == contract_name@ + kind_suffix(kind)
                    && sel_seq(members@).no_duplicates(),
                Err(e) => !sel_seq(members@).no_duplicates()
                    && (e matches BuildError::DuplicateSelector { selector } && exists|i: int, j: int|
                        0 <= i < j < members@.len() && members@[i].selector@ == selector@
                            && members@[j].selector@ == selector@),
            },
    {
        if members.len() <= 1 {
            return Ok(None);
        }
        let selector_table = match build_selector_table(&members) {
            Ok(t) => t,
            Err(e) => {
                return Err(e);
            },
        };
        let min_data_length = aggregate_min_length(&members);
        let name = derive_group_name(contract_name, kind);
        Ok(Some(InterfaceGroup { name, kind, members, selector_table, min_data_length }))
    }

    /// The group's display name.
    pub fn name(&self) -> (r: &String)
        ensures
            r@ == self.name@,
    {
        &self.name
    }

    /// The group-wide minimum encoded data length: the cheap early-reject
    /// bound callers may apply before decoding.
    pub fn min_data_length(&self) -> (r: usize)
        ensures
            r == self.min_data_length,
    {
        self.min_data_length
    }

    /// The ascending selector table, the only order exposed for
    /// enumeration.
    pub fn selectors(&self) -> (r: &Vec<Vec<u8>>)
        ensures
            r@ == self.selector_table@,
    {
        &self.selector_table
    }

    /// The payload type identifiers backing the variants, in declaration
    /// order: overload-specific raw names for calls, the variant
    /// identifiers themselves for errors and events.
    pub fn payload_type_ids(&self) -> (r: Vec<String>)
        ensures
            r@.len() == self.members@.len(),
            forall|i: int| 0 <= i < r@.len() ==> r@[i]@ == self.members@[i].payload_type_id@,
    {
        let mut r: Vec<String> = Vec::new();
        let mut i: usize = 0;
        while i < self.members.len()
            invariant
                i <= self.members@.len(),
                r@.len() == i,
                forall|j: int| 0 <= j < i ==> r@[j]@ == self.members@[j].payload_type_id@,
            decreases self.members@.len() - i,
        {
            r.push(self.members[i].payload_type_id.clone());
            i += 1;
        }
        r
    }

    /// Member count of the group.
    pub fn count(&self) -> (r: usize)
        ensures
            r == self.members@.len(),
    {
        self.members.len()
    }

    /// Selector of the member backing `value`'s active variant.
    pub open spec fn selector_of_spec(self, v: InterfaceValue) -> Seq<u8> {
        self.members@[v.variant as int].selector@
    }

    /// Selector of the payload type backing `value`'s active variant,
    /// read from the member list, never stored in the value, so it cannot
    /// drift from the member's true selector.
    pub fn selector(&self, value: &InterfaceValue) -> (r: Vec<u8>)
        requires
            self.wf(),
            self.has_dispatch(),
            self.value_wf(*value),
        ensures
            r@ == self.selector_of_spec(*value),
    {
        clone_bytes(&self.members[value.variant].selector)
    }

    /// Selector at `i` in the ascending table; out of range yields no
    /// selector, not an error.
    pub fn selector_at(&self, i: usize) -> (r: Option<Vec<u8>>)
        requires
            self.wf(),
            self.has_dispatch(),
        ensures
            i < self.selector_table@.len() ==> (r matches Some(s) && s@ == table_view(
                self.selector_table@,
            )[i as int]),
            i >= self.selector_table@.len() ==> r is None,
    {
        if i < self.selector_table.len() {
            Some(clone_bytes(&self.selector_table[i]))
        } else {
            None
        }
    }

    /// Success exactly when some member carries `selector`; otherwise the
    /// unknown-selector rejection, naming the group and the bytes.
    pub fn type_check(&self, selector: &Vec<u8>) -> (r: Result<(), DispatchError>)
        requires
            self.wf(),
            self.has_dispatch(),
        ensures
            r is Ok <==> group_has_selector(self.members@, selector@),
            r matches Err(e) ==> e matches DispatchError::UnknownSelector {
                group,
                selector: s,
            } && group@ == self.name@ && s@ == selector@,
    {
        let mut i: usize = 0;
        while i < self.members.len()
            invariant
                i <= self.members@.len(),
                forall|j: int| 0 <= j < i ==> self.members@[j].selector@ != selector@,
            decreases self.members@.len() - i,
        {
            if bytes_eq(&self.members[i].selector, selector) {
                return Ok(());
            }
            i += 1;
        }
        Err(
            DispatchError::UnknownSelector {
                group: self.name.clone(),
                selector: clone_bytes(selector),
            },
        )
    }

    /// What decoding resolves to: the first member carrying the selector,
    /// with the data as its payload, when the data is long enough.
    pub open spec fn decode_spec(self, sel: Seq<u8>, data: Seq<u8>) -> Option<(int, Seq<u8>)> {
        let fm = first_match(self.members@, sel);
        if fm >= 0 && payload_decodable(self.members@[fm], data) {
            Some((fm, data))
        } else {
            None
        }
    }

    /// Match `selector` against the members and decode `data` as the
    /// matching member's payload, wrapped in that member's variant.
    ///
    /// `validate` is passed through unchanged to the payload decoder. An
    /// unmatched selector is the unknown-selector rejection; a matched one
    /// hands the outcome of the member's payload decoder back.
    pub fn decode_raw(&self, selector: &Vec<u8>, data: &Vec<u8>, validate: bool) -> (r: Result<
        InterfaceValue,
        DispatchError,
    >)
        requires
            self.wf(),
            self.has_dispatch(),
        ensures
            ({
                let fm = first_match(self.members@, selector@);
                &&& (r is Ok <==> self.decode_spec(selector@, data@) is Some)
                &&& (r matches Ok(v) ==> self.decode_spec(selector@, data@) == Some(
                    (v.variant as int, v.payload@),
                ) && self.value_wf(v) && self.selector_of_spec(v) == selector@)
                &&& (fm < 0 ==> (r matches Err(e) && e matches DispatchError::UnknownSelector {
                    group,
                    selector: s,
                } && group@ == self.name@ && s@ == selector@))
                &&& (fm >= 0 && !payload_decodable(self.members@[fm], data@) ==> (r matches Err(e)
                    && e matches DispatchError::PayloadTooShort { needed, got } && needed
                    == self.members@[fm].min_payload_len && got == data@.len()))
            }),
    {
        let ghost ms = self.members@;
        let mut i: usize = 0;
        while i < self.members.len()
            invariant
                ms == self.members@,
                i <= ms.len(),
                forall|j: int| 0 <= j < i ==> ms[j].selector@ != selector@,
            decreases ms.len() - i,
        {
            if bytes_eq(&self.members[i].selector, selector) {
                proof {
                    lemma_first_match_properties(ms, selector@);
                    let fm = first_match(ms, selector@);
                    assert(group_has_selector(ms, selector@));
                    assert(fm >= 0);
                    if fm < i {
                        assert(ms[fm].selector@ != selector@);
                    }
                    if fm > i {
                        assert(ms[i as int].selector@ != selector@);
                    }
                    assert(fm == i);
                }
                let payload = match payload_decode_raw(&self.members[i], data, validate) {
                    Ok(p) => p,
                    Err(e) => {
                        return Err(e);
                    },
                };
                return Ok(InterfaceValue { variant: i, payload });
            }
            i += 1;
        }
        proof {
            lemma_first_match_properties(ms, selector@);
        }
        Err(
            DispatchError::UnknownSelector {
                group: self.name.clone(),
                selector: clone_bytes(selector),
            },
        )
    }

    /// Number of bytes `value` occupies when encoded; delegates to the
    /// payload codec and never fails.
    pub fn encoded_size(&self, value: &InterfaceValue) -> (r: usize)
        requires
            self.wf(),
            self.has_dispatch(),
            self.value_wf(*value),
        ensures
            r == value.payload@.len(),
    {
        payload_encoded_size(&value.payload)
    }

    /// Append `value`'s encoding to `out`; delegates to the payload codec
    /// and never fails.
    pub fn encode_raw(&self, value: &InterfaceValue, out: &mut Vec<u8>)
        requires
            self.wf(),
            self.has_dispatch(),
            self.value_wf(*value),
        ensures
            final(out)@ == old(out)@ + value.payload@,
    {
        payload_encode_raw(&value.payload, out)
    }
}

/// Sorting law: a well-formed group's selector table is strictly
/// ascending under byte-wise lexicographic order and holds exactly the
/// members' selectors, one each.
pub proof fn lemma_selector_table_sorted(g: InterfaceGroup)
    requires
        g.wf(),
    ensures
        sorted_strict(table_view(g.selector_table@)),
        table_view(g.selector_table@).to_multiset() == sel_seq(g.members@).to_multiset(),
        g.selector_table@.len() == g.members@.len(),
{
}

/// Selector round-trip law: a sample payload of member `i`, encoded and
/// decoded under that member's selector, comes back as exactly variant
/// `i` with the original payload, and the variant's selector is the
/// member's selector.
pub proof fn lemma_selector_round_trip(g: InterfaceGroup, i: int, sample: Seq<u8>)
    requires
        g.wf(),
        0 <= i < g.members@.len(),
        payload_decodable(g.members@[i], sample),
    ensures
        g.decode_spec(g.members@[i].selector@, sample) == Some((i, sample)),
        forall|v: InterfaceValue|
            v.variant as int == i ==> g.selector_of_spec(v) == g.members@[i].selector@,
{
    lemma_first_match_unique(g.members@, i);
}

/// Unknown-selector rejection law: a byte string no member carries is
/// matched by no member, decodes to nothing whatever the data, and does
/// not stand in the selector table either.
pub proof fn lemma_unknown_selector_rejected(g: InterfaceGroup, sel: Seq<u8>)
    requires
        g.wf(),
        forall|i: int| 0 <= i < g.members@.len() ==> g.members@[i].selector@ != sel,
    ensures
        !group_has_selector(g.members@, sel),
        first_match(g.members@, sel) == -1,
        forall|data: Seq<u8>| g.decode_spec(sel, data) is None,
        !table_view(g.selector_table@).contains(sel),
{
    lemma_first_match_properties(g.members@, sel);
    if table_view(g.selector_table@).contains(sel) {
        vstd::seq_lib::to_multiset_contains(table_view(g.selector_table@), sel);
        vstd::seq_lib::to_multiset_contains(sel_seq(g.members@), sel);
        let i = choose|i: int| 0 <= i < sel_seq(g.members@).len() && sel_seq(g.members@)[i] == sel;
        assert(g.members@[i].selector@ == sel);
    }
}

/// Minimum-length law: a group's minimum data length is a lower bound of
/// every member's minimum payload length, and is attained by one of them.
pub proof fn lemma_min_data_length_bound(g: InterfaceGroup)
    requires
        g.wf(),
    ensures
        forall|i: int|
            0 <= i < g.members@.len() ==> g.min_data_length <= g.members@[i].min_payload_len,
        exists|i: int|
            0 <= i < g.members@.len() && g.min_data_length == g.members@[i].min_payload_len,
{
    lemma_seq_min_le_all(min_lens(g.members@));
    lemma_seq_min_attained(min_lens(g.members@));
    assert forall|i: int|
        0 <= i < g.members@.len() implies g.min_data_length <= g.members@[i].min_payload_len by {
        assert(min_lens(g.members@)[i] == g.members@[i].min_payload_len);
    }
    let a = choose|a: int|
        0 <= a < min_lens(g.members@).len() && seq_min(min_lens(g.members@)) == min_lens(
            g.members@,
        )[a];
    assert(g.min_data_length == g.members@[a].min_payload_len);
}

} // verus!
