//! Contract compilation: partition one contract's definitions by kind and
//! compile an interface group for each kind that has more than one
//! definition.
//!
//! The three groups of a contract are built independently, by the same
//! algorithm, in one synchronous pass with no side effects; the result is
//! immutable.

use vstd::prelude::*;

use crate::errors::BuildError;
use crate::group::{kind_suffix, InterfaceGroup};
use crate::member::{distinct_variant_ids, members_well_formed, sel_seq, Kind, MemberDescriptor};

verus! {

/// The definitions of one kind, in declaration order.
pub open spec fn of_kind(ms: Seq<MemberDescriptor>, kind: Kind) -> Seq<MemberDescriptor>
    decreases ms.len(),
{
    if ms.len() == 0 {
        Seq::empty()
    } else if ms.last().kind == kind {
        of_kind(ms.drop_last(), kind).push(ms.last())
    } else {
        of_kind(ms.drop_last(), kind)
    }
}

/// Every definition is well formed on its own terms: a selector of its
/// own kind's width and, for errors and events, the payload type named
/// after the variant.
pub open spec fn definitions_well_formed(ms: Seq<MemberDescriptor>) -> bool {
    forall|i: int|
        0 <= i < ms.len() ==> {
            &&& (#[trigger] ms[i]).selector@.len() == ms[i].kind.selector_width()
            &&& (ms[i].kind != Kind::Call ==> ms[i].payload_type_id@ == ms[i].variant_id@)
        }
}

/// Variant identifiers are distinct among definitions of one kind, as the
/// upstream name resolver guarantees.
pub open spec fn distinct_ids_per_kind(ms: Seq<MemberDescriptor>) -> bool {
    forall|i: int, j: int|
        0 <= i < j < ms.len() && ms[i].kind == ms[j].kind ==> ms[i].variant_id@
            != ms[j].variant_id@
}

/// One kind's slice of well-formed definitions is itself a well-formed
/// member list of that kind.
pub proof fn lemma_of_kind_well_formed(ms: Seq<MemberDescriptor>, kind: Kind)
    requires
        definitions_well_formed(ms),
        distinct_ids_per_kind(ms),
    ensures
        members_well_formed(of_kind(ms, kind), kind),
        distinct_variant_ids(of_kind(ms, kind)),
        forall|t: int|
            0 <= t < of_kind(ms, kind).len() ==> ms.contains(#[trigger] of_kind(ms, kind)[t]),
    decreases ms.len(),
{
    if ms.len() > 0 {
        let prev = ms.drop_last();
        assert(definitions_well_formed(prev)) by {
            assert(forall|i: int| 0 <= i < prev.len() ==> prev[i] == ms[i]);
        }
        assert(distinct_ids_per_kind(prev)) by {
            assert(forall|i: int| 0 <= i < prev.len() ==> prev[i] == ms[i]);
        }
        lemma_of_kind_well_formed(prev, kind);
        let sub = of_kind(prev, kind);
        assert forall|t: int|
            0 <= t < of_kind(ms, kind).len() implies ms.contains(
            #[trigger] of_kind(ms, kind)[t],
        ) by {
            if t < sub.len() {
                let i = choose|i: int| 0 <= i < prev.len() && prev[i] == sub[t];
                assert(ms[i] == of_kind(ms, kind)[t]);
            } else {
                assert(ms[ms.len() - 1] == of_kind(ms, kind)[t]);
            }
        }
        if ms.last().kind == kind {
            assert forall|t: int|
                0 <= t < sub.len() implies sub[t].variant_id@ != ms.last().variant_id@ by {
                let i = choose|i: int| 0 <= i < prev.len() && prev[i] == sub[t];
                assert(ms[i] == sub[t] && ms[i].kind == kind);
                assert(ms[i].variant_id@ != ms[ms.len() - 1].variant_id@);
            }
        }
    }
}

/// The groups compiled from one contract: one per kind, present only when
/// that kind has at least two definitions.
pub struct ContractGroups {
    /// Group over the contract's remote-procedure calls.
    pub calls: Option<InterfaceGroup>,
    /// Group over the contract's declared error conditions.
    pub errors: Option<InterfaceGroup>,
    /// Group over the contract's emitted events.
    pub events: Option<InterfaceGroup>,
}

/// What contract compilation owes for one kind's outcome: no group from
/// fewer than two definitions, else a complete well-formed group over
/// exactly that kind's definitions, named after the contract.
pub open spec fn group_built(
    og: Option<InterfaceGroup>,
    contract_name: Seq<char>,
    kind: Kind,
    ms: Seq<MemberDescriptor>,
) -> bool {
    if ms.len() <= 1 {
        og is None
    } else {
        og matches Some(g) && g.wf() && g.kind == kind && g.members@ == ms && g.name@
            == contract_name + kind_suffix(kind)
    }
}

/// Compile one contract's definitions into its interface groups.
///
/// The definitions are partitioned by kind, keeping declaration order,
/// and each kind with more than one definition is compiled into a group.
/// A duplicated selector within one kind fails the whole compilation
/// atomically; no partial result is returned.
pub fn compile_contract(contract_name: &String, definitions: Vec<MemberDescriptor>) -> (r: Result<
    ContractGroups,
    BuildError,
>)
    requires
        definitions_well_formed(definitions@),
        distinct_ids_per_kind(definitions@),
    ensures
        match r {
            Ok(cg) => {
                &&& group_built(
                    cg.calls,
                    contract_name@,
                    Kind::Call,
                    of_kind(definitions@, Kind::Call),
                )
                &&& group_built(
                    cg.errors,
                    contract_name@,
                    Kind::Error,
                    of_kind(definitions@, Kind::Error),
                )
                &&& group_built(
                    cg.events,
                    contract_name@,
                    Kind::Event,
                    of_kind(definitions@, Kind::Event),
                )
            },
            Err(e) => e matches BuildError::DuplicateSelector { selector } && exists|
                kind: Kind,
                i: int,
                j: int,
            |
                0 <= i < j < of_kind(definitions@, kind).len() && (#[trigger] of_kind(
                    definitions@,
                    kind,
                )[i]).selector@ == selector@ && (#[trigger] of_kind(definitions@, kind)[j]).selector@
                    == selector@,
        },
{
    let ghost defs = definitions@;
    let mut calls: Vec<MemberDescriptor> = Vec::new();
    let mut errs: Vec<MemberDescriptor> = Vec::new();
    let mut evts: Vec<MemberDescriptor> = Vec::new();
    let mut rest = definitions;
    let total: usize = rest.len();
    let mut k: usize = 0;
    while rest.len() > 0
        invariant
            total == defs.len(),
            k + rest@.len() == defs.len(),
            rest@ == defs.skip(k as int),
            calls@ == of_kind(defs.take(k as int), Kind::Call),
            errs@ == of_kind(defs.take(k as int), Kind::Error),
            evts@ == of_kind(defs.take(k as int), Kind::Event),
        decreases rest@.len(),
    {
        let m = rest.remove(0);
        proof {
            assert(defs.skip(k as int)[0] == defs[k as int]);
            assert(defs.skip(k as int).remove(0) =~= defs.skip(k as int + 1));
            assert(defs.take(k as int + 1).drop_last() =~= defs.take(k as int));
            assert(defs.take(k as int + 1).last() == defs[k as int]);
        }
        match m.kind {
            Kind::Call => calls.push(m),
            Kind::Error => errs.push(m),
            Kind::Event => evts.push(m),
        }
        k += 1;
    }
    proof {
        assert(defs.take(defs.len() as int) =~= defs);
        lemma_of_kind_well_formed(defs, Kind::Call);
        lemma_of_kind_well_formed(defs, Kind::Error);
        lemma_of_kind_well_formed(defs, Kind::Event);
    }
    let calls_group = match InterfaceGroup::compile(contract_name, Kind::Call, calls) {
        Ok(og) => og,
        Err(e) => {
            return Err(e);
        },
    };
    let errors_group = match InterfaceGroup::compile(contract_name, Kind::Error, errs) {
        Ok(og) => og,
        Err(e) => {
            return Err(e);
        },
    };
    let events_group = match InterfaceGroup::compile(contract_name, Kind::Event, evts) {
        Ok(og) => og,
        Err(e) => {
            return Err(e);
        },
    };
    Ok(ContractGroups { calls: calls_group, errors: errors_group, events: events_group })
}

} // verus!
