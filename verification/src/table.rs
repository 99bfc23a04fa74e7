//! Selector table builder and minimum-length aggregator.
//!
//! The table builder sorts the members' selectors ascending and rejects a
//! duplicated selector; the aggregator computes the group-wide minimum
//! encoded payload length, the cheap early-reject bound of the dispatch
//! contract.

use vstd::prelude::*;

use crate::errors::BuildError;
use crate::member::{sel_seq, min_lens, MemberDescriptor};
use crate::selector::{bytes_eq, clone_bytes, lex_lt, lex_lt_bytes};
use crate::selector::{lemma_lex_transitive, lemma_lex_trichotomy};

verus! {

/// The byte sequences held by a selector table.
pub open spec fn table_view(t: Seq<Vec<u8>>) -> Seq<Seq<u8>> {
    t.map_values(|v: Vec<u8>| v@)
}

/// The table is strictly ascending under lexicographic order.
pub open spec fn sorted_strict(t: Seq<Seq<u8>>) -> bool {
    forall|i: int, j: int| 0 <= i < j < t.len() ==> lex_lt(t[i], t[j])
}

/// The least value of a non-empty sequence of lengths.
pub open spec fn seq_min(s: Seq<usize>) -> usize
    recommends
        s.len() > 0,
    decreases s.len(),
{
    if s.len() <= 1 {
        s[0]
    } else if s.last() <= seq_min(s.drop_last()) {
        s.last()
    } else {
        seq_min(s.drop_last())
    }
}

/// The minimum is a lower bound of every element.
pub proof fn lemma_seq_min_le_all(s: Seq<usize>)
    requires
        s.len() > 0,
    ensures
        forall|i: int| 0 <= i < s.len() ==> seq_min(s) <= s[i],
    decreases s.len(),
{
    if s.len() > 1 {
        lemma_seq_min_le_all(s.drop_last());
        assert forall|i: int| 0 <= i < s.len() implies seq_min(s) <= s[i] by {
            if i < s.len() - 1 {
                assert(s.drop_last()[i] == s[i]);
            }
        }
    }
}

/// The minimum is attained by some element.
pub proof fn lemma_seq_min_attained(s: Seq<usize>)
    requires
        s.len() > 0,
    ensures
        exists|i: int| 0 <= i < s.len() && seq_min(s) == s[i],
    decreases s.len(),
{
    if s.len() <= 1 {
        assert(seq_min(s) == s[0]);
    } else if s.last() <= seq_min(s.drop_last()) {
        assert(seq_min(s) == s[s.len() - 1]);
    } else {
        lemma_seq_min_attained(s.drop_last());
        let i = choose|i: int| 0 <= i < s.drop_last().len() && seq_min(s.drop_last()) == s.drop_last()[i];
        assert(s.drop_last()[i] == s[i]);
        assert(seq_min(s) == s[i]);
    }
}

/// A value that is a lower bound and is attained is the minimum.
pub proof fn lemma_seq_min_characterization(s: Seq<usize>, m: usize)
    requires
        s.len() > 0,
        forall|i: int| 0 <= i < s.len() ==> m <= s[i],
        exists|i: int| 0 <= i < s.len() && s[i] == m,
    ensures
        seq_min(s) == m,
{
    lemma_seq_min_le_all(s);
    lemma_seq_min_attained(s);
}

/// Replacing an element that is greatest in the sequence by any value not
/// below the minimum leaves the minimum unchanged.
pub proof fn lemma_seq_min_update_largest(s: Seq<usize>, j: int, v: usize)
    requires
        s.len() >= 2,
        0 <= j < s.len(),
        forall|k: int| 0 <= k < s.len() ==> s[k] <= s[j],
        seq_min(s) <= v,
    ensures
        seq_min(s.update(j, v)) == seq_min(s),
{
    let m = seq_min(s);
    let t = s.update(j, v);
    lemma_seq_min_le_all(s);
    lemma_seq_min_attained(s);
    let a = choose|a: int| 0 <= a < s.len() && m == s[a];
    let w: int = if a != j {
        a
    } else {
        // the greatest element also attains the minimum, so every element
        // equals the minimum; any other index attains it too
        let other: int = if j == 0 {
            1
        } else {
            0
        };
        assert(s[other] <= s[j] && m <= s[other]);
        other
    };
    assert(t[w] == m);
    assert forall|i: int| 0 <= i < t.len() implies m <= t[i] by {
        if i != j {
            assert(t[i] == s[i]);
        }
    }
    lemma_seq_min_characterization(t, m);
}

/// Replacing a member whose minimum payload length is greatest among the
/// members by one whose length is not below the group minimum leaves the
/// aggregated minimum unchanged.
pub proof fn lemma_min_length_largest_member(
    ms: Seq<MemberDescriptor>,
    j: int,
    replacement: MemberDescriptor,
)
    requires
        ms.len() >= 2,
        0 <= j < ms.len(),
        forall|k: int| 0 <= k < ms.len() ==> ms[k].min_payload_len <= ms[j].min_payload_len,
        seq_min(min_lens(ms)) <= replacement.min_payload_len,
    ensures
        seq_min(min_lens(ms.update(j, replacement))) == seq_min(min_lens(ms)),
{
    assert(min_lens(ms.update(j, replacement)) =~= min_lens(ms).update(
        j,
        replacement.min_payload_len,
    ));
    assert forall|k: int| 0 <= k < min_lens(ms).len() implies min_lens(ms)[k] <= min_lens(
        ms,
    )[j] by {
        assert(min_lens(ms)[k] == ms[k].min_payload_len);
    }
    lemma_seq_min_update_largest(min_lens(ms), j, replacement.min_payload_len);
}

/// The group-wide minimum encoded payload length: the least
/// `min_payload_len` over all members.
pub fn aggregate_min_length(members: &Vec<MemberDescriptor>) -> (r: usize)
    requires
        members@.len() >= 1,
    ensures
        r == seq_min(min_lens(members@)),
{
    let ghost lens = min_lens(members@);
    let mut r: usize = members[0].min_payload_len;
    let mut k: usize = 1;
    proof {
        assert(lens.take(1).len() == 1);
        assert(lens.take(1)[0] == lens[0]);
    }
    while k < members.len()
        invariant
            1 <= k <= members@.len(),
            lens == min_lens(members@),
            lens.len() == members@.len(),
            r == seq_min(lens.take(k as int)),
        decreases members@.len() - k,
    {
        let c = members[k].min_payload_len;
        proof {
            let pre = lens.take(k as int + 1);
            assert(pre.drop_last() =~= lens.take(k as int));
            assert(pre.last() == c);
        }
        if c < r {
            r = c;
        }
        k += 1;
    }
    proof {
        assert(lens.take(members@.len() as int) =~= lens);
    }
    r
}

/// Sorted selector table of the members, or the duplicate-selector
/// rejection.
///
/// On success the table holds exactly the members' selectors, strictly
/// ascending under byte-wise lexicographic order; success happens if and
/// only if the members' selectors are pairwise distinct.
pub fn build_selector_table(members: &Vec<MemberDescriptor>) -> (r: Result<Vec<Vec<u8>>, BuildError>)
    ensures
        match r {
            Ok(t) => {
                &&& sel_seq(members@).no_duplicates()
                &&& sorted_strict(table_view(t@))
                &&& table_view(t@).to_multiset() == sel_seq(members@).to_multiset()
                &&& t@.len() == members@.len()
            },
            Err(e) => {
                &&& !sel_seq(members@).no_duplicates()
                &&& e matches BuildError::DuplicateSelector { selector } && exists|i: int, j: int|
                    0 <= i < j < members@.len() && members@[i].selector@ == selector@
                        && members@[j].selector@ == selector@
            },
        },
{
    broadcast use vstd::seq_lib::group_to_multiset_ensures;

    let ghost sels = sel_seq(members@);
    let mut table: Vec<Vec<u8>> = Vec::new();
    let mut k: usize = 0;
    while k < members.len()
        invariant
            k <= members@.len(),
            sels == sel_seq(members@),
            sels.len() == members@.len(),
            table@.len() == k,
            sorted_strict(table_view(table@)),
            table_view(table@).to_multiset() == sels.take(k as int).to_multiset(),
        decreases members@.len() - k,
    {
        let sel = clone_bytes(&members[k].selector);
        let ghost tv = table_view(table@);
        let mut pos: usize = 0;
        loop
            invariant
                k < members@.len(),
                sels == sel_seq(members@),
                sels.len() == members@.len(),
                pos <= table@.len(),
                tv == table_view(table@),
                tv.len() == table@.len(),
                sel@ == members@[k as int].selector@,
                forall|m: int| 0 <= m < pos ==> lex_lt(tv[m], sel@),
            ensures
                pos <= table@.len(),
                forall|m: int| 0 <= m < pos ==> lex_lt(tv[m], sel@),
                pos < table@.len() ==> !lex_lt(tv[pos as int], sel@),
            decreases table@.len() - pos,
        {
            if pos >= table.len() {
                break;
            }
            if !lex_lt_bytes(&table[pos], &sel) {
                break;
            }
            pos += 1;
        }
        if pos < table.len() && bytes_eq(&table[pos], &sel) {
            proof {
                // the prefix already holds this selector, so two members share it
                assert(tv[pos as int] == table@[pos as int]@);
                assert(tv.contains(sel@)) by {
                    assert(0 <= pos < tv.len() && tv[pos as int] == sel@);
                }
                vstd::seq_lib::to_multiset_contains(tv, sel@);
                vstd::seq_lib::to_multiset_contains(sels.take(k as int), sel@);
                assert(sels.take(k as int).contains(sel@));
                let j = choose|j: int| 0 <= j < k && sels.take(k as int)[j] == sel@;
                assert(sels[j] == sel@ && sels[k as int] == sel@);
                assert(members@[j].selector@ == sel@ && members@[k as int].selector@ == sel@);
                assert(!sels.no_duplicates());
            }
            return Err(BuildError::DuplicateSelector { selector: sel });
        }
        proof {
            if pos < table@.len() {
                // not below and not equal: the selector comes strictly first
                lemma_lex_trichotomy(tv[pos as int], sel@);
            }
            assert forall|m: int| pos <= m < table@.len() implies lex_lt(sel@, tv[m]) by {
                if m > pos {
                    lemma_lex_transitive(sel@, tv[pos as int], tv[m]);
                }
            }
        }
        table.insert(pos, sel);
        proof {
            assert(table_view(table@) =~= tv.insert(pos as int, members@[k as int].selector@));
            assert(sels.take(k as int + 1) =~= sels.take(k as int).push(sels[k as int]));
            vstd::seq_lib::to_multiset_insert(tv, pos as int, members@[k as int].selector@);
            vstd::seq_lib::to_multiset_build(sels.take(k as int), sels[k as int]);
            assert(table_view(table@).to_multiset() =~= sels.take(k as int + 1).to_multiset());
        }
        k += 1;
    }
    proof {
        assert(sels.take(members@.len() as int) =~= sels);
        // strictly sorted and multiset-equal: the members' selectors are distinct
        let tvf = table_view(table@);
        assert(tvf.no_duplicates()) by {
            assert forall|i: int, j: int|
                0 <= i < tvf.len() && 0 <= j < tvf.len() && i != j implies tvf[i] != tvf[j] by {
                if tvf[i] == tvf[j] {
                    crate::selector::lemma_lex_irreflexive(tvf[i]);
                }
            }
        }
        tvf.lemma_multiset_has_no_duplicates();
        sels.lemma_multiset_has_no_duplicates_conv();
    }
    Ok(table)
}

} // verus!
