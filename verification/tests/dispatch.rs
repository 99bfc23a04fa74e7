use sol_interface::contract::{compile_contract, ContractGroups};
use sol_interface::errors::{BuildError, DispatchError};
use sol_interface::group::{derive_group_name, InterfaceGroup};
use sol_interface::member::{Kind, MemberDescriptor};
use sol_interface::selector::{bytes_eq, lex_lt_bytes};
use sol_interface::value::InterfaceValue;

fn member(kind: Kind, id: &str, ty: &str, selector: Vec<u8>, min_len: usize) -> MemberDescriptor {
    MemberDescriptor {
        kind,
        variant_id: id.to_string(),
        payload_type_id: ty.to_string(),
        selector,
        min_payload_len: min_len,
    }
}

fn call(id: &str, selector: [u8; 4], min_len: usize) -> MemberDescriptor {
    member(Kind::Call, id, id, selector.to_vec(), min_len)
}

fn token_calls_group() -> InterfaceGroup {
    let members = vec![
        call("transfer", [0xa9, 0x05, 0x9c, 0xbb], 64),
        call("approve", [0x09, 0x5e, 0xa7, 0xb3], 64),
    ];
    InterfaceGroup::compile(&"Token".to_string(), Kind::Call, members)
        .unwrap()
        .unwrap()
}

#[test]
fn token_calls_scenario() {
    let g = token_calls_group();
    assert_eq!(g.name().as_str(), "TokenCalls");
    assert_eq!(g.min_data_length(), 64);
    assert_eq!(g.count(), 2);
    // sorted ascending: approve's selector comes first
    assert_eq!(g.selectors().len(), 2);
    assert_eq!(g.selectors()[0], vec![0x09, 0x5e, 0xa7, 0xb3]);
    assert_eq!(g.selectors()[1], vec![0xa9, 0x05, 0x9c, 0xbb]);
}

#[test]
fn token_calls_decode_matches_transfer() {
    let g = token_calls_group();
    let data = vec![0u8; 64];
    let v = g
        .decode_raw(&vec![0xa9, 0x05, 0x9c, 0xbb], &data, true)
        .unwrap();
    // transfer was declared first, so it is variant 0
    assert_eq!(v.variant, 0);
    assert!(v.is_variant(0));
    assert_eq!(v.payload, data);
    assert_eq!(g.selector(&v), vec![0xa9, 0x05, 0x9c, 0xbb]);
}

#[test]
fn token_calls_unknown_selector_fails() {
    let g = token_calls_group();
    let data = vec![0u8; 64];
    match g.decode_raw(&vec![0xde, 0xad, 0xbe, 0xef], &data, true) {
        Err(DispatchError::UnknownSelector { group, selector }) => {
            assert_eq!(group.as_str(), "TokenCalls");
            assert_eq!(selector, vec![0xde, 0xad, 0xbe, 0xef]);
        }
        _ => panic!("expected the unknown-selector rejection"),
    }
    match g.type_check(&vec![0xde, 0xad, 0xbe, 0xef]) {
        Err(DispatchError::UnknownSelector { group, selector }) => {
            assert_eq!(group.as_str(), "TokenCalls");
            assert_eq!(selector, vec![0xde, 0xad, 0xbe, 0xef]);
        }
        _ => panic!("expected the unknown-selector rejection"),
    }
}

#[test]
fn type_check_accepts_every_member() {
    let g = token_calls_group();
    assert!(g.type_check(&vec![0xa9, 0x05, 0x9c, 0xbb]).is_ok());
    assert!(g.type_check(&vec![0x09, 0x5e, 0xa7, 0xb3]).is_ok());
}

#[test]
fn selector_at_in_and_out_of_range() {
    let g = token_calls_group();
    assert_eq!(g.selector_at(0), Some(vec![0x09, 0x5e, 0xa7, 0xb3]));
    assert_eq!(g.selector_at(1), Some(vec![0xa9, 0x05, 0x9c, 0xbb]));
    assert_eq!(g.selector_at(2), None);
    assert_eq!(g.selector_at(100), None);
}

#[test]
fn selector_table_sorted_and_permuted() {
    let members = vec![
        call("c", [9, 9, 9, 9], 32),
        call("a", [0, 0, 0, 1], 96),
        call("b", [4, 4, 4, 4], 64),
    ];
    let g = InterfaceGroup::compile(&"Sort".to_string(), Kind::Call, members)
        .unwrap()
        .unwrap();
    let table = g.selectors();
    assert_eq!(table.len(), 3);
    for w in 0..table.len() - 1 {
        assert!(lex_lt_bytes(&table[w], &table[w + 1]));
    }
    // a permutation of the members' selectors
    for sel in [[9u8, 9, 9, 9], [0, 0, 0, 1], [4, 4, 4, 4]] {
        assert!(table.iter().any(|t| bytes_eq(t, &sel.to_vec())));
    }
}

#[test]
fn round_trip_every_member() {
    let g = token_calls_group();
    for i in 0..g.count() {
        let sample = vec![i as u8; 64];
        let v = InterfaceValue {
            variant: i,
            payload: sample.clone(),
        };
        let mut encoded: Vec<u8> = Vec::new();
        g.encode_raw(&v, &mut encoded);
        assert_eq!(encoded, sample);
        assert_eq!(g.encoded_size(&v), 64);
        let sel = g.selector(&v);
        let back = g.decode_raw(&sel, &encoded, true).unwrap();
        assert_eq!(back.variant, i);
        assert_eq!(back.payload, sample);
        assert_eq!(g.selector(&back), sel);
    }
}

#[test]
fn payload_too_short_is_rejected() {
    let g = token_calls_group();
    let short = vec![0u8; 63];
    match g.decode_raw(&vec![0xa9, 0x05, 0x9c, 0xbb], &short, false) {
        Err(DispatchError::PayloadTooShort { needed, got }) => {
            assert_eq!(needed, 64);
            assert_eq!(got, 63);
        }
        _ => panic!("expected the too-short rejection"),
    }
}

#[test]
fn duplicate_selector_rejected_eagerly() {
    let members = vec![
        call("first", [1, 2, 3, 4], 0),
        call("second", [1, 2, 3, 4], 32),
    ];
    match InterfaceGroup::compile(&"Dup".to_string(), Kind::Call, members) {
        Err(BuildError::DuplicateSelector { selector }) => {
            assert_eq!(selector, vec![1, 2, 3, 4]);
        }
        _ => panic!("expected the duplicate-selector rejection"),
    }
}

#[test]
fn zero_or_one_member_builds_no_group() {
    let none = InterfaceGroup::compile(&"Empty".to_string(), Kind::Call, Vec::new()).unwrap();
    assert!(none.is_none());
    let one = InterfaceGroup::compile(
        &"One".to_string(),
        Kind::Call,
        vec![call("only", [1, 2, 3, 4], 0)],
    )
    .unwrap();
    assert!(one.is_none());
}

#[test]
fn min_data_length_is_the_least_member_minimum() {
    let members = vec![
        call("big", [1, 0, 0, 0], 160),
        call("small", [2, 0, 0, 0], 32),
        call("middle", [3, 0, 0, 0], 96),
    ];
    let g = InterfaceGroup::compile(&"Min".to_string(), Kind::Call, members)
        .unwrap()
        .unwrap();
    assert_eq!(g.min_data_length(), 32);
}

#[test]
fn changing_the_largest_member_keeps_the_minimum() {
    let before = vec![
        call("big", [1, 0, 0, 0], 160),
        call("small", [2, 0, 0, 0], 32),
    ];
    let after = vec![
        call("big", [1, 0, 0, 0], 640),
        call("small", [2, 0, 0, 0], 32),
    ];
    let g1 = InterfaceGroup::compile(&"Keep".to_string(), Kind::Call, before)
        .unwrap()
        .unwrap();
    let g2 = InterfaceGroup::compile(&"Keep".to_string(), Kind::Call, after)
        .unwrap()
        .unwrap();
    assert_eq!(g1.min_data_length(), g2.min_data_length());
}

#[test]
fn accessors_are_exhaustive() {
    let v = InterfaceValue {
        variant: 1,
        payload: vec![7, 8, 9],
    };
    assert!(!v.is_variant(0));
    assert!(v.is_variant(1));
    assert!(!v.is_variant(2));
    assert!(v.as_variant(0).is_none());
    assert_eq!(v.as_variant(1), Some(&vec![7, 8, 9]));
    assert!(v.as_variant(2).is_none());
}

#[test]
fn mutable_accessor_edits_only_its_variant() {
    let mut v = InterfaceValue {
        variant: 1,
        payload: vec![7, 8, 9],
    };
    assert!(v.as_variant_mut(0).is_none());
    assert_eq!(v.payload, vec![7, 8, 9]);
    if let Some(p) = v.as_variant_mut(1) {
        p.push(10);
    } else {
        panic!("the matching variant must be extractable");
    }
    assert_eq!(v.payload, vec![7, 8, 9, 10]);
}

#[test]
fn consuming_accessor_returns_value_on_mismatch() {
    let v = InterfaceValue {
        variant: 1,
        payload: vec![5, 6],
    };
    // a mismatch hands the original value back for another attempt
    let v = match v.try_into_variant(0) {
        Err(original) => original,
        Ok(_) => panic!("variant 0 is not active"),
    };
    assert_eq!(v.variant, 1);
    assert_eq!(v.payload, vec![5, 6]);
    match v.try_into_variant(1) {
        Ok(payload) => assert_eq!(payload, vec![5, 6]),
        Err(_) => panic!("variant 1 is active"),
    }
}

#[test]
fn from_payload_round_trips_through_the_union() {
    let v = InterfaceValue::from_payload(3, vec![1, 2]);
    assert_eq!(v.variant, 3);
    match v.try_into_variant(3) {
        Ok(payload) => assert_eq!(payload, vec![1, 2]),
        Err(_) => panic!("variant 3 is active"),
    }
}

#[test]
fn contract_compilation_partitions_by_kind() {
    let name = "Token".to_string();
    let defs = vec![
        call("transfer", [0xa9, 0x05, 0x9c, 0xbb], 64),
        member(Kind::Error, "NotOwner", "NotOwner", vec![9, 9, 9, 9], 0),
        call("approve", [0x09, 0x5e, 0xa7, 0xb3], 64),
        member(Kind::Event, "Sent", "Sent", vec![3u8; 32], 32),
        member(Kind::Error, "Overdrawn", "Overdrawn", vec![8, 8, 8, 8], 32),
        member(Kind::Event, "Received", "Received", vec![2u8; 32], 64),
    ];
    let ContractGroups {
        calls,
        errors,
        events,
    } = compile_contract(&name, defs).unwrap();
    let calls = calls.unwrap();
    assert_eq!(calls.name().as_str(), "TokenCalls");
    assert_eq!(calls.count(), 2);
    let errors = errors.unwrap();
    assert_eq!(errors.name().as_str(), "TokenErrors");
    assert_eq!(errors.count(), 2);
    assert_eq!(errors.min_data_length(), 0);
    let events = events.unwrap();
    assert_eq!(events.name().as_str(), "TokenEvents");
    assert_eq!(events.count(), 2);
    // event selectors are full 32-byte topics, sorted ascending
    assert_eq!(events.selectors()[0], vec![2u8; 32]);
    assert_eq!(events.selectors()[1], vec![3u8; 32]);
}

#[test]
fn contract_compilation_skips_singleton_kinds() {
    let defs = vec![
        call("a", [1, 0, 0, 0], 0),
        call("b", [2, 0, 0, 0], 0),
        member(Kind::Error, "Only", "Only", vec![9, 9, 9, 9], 0),
    ];
    let groups = compile_contract(&"Solo".to_string(), defs).unwrap();
    assert!(groups.calls.is_some());
    assert!(groups.errors.is_none());
    assert!(groups.events.is_none());
}

#[test]
fn contract_compilation_fails_atomically_on_duplicates() {
    let defs = vec![
        call("a", [1, 0, 0, 0], 0),
        call("b", [2, 0, 0, 0], 0),
        member(Kind::Error, "X", "X", vec![5, 5, 5, 5], 0),
        member(Kind::Error, "Y", "Y", vec![5, 5, 5, 5], 0),
    ];
    match compile_contract(&"Atomic".to_string(), defs) {
        Err(BuildError::DuplicateSelector { selector }) => {
            assert_eq!(selector, vec![5, 5, 5, 5]);
        }
        _ => panic!("expected the duplicate-selector rejection"),
    }
}

#[test]
fn overloaded_calls_use_distinct_payload_type_names() {
    let members = vec![
        member(Kind::Call, "transfer_0", "transfer_0Call", vec![1, 2, 3, 4], 32),
        member(Kind::Call, "transfer_1", "transfer_1Call", vec![5, 6, 7, 8], 64),
    ];
    let g = InterfaceGroup::compile(&"Over".to_string(), Kind::Call, members)
        .unwrap()
        .unwrap();
    let ids = g.payload_type_ids();
    assert_eq!(ids, vec!["transfer_0Call".to_string(), "transfer_1Call".to_string()]);
}

#[test]
fn group_names_follow_the_kind_suffix() {
    let name = "Vault".to_string();
    assert_eq!(derive_group_name(&name, Kind::Call).as_str(), "VaultCalls");
    assert_eq!(derive_group_name(&name, Kind::Error).as_str(), "VaultErrors");
    assert_eq!(derive_group_name(&name, Kind::Event).as_str(), "VaultEvents");
}

#[test]
fn selector_widths_by_kind() {
    assert_eq!(Kind::Call.width(), 4);
    assert_eq!(Kind::Error.width(), 4);
    assert_eq!(Kind::Event.width(), 32);
}

#[test]
fn byte_order_helpers_compare_lexicographically() {
    assert!(lex_lt_bytes(&vec![0, 1, 2], &vec![0, 1, 3]));
    assert!(!lex_lt_bytes(&vec![0, 1, 3], &vec![0, 1, 2]));
    assert!(lex_lt_bytes(&vec![0, 1], &vec![0, 1, 0]));
    assert!(!lex_lt_bytes(&vec![0, 1], &vec![0, 1]));
    assert!(bytes_eq(&vec![0, 1], &vec![0, 1]));
    assert!(!bytes_eq(&vec![0, 1], &vec![0, 2]));
    assert!(!bytes_eq(&vec![0, 1], &vec![0, 1, 1]));
}

#[test]
fn decode_respects_validate_passthrough() {
    // the byte-string payload codec adds no semantic validation, so both
    // validate modes accept the same data
    let g = token_calls_group();
    let data = vec![1u8; 64];
    let sel = vec![0x09, 0x5e, 0xa7, 0xb3];
    let a = g.decode_raw(&sel, &data, true).unwrap();
    let b = g.decode_raw(&sel, &data, false).unwrap();
    assert_eq!(a.variant, b.variant);
    assert_eq!(a.payload, b.payload);
    assert_eq!(a.variant, 1);
}
