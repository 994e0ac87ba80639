use lru_cache_nif::dict::dict_insert;
use lru_cache_nif::digest::{HASH_BASIS, HASH_PRIME};
use lru_cache_nif::host_value::HostValue;
use lru_cache_nif::rank::{rank_bytes, Rank};
use lru_cache_nif::supported_term::SupportedTerm;

#[test]
fn equal_terms_are_equal() {
    let a = SupportedTerm::List(vec![
        SupportedTerm::Integer(-1),
        SupportedTerm::Text("x".to_string()),
        SupportedTerm::Dict(vec![(SupportedTerm::Boolean(true), SupportedTerm::Bytes(vec![0, 255]))]),
    ]);
    let b = SupportedTerm::List(vec![
        SupportedTerm::Integer(-1),
        SupportedTerm::Text("x".to_string()),
        SupportedTerm::Dict(vec![(SupportedTerm::Boolean(true), SupportedTerm::Bytes(vec![0, 255]))]),
    ]);
    assert!(a.equals(&b));
    assert!(a == b);
    assert!(a.equals(&a.clone()));
}

#[test]
fn different_variants_are_never_equal() {
    let terms = vec![
        SupportedTerm::Integer(1),
        SupportedTerm::Unsigned(1),
        SupportedTerm::Float(1),
        SupportedTerm::Boolean(true),
        SupportedTerm::Text("1".to_string()),
        SupportedTerm::Bytes(vec![b'1']),
        SupportedTerm::List(vec![]),
        SupportedTerm::Tuple(vec![]),
        SupportedTerm::Dict(vec![]),
    ];
    for (i, a) in terms.iter().enumerate() {
        for (j, b) in terms.iter().enumerate() {
            assert_eq!(a.equals(b), i == j);
        }
    }
}

#[test]
fn terms_differ_where_a_part_differs() {
    let a = SupportedTerm::Tuple(vec![SupportedTerm::Integer(1), SupportedTerm::Integer(2)]);
    let b = SupportedTerm::Tuple(vec![SupportedTerm::Integer(1), SupportedTerm::Integer(3)]);
    let c = SupportedTerm::Tuple(vec![SupportedTerm::Integer(1)]);
    assert!(!a.equals(&b));
    assert!(!a.equals(&c));
    assert!(!c.equals(&a));
    assert!(!SupportedTerm::Text("a".to_string()).equals(&SupportedTerm::Text("b".to_string())));
    assert!(!SupportedTerm::Bytes(vec![1]).equals(&SupportedTerm::Bytes(vec![1, 2])));
    assert!(!SupportedTerm::Float(0).equals(&SupportedTerm::Float(1 << 63)));
}

#[test]
fn float_is_held_by_its_bits() {
    let nan = SupportedTerm::Float(f64::NAN.to_bits());
    assert!(nan.equals(&SupportedTerm::Float(f64::NAN.to_bits())));
    let zero = SupportedTerm::Float(0.0f64.to_bits());
    let minus_zero = SupportedTerm::Float((-0.0f64).to_bits());
    assert!(!zero.equals(&minus_zero));
    assert_eq!(SupportedTerm::Float(1.5f64.to_bits()), SupportedTerm::Float(0x3FF8000000000000));
}

#[test]
fn supported_values_convert() {
    assert_eq!(SupportedTerm::from(&HostValue::Integer(-7)), Some(SupportedTerm::Integer(-7)));
    assert_eq!(
        SupportedTerm::from(&HostValue::Unsigned(u64::MAX)),
        Some(SupportedTerm::Unsigned(u64::MAX))
    );
    assert_eq!(SupportedTerm::from(&HostValue::Float(42)), Some(SupportedTerm::Float(42)));
    assert_eq!(SupportedTerm::from(&HostValue::Boolean(false)), Some(SupportedTerm::Boolean(false)));
    assert_eq!(
        SupportedTerm::from(&HostValue::Text("héllo".to_string())),
        Some(SupportedTerm::Text("héllo".to_string()))
    );
    assert_eq!(
        SupportedTerm::from(&HostValue::Bytes(vec![0, 159, 146, 150])),
        Some(SupportedTerm::Bytes(vec![0, 159, 146, 150]))
    );
    assert_eq!(
        SupportedTerm::from(&HostValue::List(vec![
            HostValue::Integer(1),
            HostValue::Tuple(vec![HostValue::Boolean(true)]),
        ])),
        Some(SupportedTerm::List(vec![
            SupportedTerm::Integer(1),
            SupportedTerm::Tuple(vec![SupportedTerm::Boolean(true)]),
        ]))
    );
}

#[test]
fn opaque_values_do_not_convert() {
    assert_eq!(SupportedTerm::from(&HostValue::Opaque), None);
    assert_eq!(
        SupportedTerm::from(&HostValue::List(vec![HostValue::Integer(1), HostValue::Opaque])),
        None
    );
    assert_eq!(
        SupportedTerm::from(&HostValue::Tuple(vec![HostValue::List(vec![HostValue::Opaque])])),
        None
    );
    assert_eq!(
        SupportedTerm::from(&HostValue::Dict(vec![(HostValue::Opaque, HostValue::Integer(1))])),
        None
    );
    assert_eq!(
        SupportedTerm::from(&HostValue::Dict(vec![(HostValue::Integer(1), HostValue::Opaque)])),
        None
    );
}

#[test]
fn dict_entries_come_in_the_order_of_their_keys() {
    let host = HostValue::Dict(vec![
        (HostValue::Text("b".to_string()), HostValue::Integer(2)),
        (HostValue::Integer(9), HostValue::Integer(3)),
        (HostValue::Text("a".to_string()), HostValue::Integer(1)),
        (HostValue::Integer(-4), HostValue::Integer(4)),
    ]);
    assert_eq!(
        SupportedTerm::from(&host),
        Some(SupportedTerm::Dict(vec![
            (SupportedTerm::Integer(-4), SupportedTerm::Integer(4)),
            (SupportedTerm::Integer(9), SupportedTerm::Integer(3)),
            (SupportedTerm::Text("a".to_string()), SupportedTerm::Integer(1)),
            (SupportedTerm::Text("b".to_string()), SupportedTerm::Integer(2)),
        ]))
    );
}

#[test]
fn dict_entry_order_is_irrelevant() {
    let forward = HostValue::Dict(vec![
        (HostValue::Integer(1), HostValue::Text("one".to_string())),
        (HostValue::Integer(2), HostValue::Text("two".to_string())),
        (HostValue::Boolean(true), HostValue::List(vec![])),
    ]);
    let backward = HostValue::Dict(vec![
        (HostValue::Boolean(true), HostValue::List(vec![])),
        (HostValue::Integer(2), HostValue::Text("two".to_string())),
        (HostValue::Integer(1), HostValue::Text("one".to_string())),
    ]);
    let a = SupportedTerm::from(&forward).unwrap();
    let b = SupportedTerm::from(&backward).unwrap();
    assert!(a.equals(&b));
    assert_eq!(a, b);
    assert_eq!(a.hash(), b.hash());
}

#[test]
fn later_dict_entry_replaces_earlier_one() {
    let host = HostValue::Dict(vec![
        (HostValue::Integer(1), HostValue::Integer(10)),
        (HostValue::Integer(2), HostValue::Integer(20)),
        (HostValue::Integer(1), HostValue::Integer(11)),
    ]);
    assert_eq!(
        SupportedTerm::from(&host),
        Some(SupportedTerm::Dict(vec![
            (SupportedTerm::Integer(1), SupportedTerm::Integer(11)),
            (SupportedTerm::Integer(2), SupportedTerm::Integer(20)),
        ]))
    );
}

#[test]
fn nested_dicts_are_canonical_too() {
    let inner_a = HostValue::Dict(vec![
        (HostValue::Integer(2), HostValue::Integer(2)),
        (HostValue::Integer(1), HostValue::Integer(1)),
    ]);
    let inner_b = HostValue::Dict(vec![
        (HostValue::Integer(1), HostValue::Integer(1)),
        (HostValue::Integer(2), HostValue::Integer(2)),
    ]);
    let a = SupportedTerm::from(&HostValue::List(vec![inner_a])).unwrap();
    let b = SupportedTerm::from(&HostValue::List(vec![inner_b])).unwrap();
    assert_eq!(a, b);
}

#[test]
fn dict_insert_keeps_keys_in_order() {
    let mut entries = Vec::new();
    dict_insert(&mut entries, SupportedTerm::Integer(5), SupportedTerm::Integer(50));
    dict_insert(&mut entries, SupportedTerm::Integer(1), SupportedTerm::Integer(10));
    dict_insert(&mut entries, SupportedTerm::Integer(9), SupportedTerm::Integer(90));
    dict_insert(&mut entries, SupportedTerm::Integer(3), SupportedTerm::Integer(30));
    dict_insert(&mut entries, SupportedTerm::Integer(5), SupportedTerm::Integer(55));
    assert_eq!(
        entries,
        vec![
            (SupportedTerm::Integer(1), SupportedTerm::Integer(10)),
            (SupportedTerm::Integer(3), SupportedTerm::Integer(30)),
            (SupportedTerm::Integer(5), SupportedTerm::Integer(55)),
            (SupportedTerm::Integer(9), SupportedTerm::Integer(90)),
        ]
    );
}

#[test]
fn rank_orders_by_kind_first() {
    let terms = vec![
        SupportedTerm::Integer(i64::MAX),
        SupportedTerm::Unsigned(0),
        SupportedTerm::Float(0),
        SupportedTerm::Boolean(false),
        SupportedTerm::Text(String::new()),
        SupportedTerm::Bytes(vec![]),
        SupportedTerm::List(vec![]),
        SupportedTerm::Tuple(vec![]),
        SupportedTerm::Dict(vec![]),
    ];
    for (i, a) in terms.iter().enumerate() {
        for (j, b) in terms.iter().enumerate() {
            let expected = if i < j {
                Rank::Before
            } else if i == j {
                Rank::Same
            } else {
                Rank::After
            };
            assert_eq!(a.rank(b), expected);
        }
    }
}

#[test]
fn rank_within_a_kind() {
    let t = |s: &str| SupportedTerm::Text(s.to_string());
    assert_eq!(SupportedTerm::Integer(-1).rank(&SupportedTerm::Integer(0)), Rank::Before);
    assert_eq!(SupportedTerm::Integer(7).rank(&SupportedTerm::Integer(7)), Rank::Same);
    assert_eq!(SupportedTerm::Unsigned(8).rank(&SupportedTerm::Unsigned(7)), Rank::After);
    assert_eq!(SupportedTerm::Float(1).rank(&SupportedTerm::Float(2)), Rank::Before);
    assert_eq!(SupportedTerm::Boolean(false).rank(&SupportedTerm::Boolean(true)), Rank::Before);
    assert_eq!(SupportedTerm::Boolean(true).rank(&SupportedTerm::Boolean(false)), Rank::After);
    assert_eq!(t("abc").rank(&t("abd")), Rank::Before);
    assert_eq!(t("ab").rank(&t("abc")), Rank::Before);
    assert_eq!(t("b").rank(&t("abc")), Rank::After);
    assert_eq!(t("z").rank(&t("é")), Rank::Before);
    assert_eq!(t("").rank(&t("")), Rank::Same);
    assert_eq!(
        SupportedTerm::Bytes(vec![1, 2]).rank(&SupportedTerm::Bytes(vec![1, 2, 0])),
        Rank::Before
    );
    assert_eq!(
        SupportedTerm::List(vec![SupportedTerm::Integer(1), SupportedTerm::Integer(2)])
            .rank(&SupportedTerm::List(vec![SupportedTerm::Integer(1), SupportedTerm::Integer(3)])),
        Rank::Before
    );
    assert_eq!(
        SupportedTerm::Tuple(vec![SupportedTerm::Integer(2)])
            .rank(&SupportedTerm::Tuple(vec![SupportedTerm::Integer(1), SupportedTerm::Integer(3)])),
        Rank::After
    );
    let d = |k: i64, v: i64| {
        SupportedTerm::Dict(vec![(SupportedTerm::Integer(k), SupportedTerm::Integer(v))])
    };
    assert_eq!(d(1, 5).rank(&d(1, 6)), Rank::Before);
    assert_eq!(d(2, 5).rank(&d(1, 6)), Rank::After);
    assert_eq!(d(1, 5).rank(&d(1, 5)), Rank::Same);
}

#[test]
fn rank_bytes_compares_position_by_position() {
    assert_eq!(rank_bytes(&[], &[]), Rank::Same);
    assert_eq!(rank_bytes(&[], &[0]), Rank::Before);
    assert_eq!(rank_bytes(&[0], &[]), Rank::After);
    assert_eq!(rank_bytes(&[1, 2, 3], &[1, 2, 4]), Rank::Before);
    assert_eq!(rank_bytes(&[1, 9], &[1, 2, 4]), Rank::After);
    assert_eq!(rank_bytes(&[255], &[255]), Rank::Same);
}

#[test]
fn rank_is_same_exactly_for_equal_terms() {
    let terms = vec![
        SupportedTerm::Integer(1),
        SupportedTerm::Integer(2),
        SupportedTerm::Text("a".to_string()),
        SupportedTerm::List(vec![SupportedTerm::Integer(1)]),
        SupportedTerm::List(vec![SupportedTerm::Integer(1), SupportedTerm::Integer(1)]),
        SupportedTerm::Dict(vec![(SupportedTerm::Integer(1), SupportedTerm::Integer(1))]),
    ];
    for a in terms.iter() {
        for b in terms.iter() {
            assert_eq!(a.rank(b) == Rank::Same, a.equals(b));
            let flipped = match b.rank(a) {
                Rank::Before => Rank::After,
                Rank::Same => Rank::Same,
                Rank::After => Rank::Before,
            };
            assert_eq!(a.rank(b), flipped);
        }
    }
}

#[test]
fn hash_has_the_documented_values() {
    assert_eq!(HASH_BASIS, 0xcbf29ce484222325);
    assert_eq!(HASH_PRIME, 0x100000001b3);
    assert_eq!(SupportedTerm::Integer(0).hash(), 0x08328807b4eb6fed);
    assert_eq!(SupportedTerm::Integer(-1).hash(), 0xf7cd76f84b148e60);
    assert_eq!(SupportedTerm::Text("a".to_string()).hash(), 0xb6a42118586cf6b5);
    assert_eq!(SupportedTerm::Text("é".to_string()).hash(), 0xb951875e38f4ce8b);
    assert_eq!(SupportedTerm::Bytes(vec![]).hash(), 0x08218a07b4dd0020);
    assert_eq!(
        SupportedTerm::List(vec![SupportedTerm::Integer(1), SupportedTerm::Boolean(true)]).hash(),
        0x2f6918e9436dd60a
    );
    assert_eq!(
        SupportedTerm::Dict(vec![(SupportedTerm::Integer(1), SupportedTerm::Text("x".to_string()))])
            .hash(),
        0x42d9843c99c6694a
    );
}

#[test]
fn equal_terms_have_equal_hashes() {
    let a = SupportedTerm::Tuple(vec![
        SupportedTerm::Text("k".to_string()),
        SupportedTerm::Bytes(vec![1, 2, 3]),
        SupportedTerm::Float(7),
    ]);
    let b = a.clone();
    assert!(a.equals(&b));
    assert_eq!(a.hash(), b.hash());
    assert_ne!(SupportedTerm::Integer(1).hash(), SupportedTerm::Unsigned(1).hash());
    assert_ne!(
        SupportedTerm::List(vec![]).hash(),
        SupportedTerm::Tuple(vec![]).hash()
    );
}

#[test]
fn clone_is_a_structural_copy() {
    let a = SupportedTerm::Dict(vec![(
        SupportedTerm::List(vec![SupportedTerm::Text("x".to_string())]),
        SupportedTerm::Tuple(vec![SupportedTerm::Bytes(vec![9]), SupportedTerm::Unsigned(3)]),
    )]);
    let mut b = a.clone();
    assert_eq!(a, b);
    if let SupportedTerm::Dict(entries) = &mut b {
        entries[0].1 = SupportedTerm::Integer(0);
    }
    assert_ne!(a, b);
}
