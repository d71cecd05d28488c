use aggregate_repository::primitives::ID;

const SAMPLE: u128 = 0xa1a2a3a4_b1b2_c1c2_d1d2_d3d4d5d6d7d8;

#[test]
fn canonical_form_is_hyphenated_lower_case_hex() {
    assert_eq!(
        "a1a2a3a4-b1b2-c1c2-d1d2-d3d4d5d6d7d8",
        ID::from_u128(SAMPLE).to_string()
    );
    assert_eq!(
        "00000000-0000-0000-0000-000000000000",
        ID::from_u128(0).to_string()
    );
    assert_eq!(
        "ffffffff-ffff-ffff-ffff-ffffffffffff",
        ID::from_u128(u128::MAX).to_string()
    );
    assert_eq!(
        "00000000-0000-0000-0000-00000000000a",
        ID::from_u128(10).to_string()
    );
    assert_eq!(
        "90000000-0000-0000-0000-000000000000",
        ID::from_u128(9 << 124).to_string()
    );
}

#[test]
fn identifier_keeps_its_bits() {
    assert_eq!(SAMPLE, ID::from_u128(SAMPLE).as_u128());
    assert_eq!(ID::from_u128(SAMPLE), ID::from_u128(SAMPLE));
    assert_ne!(ID::from_u128(SAMPLE), ID::from_u128(SAMPLE + 1));
}

#[test]
fn distinct_identifiers_have_distinct_canonical_forms() {
    let mut seen = Vec::new();
    for k in 0..128 {
        let text = ID::from_u128(1u128 << k).to_string();
        assert!(!seen.contains(&text));
        seen.push(text);
    }
}

#[test]
fn canonical_form_parses_back() {
    for value in [0, 1, SAMPLE, u128::MAX, 0x0123456789abcdef_fedcba9876543210] {
        let id = ID::from_u128(value);
        assert_eq!(Some(id), ID::parse_canonical(&id.to_string()));
        assert_eq!(Some(id), ID::parse_str(&id.to_string()));
    }
}

#[test]
fn parse_str_reads_every_rendering() {
    let id = Some(ID::from_u128(SAMPLE));
    assert_eq!(id, ID::parse_str("a1a2a3a4-b1b2-c1c2-d1d2-d3d4d5d6d7d8"));
    assert_eq!(id, ID::parse_str("A1A2A3A4-B1B2-C1C2-D1D2-D3D4D5D6D7D8"));
    assert_eq!(id, ID::parse_str("a1a2a3a4b1b2c1c2d1d2d3d4d5d6d7d8"));
    assert_eq!(id, ID::parse_str("{a1a2a3a4-b1b2-c1c2-d1d2-d3d4d5d6d7d8}"));
    assert_eq!(
        id,
        ID::parse_str("urn:uuid:a1a2a3a4-b1b2-c1c2-d1d2-d3d4d5d6d7d8")
    );
}

#[test]
fn parse_str_refuses_what_is_no_identifier() {
    assert_eq!(None, ID::parse_str(""));
    assert_eq!(None, ID::parse_str("Sean"));
    assert_eq!(None, ID::parse_str("a1a2a3a4-b1b2-c1c2-d1d2-d3d4d5d6d7d"));
    assert_eq!(None, ID::parse_str("a1a2a3a4-b1b2-c1c2-d1d2-d3d4d5d6d7dg"));
    assert_eq!(None, ID::parse_str("a1a2a3a4b-1b2-c1c2-d1d2-d3d4d5d6d7d8"));
}

#[test]
fn parse_canonical_reads_the_canonical_form_only() {
    let id = ID::from_u128(SAMPLE);
    assert_eq!(
        Some(id),
        ID::parse_canonical("a1a2a3a4-b1b2-c1c2-d1d2-d3d4d5d6d7d8")
    );
    assert_eq!(
        None,
        ID::parse_canonical("A1A2A3A4-B1B2-C1C2-D1D2-D3D4D5D6D7D8")
    );
    assert_eq!(None, ID::parse_canonical("a1a2a3a4b1b2c1c2d1d2d3d4d5d6d7d8"));
    assert_eq!(
        None,
        ID::parse_canonical("{a1a2a3a4-b1b2-c1c2-d1d2-d3d4d5d6d7d8}")
    );
    assert_eq!(
        None,
        ID::parse_canonical("urn:uuid:a1a2a3a4-b1b2-c1c2-d1d2-d3d4d5d6d7d8")
    );
    assert_eq!(None, ID::parse_canonical("not an identifier"));
}

#[test]
fn canonical_only_keeps_what_renders_as_the_text() {
    let id = ID::from_u128(SAMPLE);
    assert_eq!(
        Some(id),
        ID::canonical_only("a1a2a3a4-b1b2-c1c2-d1d2-d3d4d5d6d7d8", Some(id))
    );
    assert_eq!(
        None,
        ID::canonical_only("a1a2a3a4b1b2c1c2d1d2d3d4d5d6d7d8", Some(id))
    );
    assert_eq!(
        None,
        ID::canonical_only("a1a2a3a4-b1b2-c1c2-d1d2-d3d4d5d6d7d8", None)
    );
}

#[test]
fn random_identifier_has_version_and_variant() {
    for _ in 0..64 {
        let value = ID::new_v4().as_u128();
        assert_eq!(4, (value >> 76) & 0xf);
        assert_eq!(2, (value >> 62) & 0x3);
        let text = ID::from_u128(value).to_string();
        assert_eq!(Some('4'), text.chars().nth(14));
        assert!(matches!(text.chars().nth(19), Some('8' | '9' | 'a' | 'b')));
    }
}

#[test]
fn random_identifiers_differ() {
    assert_ne!(ID::new_v4(), ID::new_v4());
}
