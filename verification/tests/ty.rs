use kiki::ty::Id;

#[test]
fn id_try_from_wrong_length_errors() {
    let err = Id::try_from(vec![0u8; 19]).expect_err("expected length error");
    assert!(err.to_string().contains("19 bytes"), "got: {}", err.to_string());
    assert_eq!(err.to_string(), "expected 20-byte id, got 19 bytes");
}

#[test]
fn id_try_from_correct_length_succeeds() {
    let id: Id = vec![0xab; 20].try_into().expect("20 bytes should fit");
    assert_eq!(id.0[0], 0xab);
}

#[test]
fn id_try_from_rejects_wrong_length() {
    for len in 0..128usize {
        if len != 20 {
            assert!(Id::try_from(vec![0u8; len]).is_err());
        }
    }
}

#[test]
fn id_try_from_accepts_20_bytes() {
    for seed in [0u8, 1, 127, 255] {
        let mut bytes = [seed; 20];
        bytes[7] = seed.wrapping_add(9);
        let id = Id::try_from(bytes.to_vec()).unwrap();
        assert_eq!(id.0, bytes);
    }
}

#[test]
fn id_display_is_40_hex_chars() {
    for seed in [0u8, 0x0f, 0xf0, 255] {
        let s = Id([seed; 20]).to_string();
        assert_eq!(s.len(), 40);
        assert!(s.chars().all(|c| c.is_ascii_hexdigit()));
    }
    let mut bytes = [0u8; 20];
    bytes[0] = 0x4b;
    bytes[19] = 0x0a;
    assert_eq!(Id(bytes).to_string(), format!("4b{}0a", "0".repeat(36)));
}

#[test]
fn id_vec_u8_roundtrip() {
    for seed in [0u8, 42, 255] {
        let id = Id([seed; 20]);
        let v: Vec<u8> = id.into();
        let id2 = Id::try_from(v).unwrap();
        assert_eq!(id, id2);
    }
}
