use turn_tracker::domain::ids::{CODE_ALPHABET, CODE_LEN, PlayerId, RoomCode, generate_token, hex_lower};
use turn_tracker::domain::player::{ConnEpoch, MAX_NAME_LEN, NameError, Player, validate_name};
use turn_tracker::domain::ids::code_from_indices;

#[test]
fn test_player_id_equality_compares_inner_string() {
    assert_eq!(PlayerId("a".into()), PlayerId("a".into()));
    assert_ne!(PlayerId("a".into()), PlayerId("b".into()));
}

#[test]
fn test_generate_code_has_correct_length() {
    assert_eq!(RoomCode::generate().0.len(), CODE_LEN);
}

#[test]
fn test_generate_code_uses_only_unambiguous_alphabet() {
    for _ in 0..1000 {
        let code = RoomCode::generate();
        for ch in code.0.bytes() {
            assert!(
                CODE_ALPHABET.as_bytes().contains(&ch),
                "char {} not in alphabet",
                ch as char
            );
        }
    }
}

#[test]
fn test_generate_code_excludes_ambiguous_chars() {
    for _ in 0..1000 {
        let code = RoomCode::generate();
        for bad in ['0', 'O', '1', 'I', 'L'] {
            assert!(!code.0.contains(bad), "code {} contains {}", code.0, bad);
        }
    }
}

#[test]
fn test_generate_token_is_64_hex_chars() {
    let t = generate_token();
    assert_eq!(t.len(), 64);
    assert!(t.bytes().all(|b| b.is_ascii_hexdigit()));
}

#[test]
fn test_generate_token_is_unique_across_calls() {
    let a = generate_token();
    let b = generate_token();
    assert_ne!(a, b);
}

#[test]
fn hex_lower_encodes_each_byte_as_two_lower_case_digits() {
    assert_eq!(hex_lower(&[0x00, 0x0f, 0xa5, 0xff]), "000fa5ff");
    assert_eq!(hex_lower(&[]), "");
}

#[test]
fn generated_code_is_in_the_alphabet_and_never_lower_case() {
    let code = RoomCode::generate();
    assert!(code.0.chars().all(|c| c.is_ascii_uppercase() || c.is_ascii_digit()));
    assert_eq!(CODE_ALPHABET.len(), 31);
}

#[test]
fn test_player_new_defaults_connected_true_skip_false() {
    let p = Player::new(PlayerId("p1".into()), "Alice".into(), "tok".into(), true);
    assert!(p.connected);
    assert!(!p.skip_next);
    assert!(p.is_host);
    assert_eq!(p.name, "Alice");
    assert_eq!(
        p.conn_epoch,
        ConnEpoch::none(),
        "a player owns no connection until one attaches"
    );
}

#[test]
fn test_validate_name_trims_and_accepts() {
    assert_eq!(validate_name("  Alice  ").unwrap(), "Alice");
}

#[test]
fn test_validate_name_rejects_empty_and_whitespace_only() {
    assert_eq!(validate_name(""), Err(NameError::Empty));
    assert_eq!(validate_name("   "), Err(NameError::Empty));
}

#[test]
fn test_validate_name_accepts_exactly_max_len() {
    let name = "a".repeat(MAX_NAME_LEN);
    assert_eq!(validate_name(&name).unwrap(), name);
}

#[test]
fn test_validate_name_rejects_one_over_max_len() {
    let name = "a".repeat(MAX_NAME_LEN + 1);
    assert_eq!(validate_name(&name), Err(NameError::TooLong));
}

#[test]
fn test_validate_name_counts_chars_not_bytes() {
    // 40 multi-byte chars: accepted (char count, not byte length).
    let name = "é".repeat(MAX_NAME_LEN);
    assert_eq!(validate_name(&name).unwrap(), name);
    let too_long = "é".repeat(MAX_NAME_LEN + 1);
    assert_eq!(validate_name(&too_long), Err(NameError::TooLong));
}

#[test]
fn validate_name_trims_unicode_whitespace_and_the_result_is_a_fixed_point() {
    let once = validate_name("\u{3000}\tBob\u{a0}\n").unwrap();
    assert_eq!(once, "Bob");
    assert_eq!(validate_name(&once).unwrap(), once);
    // Length is measured after trimming.
    let padded = format!("   {}   ", "b".repeat(MAX_NAME_LEN));
    assert_eq!(validate_name(&padded).unwrap(), "b".repeat(MAX_NAME_LEN));
}

#[test]
fn a_code_is_spelled_from_alphabet_indices() {
    assert_eq!(code_from_indices(&[0, 1, 2, 28, 29, 30]).0, "ABC789");
    assert_eq!(code_from_indices(&[8, 8, 8, 8, 8, 8]).0, "JJJJJJ");
}

#[test]
fn every_unicode_white_space_character_is_trimmed() {
    for c in ['\u{9}', '\u{a}', '\u{b}', '\u{c}', '\u{d}', ' ', '\u{85}', '\u{a0}', '\u{1680}', '\u{2000}',
        '\u{200a}', '\u{2028}', '\u{2029}', '\u{202f}', '\u{205f}', '\u{3000}'] {
        assert_eq!(validate_name(&format!("{c}Ann{c}")).unwrap(), "Ann");
    }
    // Zero-width space is not White_Space.
    assert_eq!(validate_name("\u{200b}Ann").unwrap(), "\u{200b}Ann");
}
