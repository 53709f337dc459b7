use totp_manager::totp::{
    clean_secret, code, code_from_digest, code_from_key, decode_secret, describe_decode_error,
    key_from_decode_result, remaining_seconds, six_digit_string, Base32Error, DecodeProblem,
};

#[test]
fn rfc6238_vectors() {
    let key = b"12345678901234567890";
    let cases: [(u64, &str); 6] = [
        (59, "287082"),
        (1111111109, "081804"),
        (1111111111, "050471"),
        (1234567890, "005924"),
        (2000000000, "279037"),
        (20000000000, "353130"),
    ];
    for (t, want) in cases {
        assert_eq!(code_from_key(key, t), want, "t={t}");
    }
}

#[test]
fn base32_roundtrip_and_formatting() {
    assert_eq!(code("GEZDGNBVGY3TQOJQGEZDGNBVGY3TQOJQ", 59).unwrap(), "287082");
    assert_eq!(
        code("gezd gnbv-gy3t qojq gezd gnbv gy3t qojq====", 59).unwrap(),
        "287082"
    );
}

#[test]
fn rejects_bad_secret() {
    assert!(code("", 59).is_err());
    assert!(code("!!!!", 59).is_err());
}

#[test]
fn remaining_seconds_counts_down() {
    assert_eq!(remaining_seconds(0), 30);
    assert_eq!(remaining_seconds(1), 29);
    assert_eq!(remaining_seconds(29), 1);
    assert_eq!(remaining_seconds(30), 30);
}

#[test]
fn rfc4226_dynamic_truncation_example() {
    let digest: [u8; 20] = [
        0x1f, 0x86, 0x98, 0x69, 0x0e, 0x02, 0xca, 0x16, 0x61, 0x85, 0x50, 0xef, 0x7f, 0x19, 0xda,
        0x8e, 0x94, 0x5b, 0x55, 0x5a,
    ];
    assert_eq!(code_from_digest(&digest), "872921");
}

#[test]
fn six_digits_keep_leading_zeros() {
    assert_eq!(six_digit_string(0), "000000");
    assert_eq!(six_digit_string(5924), "005924");
    assert_eq!(six_digit_string(999999), "999999");
}

#[test]
fn cleaning_drops_separators_and_upper_cases() {
    assert_eq!(clean_secret(" ab-c\td=\n"), "ABCD");
    assert_eq!(clean_secret("gezd gnbv"), "GEZDGNBV");
    assert_eq!(clean_secret(" - = "), "");
}

#[test]
fn decoding_gives_the_key_bytes() {
    assert_eq!(
        decode_secret("GEZDGNBVGY3TQOJQGEZDGNBVGY3TQOJQ").unwrap(),
        b"12345678901234567890".to_vec()
    );
    assert_eq!(decode_secret("my======").unwrap(), b"f".to_vec());
}

#[test]
fn empty_secret_message() {
    assert_eq!(code("", 59).unwrap_err(), "密钥为空");
    assert_eq!(code("  -= \t", 59).unwrap_err(), "密钥为空");
}

#[test]
fn invalid_symbol_message() {
    assert_eq!(
        code("!!!!", 59).unwrap_err(),
        "密钥不是合法的 Base32: invalid symbol at 0"
    );
}

#[test]
fn invalid_length_message() {
    assert_eq!(
        code("ABC", 59).unwrap_err(),
        "密钥不是合法的 Base32: invalid length at 2"
    );
    assert_eq!(
        code("a", 59).unwrap_err(),
        "密钥不是合法的 Base32: invalid length at 0"
    );
}

#[test]
fn trailing_bits_message() {
    assert_eq!(
        code("AB", 59).unwrap_err(),
        "密钥不是合法的 Base32: non-zero trailing bits at 1"
    );
}

#[test]
fn decode_error_text_matches_data_encoding() {
    let e = Base32Error { position: 1234, kind: DecodeProblem::Padding };
    assert_eq!(describe_decode_error(&e), "invalid padding length at 1234");
    let r = key_from_decode_result(Err(Base32Error { position: 7, kind: DecodeProblem::Symbol }));
    assert_eq!(r.unwrap_err(), "密钥不是合法的 Base32: invalid symbol at 7");
    let ok = key_from_decode_result(Ok(vec![1, 2, 3]));
    assert_eq!(ok.unwrap(), vec![1, 2, 3]);
}

#[test]
fn code_is_steady_within_a_step() {
    let s = "JBSWY3DPEHPK3PXP";
    let a = code(s, 1_700_000_010).unwrap();
    let b = code(s, 1_700_000_039).unwrap();
    assert_eq!(a, b);
    assert_eq!(a.len(), 6);
    assert!(a.chars().all(|c| c.is_ascii_digit()));
}

#[test]
fn countdown_ends_at_the_next_step() {
    let t: u64 = 1_234_567_890;
    let r = remaining_seconds(t);
    assert_eq!((t + r) % 30, 0);
    assert_eq!((t + r) / 30, t / 30 + 1);
    assert_eq!((t + r - 1) / 30, t / 30);
}

#[test]
fn separators_do_not_change_the_code() {
    let plain = code("JBSWY3DPEHPK3PXP", 1_111_111_111).unwrap();
    assert_eq!(code("JBSW-Y3DP EHPK\t3PXP==", 1_111_111_111).unwrap(), plain);
    assert_eq!(code(" jbswy3dpehpk3pxp ", 1_111_111_111).unwrap(), plain);
}

#[test]
fn ascii_case_does_not_change_the_code() {
    let upper = code("GEZDGNBVGY3TQOJQGEZDGNBVGY3TQOJQ", 1_234_567_890).unwrap();
    assert_eq!(code("gEzDgNbVgY3tQoJqGeZdGnBvGy3TqOjQ", 1_234_567_890).unwrap(), upper);
    assert_eq!(upper, "005924");
}
