use hmac::digest::InvalidLength;
use totp_auth::error::ContractError;
use totp_auth::totp::{
    code_from_tag, counter_message, current_step, decimal_code, generate_totp_code,
    truncate_digest, verify_totp, verify_with_secret,
};

const SECRET: &str = "JBSWY3DPEHPK3PXP";
const SECRET_BYTES: &[u8] = b"Hello!\xde\xad\xbe\xef";
const RFC_KEY: &[u8] = b"12345678901234567890";
const RFC_KEY_BASE32: &str = "GEZDGNBVGY3TQOJQGEZDGNBVGY3TQOJQ";

fn hex(text: &str) -> Vec<u8> {
    let digits: Vec<u8> = text.bytes().map(|b| (b as char).to_digit(16).unwrap() as u8).collect();
    digits.chunks(2).map(|pair| pair[0] * 16 + pair[1]).collect()
}

#[test]
fn rfc4226_codes_for_counters_0_to_9() {
    let expected = [
        "755224", "287082", "359152", "969429", "338314", "254676", "287922", "162583", "399871",
        "520489",
    ];
    for (counter, code) in expected.iter().enumerate() {
        assert_eq!(generate_totp_code(RFC_KEY, counter as u64).unwrap(), *code);
    }
}

#[test]
fn hello_secret_at_counter_zero() {
    assert_eq!(generate_totp_code(SECRET_BYTES, 0).unwrap(), "282760");
    assert_eq!(verify_totp(SECRET, "282760", 0), Ok(true));
    assert_eq!(verify_totp(SECRET, "282760", 29), Ok(true));
}

#[test]
fn generation_is_deterministic() {
    let first = generate_totp_code(SECRET_BYTES, 41152263).unwrap();
    let second = generate_totp_code(SECRET_BYTES, 41152263).unwrap();
    assert_eq!(first, second);
    assert_eq!(first, "742275");
}

#[test]
fn codes_keep_leading_zeros() {
    assert_eq!(generate_totp_code(SECRET_BYTES, 134).unwrap(), "008210");
    assert_eq!(generate_totp_code(SECRET_BYTES, 37037036).unwrap(), "071271");
}

#[test]
fn codes_are_six_ascii_digits() {
    for counter in [0u64, 1, 2, 3, 134, 818667, u64::MAX / 30, u64::MAX] {
        let code = generate_totp_code(SECRET_BYTES, counter).unwrap();
        assert_eq!(code.len(), 6);
        assert!(code.bytes().all(|b| b.is_ascii_digit()));
    }
}

#[test]
fn generation_at_the_largest_counter() {
    assert_eq!(generate_totp_code(SECRET_BYTES, 614891469123651720).unwrap(), "602671");
    assert_eq!(generate_totp_code(SECRET_BYTES, 614891469123651721).unwrap(), "776979");
}

#[test]
fn decimal_code_pads_with_zeros() {
    assert_eq!(decimal_code(42), "000042");
    assert_eq!(decimal_code(0), "000000");
    assert_eq!(decimal_code(999_999), "999999");
    assert_eq!(decimal_code(123_456), "123456");
}

#[test]
fn decimal_code_reduces_modulo_one_million() {
    assert_eq!(decimal_code(1_000_000), "000000");
    assert_eq!(decimal_code(1_284_755_224), "755224");
    assert_eq!(decimal_code(82_162_583), "162583");
    assert_eq!(decimal_code(u32::MAX), "967295");
}

#[test]
fn truncation_of_the_rfc4226_digests() {
    let digest = hex("cc93cf18508d94934c64b65d8ba7667fb7cde4b0");
    assert_eq!(truncate_digest(&digest), Ok(1284755224));
    let digest = hex("a4fb960c0bc06e1eabb804e5b397cdc4b45596fa");
    assert_eq!(truncate_digest(&digest), Ok(82162583));
    let digest = hex("1f8698690e02ca16618550ef7f19da8e945b555a");
    assert_eq!(truncate_digest(&digest), Ok(0x50ef7f19));
}

#[test]
fn truncation_masks_the_top_bit() {
    let mut digest = vec![0u8; 20];
    digest[0] = 0xff;
    digest[1] = 0xff;
    digest[2] = 0xff;
    digest[3] = 0xff;
    assert_eq!(truncate_digest(&digest), Ok(0x7fff_ffff));
}

#[test]
fn truncation_at_the_last_offset() {
    let mut digest = vec![0u8; 20];
    digest[19] = 0xff;
    digest[15] = 0x81;
    digest[16] = 0x02;
    digest[17] = 0x03;
    digest[18] = 0x04;
    assert_eq!(truncate_digest(&digest), Ok(0x0102_0304));
}

#[test]
fn truncation_refuses_a_short_digest() {
    assert_eq!(truncate_digest(&[]), Err(ContractError::HmacLength));
    assert_eq!(truncate_digest(&[0u8; 19]), Err(ContractError::HmacLength));
    assert_eq!(truncate_digest(&[0u8; 20]), Ok(0));
}

#[test]
fn truncation_of_a_longer_digest_reads_byte_19() {
    let mut digest = vec![0u8; 32];
    digest[19] = 0x05;
    digest[31] = 0x0f;
    digest[5] = 0x01;
    assert_eq!(truncate_digest(&digest), Ok(0x0100_0000));
}

#[test]
fn code_from_a_digest() {
    let digest = hex("cc93cf18508d94934c64b65d8ba7667fb7cde4b0");
    assert_eq!(code_from_tag(Ok(digest)).unwrap(), "755224");
}

#[test]
fn code_from_a_refused_key() {
    assert_eq!(code_from_tag(Err(InvalidLength)), Err(ContractError::HmacKey));
}

#[test]
fn code_from_a_short_digest() {
    assert_eq!(code_from_tag(Ok(vec![1, 2, 3])), Err(ContractError::HmacLength));
}

#[test]
fn counter_message_is_big_endian() {
    assert_eq!(counter_message(0), vec![0u8; 8]);
    assert_eq!(counter_message(1), vec![0, 0, 0, 0, 0, 0, 0, 1]);
    assert_eq!(
        counter_message(0x0102_0304_0506_0708),
        vec![1, 2, 3, 4, 5, 6, 7, 8]
    );
    assert_eq!(counter_message(u64::MAX), vec![0xffu8; 8]);
    assert_eq!(counter_message(41152263), 41152263u64.to_be_bytes().to_vec());
}

#[test]
fn current_step_is_time_over_thirty() {
    assert_eq!(current_step(0), 0);
    assert_eq!(current_step(29), 0);
    assert_eq!(current_step(30), 1);
    assert_eq!(current_step(59), 1);
    assert_eq!(current_step(1234567890), 41152263);
    assert_eq!(current_step(u64::MAX), 614891469123651720);
}

#[test]
fn empty_key_is_a_key() {
    let code = generate_totp_code(&[], 0).unwrap();
    assert_eq!(code.len(), 6);
    assert_eq!(verify_with_secret(&[], &code, 0), Ok(true));
}

#[test]
fn long_key_is_a_key() {
    let key = vec![0xabu8; 200];
    let code = generate_totp_code(&key, 7).unwrap();
    assert_eq!(verify_with_secret(&key, &code, 7 * 30), Ok(true));
}

#[test]
fn current_code_is_accepted() {
    for now in [0u64, 1, 29, 30, 31, 1234567890, 20000000000, u64::MAX] {
        let code = generate_totp_code(SECRET_BYTES, now / 30).unwrap();
        assert_eq!(verify_totp(SECRET, &code, now), Ok(true));
        assert_eq!(verify_with_secret(SECRET_BYTES, &code, now), Ok(true));
    }
}

#[test]
fn window_boundary() {
    let step: u64 = 41152263;
    let now = step * 30 + 7;
    let before = generate_totp_code(SECRET_BYTES, step - 1).unwrap();
    let after = generate_totp_code(SECRET_BYTES, step + 1).unwrap();
    let two_before = generate_totp_code(SECRET_BYTES, step - 2).unwrap();
    let two_after = generate_totp_code(SECRET_BYTES, step + 2).unwrap();
    assert_eq!(verify_totp(SECRET, &before, now), Ok(true));
    assert_eq!(verify_totp(SECRET, &after, now), Ok(true));
    assert_eq!(verify_totp(SECRET, &two_before, now), Ok(false));
    assert_eq!(verify_totp(SECRET, &two_after, now), Ok(false));
}

#[test]
fn window_boundary_with_rfc_key() {
    // Steps 2, 3 and 4 are in the window at step 3.
    let now = 3 * 30;
    assert_eq!(verify_totp(RFC_KEY_BASE32, "287082", now), Ok(false));
    assert_eq!(verify_totp(RFC_KEY_BASE32, "359152", now), Ok(true));
    assert_eq!(verify_totp(RFC_KEY_BASE32, "969429", now), Ok(true));
    assert_eq!(verify_totp(RFC_KEY_BASE32, "338314", now), Ok(true));
    assert_eq!(verify_totp(RFC_KEY_BASE32, "254676", now), Ok(false));
}

#[test]
fn first_step_has_no_step_before() {
    for now in [0u64, 15, 29] {
        assert_eq!(verify_totp(RFC_KEY_BASE32, "755224", now), Ok(true));
        assert_eq!(verify_totp(RFC_KEY_BASE32, "287082", now), Ok(true));
        assert_eq!(verify_totp(RFC_KEY_BASE32, "359152", now), Ok(false));
        assert_eq!(verify_totp(RFC_KEY_BASE32, "520489", now), Ok(false));
    }
}

#[test]
fn last_step_checks_the_step_after() {
    let now = u64::MAX;
    assert_eq!(verify_totp(SECRET, "082136", now), Ok(true));
    assert_eq!(verify_totp(SECRET, "602671", now), Ok(true));
    assert_eq!(verify_totp(SECRET, "776979", now), Ok(true));
    assert_eq!(verify_totp(SECRET, "000000", now), Ok(false));
}

#[test]
fn a_code_shared_with_a_step_in_the_window_is_accepted() {
    // Steps 818665 and 818667 have the same code under this secret.
    let two_before = generate_totp_code(SECRET_BYTES, 818665).unwrap();
    let current = generate_totp_code(SECRET_BYTES, 818667).unwrap();
    assert_eq!(two_before, "475244");
    assert_eq!(current, "475244");
    assert_eq!(verify_totp(SECRET, &two_before, 818667 * 30), Ok(true));
}

#[test]
fn comparison_is_by_text() {
    let now = 134 * 30;
    assert_eq!(verify_totp(SECRET, "008210", now), Ok(true));
    assert_eq!(verify_totp(SECRET, "8210", now), Ok(false));
    assert_eq!(verify_totp(SECRET, "0008210", now), Ok(false));
    assert_eq!(verify_totp(SECRET, " 008210", now), Ok(false));
    assert_eq!(verify_totp(SECRET, "", now), Ok(false));
}

#[test]
fn a_code_may_be_used_again() {
    assert_eq!(verify_totp(SECRET, "282760", 10), Ok(true));
    assert_eq!(verify_totp(SECRET, "282760", 10), Ok(true));
}

#[test]
fn foreign_characters_are_an_encoding_error() {
    for secret in ["JBSWY3DPEHPK3PX!", "JBSWY3DP EHPK3PXP", "JBSWY3DPEHPK3PX1", "0", "8", "9", "é", "JBSW-Y3DP", "[", "@", "`", "{"] {
        assert_eq!(verify_totp(secret, "282760", 0), Err(ContractError::Encoding));
    }
}

#[test]
fn decoder_folds_case_and_takes_the_padding_sign() {
    assert_eq!(verify_totp("jbswy3dpehpk3pxp", "282760", 0), Ok(true));
    assert_eq!(verify_totp("JBSWY3DPEHPK3PXP======", "282760", 0), Ok(true));
    assert!(verify_totp("=", "282760", 0).is_ok());
}

#[test]
fn empty_secret_decodes_to_the_empty_key() {
    let code = generate_totp_code(&[], 3).unwrap();
    assert_eq!(verify_totp("", &code, 3 * 30), Ok(true));
}

#[test]
fn decoding_gives_the_key_bytes() {
    // The decoded secret, not the text, keys the hash.
    let from_bytes = generate_totp_code(RFC_KEY, 5).unwrap();
    let from_text = generate_totp_code(RFC_KEY_BASE32.as_bytes(), 5).unwrap();
    assert_eq!(from_bytes, "254676");
    assert_ne!(from_bytes, from_text);
    assert_eq!(verify_totp(RFC_KEY_BASE32, &from_bytes, 5 * 30), Ok(true));
}

#[test]
fn error_messages() {
    assert_eq!(ContractError::Encoding.message(), "Invalid secret key encoding");
    assert_eq!(ContractError::HmacKey.message(), "HMAC error");
    assert_eq!(ContractError::HmacLength.message(), "Invalid HMAC result length");
    assert_eq!(ContractError::NotRegistered.message(), "User not registered");
    assert_eq!(ContractError::InvalidCode.message(), "Invalid TOTP code");
}
