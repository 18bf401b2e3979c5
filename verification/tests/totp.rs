use totp::TotpError;
use totp::compute_otp;
use totp::counter_bytes;
use totp::create_totp;
use totp::dynamic_truncate;
use totp::format_code;

// RFC 6238 Appendix B, SHA-256 column: the 20-byte ASCII seed repeated out to
// 32 bytes, 30-second steps, 8 digits.
const RFC_SEED32: &[u8] = b"12345678901234567890123456789012";

#[test]
fn rfc6238_vector_t59() {
    assert_eq!(compute_otp(RFC_SEED32, 59, 30, 8), Ok("46119246".to_string()));
}

#[test]
fn rfc6238_vector_t1111111109() {
    assert_eq!(compute_otp(RFC_SEED32, 1111111109, 30, 8), Ok("68084774".to_string()));
}

#[test]
fn rfc6238_vector_t1111111111() {
    assert_eq!(compute_otp(RFC_SEED32, 1111111111, 30, 8), Ok("67062674".to_string()));
}

#[test]
fn rfc6238_vector_t1234567890() {
    assert_eq!(compute_otp(RFC_SEED32, 1234567890, 30, 8), Ok("91819424".to_string()));
}

#[test]
fn rfc6238_vector_t2000000000() {
    assert_eq!(compute_otp(RFC_SEED32, 2000000000, 30, 8), Ok("90698825".to_string()));
}

#[test]
fn rfc6238_vector_t20000000000() {
    assert_eq!(compute_otp(RFC_SEED32, 20000000000, 30, 8), Ok("77737706".to_string()));
}

#[test]
fn create_totp_uses_30_seconds_and_8_digits() {
    assert_eq!(create_totp(RFC_SEED32, 59), "46119246");
    assert_eq!(
        create_totp(b"friedfieldnotsomuch", 1234567890),
        compute_otp(b"friedfieldnotsomuch", 1234567890, 30, 8).unwrap()
    );
}

#[test]
fn determinism_identical_inputs_identical_codes() {
    let secret = b"a shared secret";
    let first = compute_otp(secret, 1234567890, 30, 8);
    let second = compute_otp(secret, 1234567890, 30, 8);
    assert_eq!(first, second);
}

#[test]
fn step_stability_same_window_same_code() {
    let secret = b"a shared secret";
    // 30..=59 all lie in time step 1.
    let reference = compute_otp(secret, 30, 30, 8).unwrap();
    for t in [30u64, 31, 44, 58, 59] {
        assert_eq!(compute_otp(secret, t, 30, 8).unwrap(), reference);
    }
    // The RFC vector at t = 59 equals the one at t = 30 for the same reason.
    assert_eq!(compute_otp(RFC_SEED32, 30, 30, 8), compute_otp(RFC_SEED32, 59, 30, 8));
}

#[test]
fn step_sensitivity_distinct_steps_rarely_collide() {
    let secret = b"a shared secret";
    let mut codes: Vec<String> = Vec::new();
    for step in 0u64..64 {
        codes.push(compute_otp(secret, step * 30, 30, 8).unwrap());
    }
    let mut distinct: usize = 0;
    for i in 0..codes.len() {
        if !codes[..i].contains(&codes[i]) {
            distinct += 1;
        }
    }
    // 64 samples from a 10^8 space: collisions should be essentially absent.
    assert!(distinct >= 60, "only {} distinct codes in 64 steps", distinct);
}

#[test]
fn length_and_range_for_every_digit_count() {
    let secret = b"a shared secret";
    for digits in 1u32..=9 {
        let code = compute_otp(secret, 1111111111, 30, digits).unwrap();
        assert_eq!(code.len(), digits as usize);
        let value: u64 = code.parse().unwrap();
        assert!(value < 10u64.pow(digits));
    }
}

#[test]
fn zero_padding_reduced_value_42() {
    assert_eq!(format_code(42, 8), Ok("00000042".to_string()));
    // The same reduced value reached through the modulo step.
    assert_eq!(format_code(3_100_000_042, 8), Ok("00000042".to_string()));
    assert_eq!(format_code(0, 6), Ok("000000".to_string()));
}

#[test]
fn configuration_rejection_interval_zero() {
    assert_eq!(compute_otp(b"secret", 59, 0, 8), Err(TotpError::ConfigurationError));
}

#[test]
fn configuration_rejection_digit_count() {
    assert_eq!(compute_otp(b"secret", 59, 30, 0), Err(TotpError::ConfigurationError));
    assert_eq!(compute_otp(b"secret", 59, 30, 10), Err(TotpError::ConfigurationError));
    assert_eq!(format_code(42, 0), Err(TotpError::ConfigurationError));
    assert_eq!(format_code(42, 10), Err(TotpError::ConfigurationError));
}

#[test]
fn empty_secret_is_accepted() {
    // HMAC key set-up tolerates zero-length keys; the code is still 8 digits.
    let code = compute_otp(b"", 59, 30, 8).unwrap();
    assert_eq!(code.len(), 8);
}

#[test]
fn counter_bytes_big_endian() {
    assert_eq!(counter_bytes(0), vec![0u8; 8]);
    assert_eq!(counter_bytes(1), vec![0, 0, 0, 0, 0, 0, 0, 1]);
    assert_eq!(
        counter_bytes(0x0102_0304_0506_0708),
        vec![0x01, 0x02, 0x03, 0x04, 0x05, 0x06, 0x07, 0x08]
    );
    assert_eq!(counter_bytes(u64::MAX), vec![0xff; 8]);
}

#[test]
fn dynamic_truncate_reads_offset_from_last_nibble() {
    // Last byte 0x1f: offset 15, so bytes 15..19 are read big-endian.
    let mut tag = [0u8; 32];
    for (i, b) in tag.iter_mut().enumerate() {
        *b = i as u8;
    }
    tag[31] = 0x1f;
    assert_eq!(dynamic_truncate(&tag), 0x0f10_1112);
}

#[test]
fn dynamic_truncate_masks_sign_bit() {
    // Last byte 0x00: offset 0; all-ones window reduces to 31 bits.
    let mut tag = [0u8; 32];
    tag[0] = 0xff;
    tag[1] = 0xff;
    tag[2] = 0xff;
    tag[3] = 0xff;
    assert_eq!(dynamic_truncate(&tag), 0x7fff_ffff);
}
