//! Time-based one-time passwords (RFC 6238) over HMAC-SHA-256.
//!
//! The crate turns a shared secret and a Unix timestamp into a zero-padded
//! decimal code: the timestamp is quantized to a time step, the step's
//! big-endian encoding is authenticated with HMAC-SHA-256, the tag is
//! dynamically truncated to a 31-bit integer (RFC 4226), and that integer is
//! reduced modulo a power of ten and rendered with leading zeros.

mod mac;
mod otp;

pub use mac::hmac_sha256_of;
pub use otp::TotpError;
pub use otp::be_bytes_of_u64;
pub use otp::char_digit;
pub use otp::lemma_code_length;
pub use otp::lemma_code_range;
pub use otp::lemma_decimal_chars_len;
pub use otp::lemma_decimal_chars_value;
pub use otp::lemma_determinism;
pub use otp::lemma_step_stability;
pub use otp::compute_otp;
pub use otp::counter_bytes;
pub use otp::create_totp;
pub use otp::decimal_chars;
pub use otp::decimal_value;
pub use otp::digit_char;
pub use otp::dynamic_truncate;
pub use otp::format_code;
pub use otp::otp_chars;
pub use otp::otp_value;
pub use otp::pow10;
pub use otp::truncated_of;
