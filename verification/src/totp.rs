use vstd::prelude::*;
use vstd::string::*;
use hmac::digest::InvalidLength;
use hmac::{Hmac, Mac};
use sha1::Sha1;
use crate::error::ContractError;

verus! {

/// Seconds in one time step.
pub const TIME_STEP: u64 = 30;

/// Digits in a code.
pub const CODE_DIGITS: u32 = 6;

/// Ten to the power `CODE_DIGITS`.
pub const CODE_MODULUS: u32 = 1_000_000;

/// Bytes in an HMAC-SHA1 digest.
pub const DIGEST_LEN: usize = 20;

/// The low nibble of the digest's last byte: where the four-byte window starts.
pub open spec fn truncation_offset(digest: Seq<u8>) -> int {
    digest[19] as int % 16
}

/// The four bytes at the truncation offset read as a big-endian number,
/// without the top bit of the first.
pub open spec fn truncated_value(digest: Seq<u8>) -> int {
    let at = truncation_offset(digest);
    (digest[at] as int % 128) * 0x100_0000 + digest[at + 1] as int * 0x1_0000
        + digest[at + 2] as int * 0x100 + digest[at + 3] as int
}

/// Dynamic truncation of a digest to a 31-bit number.
///
/// A digest shorter than twenty bytes has no byte 19 and is refused;
/// with twenty bytes or more the window always fits.
pub fn truncate_digest(digest: &[u8]) -> (value: Result<u32, ContractError>)
    ensures
        digest@.len() < DIGEST_LEN ==> value == Err::<u32, ContractError>(
            ContractError::HmacLength,
        ),
        digest@.len() >= DIGEST_LEN ==> (value matches Ok(v) && v as int == truncated_value(
            digest@,
        )),
{
    if digest.len() < DIGEST_LEN {
        return Err(ContractError::HmacLength);
    }
    let last: u8 = digest[19];
    let offset: usize = (last & 0x0f) as usize;
    assert(last & 0x0f == last % 16) by (bit_vector);
    if offset + 4 > digest.len() {
        return Err(ContractError::HmacLength);
    }
    let b0: u8 = digest[offset];
    let b1: u8 = digest[offset + 1];
    let b2: u8 = digest[offset + 2];
    let b3: u8 = digest[offset + 3];
    let value: u32 = ((b0 & 0x7f) as u32) << 24 | (b1 as u32) << 16 | (b2 as u32) << 8 | (b3 as u32);
    assert(((b0 & 0x7f) as u32) << 24 | (b1 as u32) << 16 | (b2 as u32) << 8 | (b3 as u32)
        == (b0 % 128) as u32 * 0x100_0000 + b1 as u32 * 0x1_0000 + b2 as u32 * 0x100 + b3 as u32)
        by (bit_vector);
    Ok(value)
}

/// The decimal digit `digit` as a character.
pub open spec fn digit_char(digit: int) -> char {
    (48 + digit) as u8 as char
}

/// `value` written with exactly six decimal digits, zeros in front.
pub open spec fn six_digits(value: int) -> Seq<char> {
    seq![
        digit_char(value / 100_000 % 10),
        digit_char(value / 10_000 % 10),
        digit_char(value / 1_000 % 10),
        digit_char(value / 100 % 10),
        digit_char(value / 10 % 10),
        digit_char(value % 10),
    ]
}

/// The code that a digest stands for: its truncation modulo one million, in six digits.
pub open spec fn digest_code(digest: Seq<u8>) -> Seq<char> {
    six_digits(truncated_value(digest) % (CODE_MODULUS as int))
}

/// The eight bytes of `counter`, most significant first.
pub open spec fn counter_bytes(counter: u64) -> Seq<u8> {
    seq![
        (counter / 0x100_0000_0000_0000 % 256) as u8,
        (counter / 0x1_0000_0000_0000 % 256) as u8,
        (counter / 0x100_0000_0000 % 256) as u8,
        (counter / 0x1_0000_0000 % 256) as u8,
        (counter / 0x100_0000 % 256) as u8,
        (counter / 0x1_0000 % 256) as u8,
        (counter / 0x100 % 256) as u8,
        (counter % 256) as u8,
    ]
}

/// The HMAC-SHA1 tag of `message` under `key`.
pub uninterp spec fn hmac_sha1_tag(key: Seq<u8>, message: Seq<u8>) -> Seq<u8>;

/// The code for `secret` at time step `counter`.
pub open spec fn expected_code(secret: Seq<u8>, counter: u64) -> Seq<char> {
    digest_code(hmac_sha1_tag(secret, counter_bytes(counter)))
}

/// `hmac::digest::InvalidLength`, the error of the key setup. It holds
/// nothing and is only carried from the call to the place that maps it.
#[verifier::external_type_specification]
#[verifier::external_body]
pub struct ExInvalidLength(hmac::digest::InvalidLength);

/// One HMAC-SHA1 computation with the `hmac` and `sha1` crates:
/// `Mac::new_from_slice` on the key, `Mac::update` with the message, then
/// `Mac::finalize` and `CtOutput::into_bytes`.
///
/// Trusted: the tag is a function of key and message alone; key setup
/// accepts a key of any length (the crate pads or hashes it to the block
/// size); and the tag has SHA-1's twenty bytes.
#[verifier::external_body]
fn hmac_sha1(key: &[u8], message: &[u8]) -> (tag: Result<Vec<u8>, InvalidLength>)
    ensures
        tag is Ok,
        tag matches Ok(bytes) ==> bytes@ == hmac_sha1_tag(key@, message@) && bytes@.len()
            == DIGEST_LEN,
{
    let mut mac = Hmac::<Sha1>::new_from_slice(key)?;
    mac.update(message);
    Ok(mac.finalize().into_bytes().to_vec())
}

/// The one-character text of a decimal digit.
fn digit_text(digit: u32) -> (text: &'static str)
    requires
        digit < 10,
    ensures
        text@ == seq![digit_char(digit as int)],
{
    proof {
        reveal_strlit("0");
        reveal_strlit("1");
        reveal_strlit("2");
        reveal_strlit("3");
        reveal_strlit("4");
        reveal_strlit("5");
        reveal_strlit("6");
        reveal_strlit("7");
        reveal_strlit("8");
        reveal_strlit("9");
    }
    let text = if digit == 0 {
        "0"
    } else if digit == 1 {
        "1"
    } else if digit == 2 {
        "2"
    } else if digit == 3 {
        "3"
    } else if digit == 4 {
        "4"
    } else if digit == 5 {
        "5"
    } else if digit == 6 {
        "6"
    } else if digit == 7 {
        "7"
    } else if digit == 8 {
        "8"
    } else {
        "9"
    };
    assert(text@ =~= seq![digit_char(digit as int)]);
    text
}

/// Reduces a truncated value modulo one million and writes it with six digits.
pub fn decimal_code(truncated: u32) -> (code: String)
    ensures
        code@ == six_digits(truncated as int % (CODE_MODULUS as int)),
{
    let value: u32 = truncated % CODE_MODULUS;
    let mut code = String::new();
    code.append(digit_text(value / 100_000 % 10));
    code.append(digit_text(value / 10_000 % 10));
    code.append(digit_text(value / 1_000 % 10));
    code.append(digit_text(value / 100 % 10));
    code.append(digit_text(value / 10 % 10));
    code.append(digit_text(value % 10));
    assert(code@ =~= six_digits(truncated as int % (CODE_MODULUS as int)));
    code
}

/// The HMAC message for a time step: the counter as eight big-endian bytes.
pub fn counter_message(counter: u64) -> (message: Vec<u8>)
    ensures
        message@ == counter_bytes(counter),
{
    let mut message: Vec<u8> = Vec::new();
    message.push(((counter >> 56) & 0xff) as u8);
    message.push(((counter >> 48) & 0xff) as u8);
    message.push(((counter >> 40) & 0xff) as u8);
    message.push(((counter >> 32) & 0xff) as u8);
    message.push(((counter >> 24) & 0xff) as u8);
    message.push(((counter >> 16) & 0xff) as u8);
    message.push(((counter >> 8) & 0xff) as u8);
    message.push((counter & 0xff) as u8);
    assert((counter >> 56) & 0xff == counter / 0x100_0000_0000_0000 % 256) by (bit_vector);
    assert((counter >> 48) & 0xff == counter / 0x1_0000_0000_0000 % 256) by (bit_vector);
    assert((counter >> 40) & 0xff == counter / 0x100_0000_0000 % 256) by (bit_vector);
    assert((counter >> 32) & 0xff == counter / 0x1_0000_0000 % 256) by (bit_vector);
    assert((counter >> 24) & 0xff == counter / 0x100_0000 % 256) by (bit_vector);
    assert((counter >> 16) & 0xff == counter / 0x1_0000 % 256) by (bit_vector);
    assert((counter >> 8) & 0xff == counter / 0x100 % 256) by (bit_vector);
    assert(counter & 0xff == counter % 256) by (bit_vector);
    assert(message@ =~= counter_bytes(counter));
    message
}

/// Turns the outcome of the keyed hash into a code.
///
/// A refused key is `HmacKey`; a digest shorter than twenty bytes is
/// `HmacLength`; any other digest gives its six-digit code.
pub fn code_from_tag(tag: Result<Vec<u8>, InvalidLength>) -> (code: Result<String, ContractError>)
    ensures
        tag is Err ==> code == Err::<String, ContractError>(ContractError::HmacKey),
        tag matches Ok(digest) ==> (digest@.len() < DIGEST_LEN ==> code == Err::<
            String,
            ContractError,
        >(
            ContractError::HmacLength,
        )),
        tag matches Ok(digest) ==> (digest@.len() >= DIGEST_LEN ==> (code matches Ok(text) && text@
            == digest_code(digest@))),
{
    match tag {
        Err(_) => Err(ContractError::HmacKey),
        Ok(digest) => {
            match truncate_digest(digest.as_slice()) {
                Err(e) => Err(e),
                Ok(truncated) => Ok(decimal_code(truncated)),
            }
        },
    }
}

/// Generates the code for `secret` at time step `counter`.
///
/// The code is a function of the secret and the step alone, and
/// generation succeeds for every secret and every step.
pub fn generate_totp_code(secret: &[u8], counter: u64) -> (code: Result<String, ContractError>)
    ensures
        code matches Ok(text) && text@ == expected_code(secret@, counter),
{
    let message = counter_message(counter);
    code_from_tag(hmac_sha1(secret, message.as_slice()))
}

/// A character that the Base32 decoder takes: a letter of either case, a
/// digit from 2 to 7, or the padding sign.
pub open spec fn is_base32_symbol(c: char) -> bool {
    ('A' <= c && c <= 'Z') || ('a' <= c && c <= 'z') || ('2' <= c && c <= '7') || c == '='
}

/// Text made of Base32 symbols only.
pub open spec fn is_base32_text(text: Seq<char>) -> bool {
    forall|i: int| 0 <= i < text.len() ==> is_base32_symbol(#[trigger] text[i])
}

/// The bytes that Base32 text stands for.
pub uninterp spec fn base32_decoded(text: Seq<char>) -> Seq<u8>;

/// `base32::decode` with the RFC 4648 alphabet, unpadded.
///
/// Trusted: the decoder gives bytes exactly when every character is a
/// letter, a digit from 2 to 7 or `=` (it folds case and reads `=` as a
/// zero symbol), and the bytes are a function of the text alone.
#[verifier::external_body]
fn base32_decode(text: &str) -> (bytes: Option<Vec<u8>>)
    ensures
        bytes is Some <==> is_base32_text(text@),
        bytes matches Some(decoded) ==> decoded@ == base32_decoded(text@),
{
    base32::decode(base32::Alphabet::RFC4648 { padding: false }, text)
}

/// The time step that a trusted unix time falls in.
pub open spec fn time_counter(now: u64) -> u64 {
    now / TIME_STEP
}

/// Whether `step` is one of the steps checked at step `current`: the one
/// before (where there is one), `current` itself and the one after.
pub open spec fn in_window(step: int, current: int) -> bool {
    0 <= step && current - 1 <= step <= current + 1
}

/// Whether `code` is the code of a step in the drift window around `now`.
pub open spec fn code_accepted(secret: Seq<u8>, code: Seq<char>, now: u64) -> bool {
    exists|step: u64| #[trigger]
        in_window(step as int, time_counter(now) as int) && code == expected_code(secret, step)
}

/// The time step of `now`.
pub fn current_step(now: u64) -> (step: u64)
    ensures
        step == time_counter(now),
        step < u64::MAX,
{
    now / TIME_STEP
}

/// Checks a submitted code against the steps before, at and after `now`,
/// in that order, for an already decoded secret.
pub fn verify_with_secret(secret: &[u8], totp_code: &str, now: u64) -> (valid: Result<
    bool,
    ContractError,
>)
    ensures
        valid == Ok::<bool, ContractError>(code_accepted(secret@, totp_code@, now)),
{
    let submitted = String::from_str(totp_code);
    let step = current_step(now);
    if step > 0 {
        let code = generate_totp_code(secret, step - 1)?;
        if code == submitted {
            assert(in_window(step - 1, step as int));
            return Ok(true);
        }
    }
    let code = generate_totp_code(secret, step)?;
    if code == submitted {
        assert(in_window(step as int, step as int));
        return Ok(true);
    }
    let code = generate_totp_code(secret, step + 1)?;
    if code == submitted {
        assert(in_window(step + 1, step as int));
        return Ok(true);
    }
    assert forall|other: u64| #[trigger] in_window(other as int, step as int) implies totp_code@
        != expected_code(secret@, other) by {
        assert(other == step - 1 || other == step || other == step + 1);
    }
    Ok(false)
}

/// Verifies a submitted code for a Base32 secret at the trusted time `now`.
pub fn verify_totp(secret_key: &str, totp_code: &str, now: u64) -> (valid: Result<
    bool,
    ContractError,
>)
    ensures
        !is_base32_text(secret_key@) ==> valid == Err::<bool, ContractError>(
            ContractError::Encoding,
        ),
        is_base32_text(secret_key@) ==> valid == Ok::<bool, ContractError>(
            code_accepted(base32_decoded(secret_key@), totp_code@, now),
        ),
{
    match base32_decode(secret_key) {
        None => Err(ContractError::Encoding),
        Some(secret_bytes) => verify_with_secret(secret_bytes.as_slice(), totp_code, now),
    }
}

/// Six-digit writing is exact: six characters, each a decimal digit, which
/// read back as the number written.
pub proof fn lemma_six_digits(value: int)
    requires
        0 <= value < CODE_MODULUS,
    ensures
        six_digits(value).len() == CODE_DIGITS,
        forall|i: int| 0 <= i < 6 ==> '0' <= #[trigger] six_digits(value)[i] <= '9',
        (six_digits(value)[0] as int - 48) * 100_000 + (six_digits(value)[1] as int - 48) * 10_000
            + (six_digits(value)[2] as int - 48) * 1_000 + (six_digits(value)[3] as int - 48) * 100
            + (six_digits(value)[4] as int - 48) * 10 + (six_digits(value)[5] as int - 48)
            == value,
{
    let d0 = value / 100_000 % 10;
    let d1 = value / 10_000 % 10;
    let d2 = value / 1_000 % 10;
    let d3 = value / 100 % 10;
    let d4 = value / 10 % 10;
    let d5 = value % 10;
    assert(value / 100 == value / 10 / 10);
    assert(value / 1_000 == value / 100 / 10);
    assert(value / 10_000 == value / 1_000 / 10);
    assert(value / 100_000 == value / 10_000 / 10);
    assert(value / 100_000 < 10);
    assert(value == d0 * 100_000 + d1 * 10_000 + d2 * 1_000 + d3 * 100 + d4 * 10 + d5);
    assert(forall|d: int| 0 <= d < 10 ==> #[trigger] digit_char(d) as int == 48 + d);
    assert(six_digits(value)[0] == digit_char(d0));
    assert(six_digits(value)[1] == digit_char(d1));
    assert(six_digits(value)[2] == digit_char(d2));
    assert(six_digits(value)[3] == digit_char(d3));
    assert(six_digits(value)[4] == digit_char(d4));
    assert(six_digits(value)[5] == digit_char(d5));
}

/// A generated code always has exactly six characters, each an ASCII
/// decimal digit, whatever the secret and the step.
pub proof fn lemma_code_format(secret: Seq<u8>, counter: u64)
    ensures
        expected_code(secret, counter).len() == CODE_DIGITS,
        forall|i: int| 0 <= i < 6 ==> '0' <= #[trigger] expected_code(secret, counter)[i] <= '9',
{
    let digest = hmac_sha1_tag(secret, counter_bytes(counter));
    lemma_six_digits(truncated_value(digest) % (CODE_MODULUS as int));
}

/// The drift window holds three steps and no other: the step before the
/// current one (where there is one), the current step and the next.
pub proof fn lemma_window_steps(secret: Seq<u8>, code: Seq<char>, now: u64)
    ensures
        code_accepted(secret, code, now) <==> {
            ||| (time_counter(now) >= 1 && code == expected_code(
                secret,
                (time_counter(now) - 1) as u64,
            ))
            ||| code == expected_code(secret, time_counter(now))
            ||| code == expected_code(secret, (time_counter(now) + 1) as u64)
        },
{
    let current = time_counter(now);
    if current >= 1 && code == expected_code(secret, (current - 1) as u64) {
        assert(in_window(((current - 1) as u64) as int, current as int));
    }
    if code == expected_code(secret, current) {
        assert(in_window(current as int, current as int));
    }
    if code == expected_code(secret, (current + 1) as u64) {
        assert(in_window(((current + 1) as u64) as int, current as int));
    }
}

/// The code of the step that `now` falls in is accepted at `now`.
pub proof fn lemma_current_code_accepted(secret: Seq<u8>, now: u64)
    ensures
        code_accepted(secret, expected_code(secret, time_counter(now)), now),
{
    lemma_window_steps(secret, expected_code(secret, time_counter(now)), now);
}

/// The codes of the steps next to the current one are accepted: that of
/// the step before, where there is one, and that of the step after.
pub proof fn lemma_neighbour_codes_accepted(secret: Seq<u8>, now: u64)
    ensures
        time_counter(now) >= 1 ==> code_accepted(
            secret,
            expected_code(secret, (time_counter(now) - 1) as u64),
            now,
        ),
        code_accepted(secret, expected_code(secret, (time_counter(now) + 1) as u64), now),
{
    let current = time_counter(now);
    if current >= 1 {
        lemma_window_steps(secret, expected_code(secret, (current - 1) as u64), now);
    }
    lemma_window_steps(secret, expected_code(secret, (current + 1) as u64), now);
}

/// The code of a step outside the window is rejected, unless it happens
/// to be the code of a step inside as well.
pub proof fn lemma_distant_code_rejected(secret: Seq<u8>, now: u64, step: u64)
    requires
        !in_window(step as int, time_counter(now) as int),
        time_counter(now) >= 1 ==> expected_code(secret, step) != expected_code(
            secret,
            (time_counter(now) - 1) as u64,
        ),
        expected_code(secret, step) != expected_code(secret, time_counter(now)),
        expected_code(secret, step) != expected_code(secret, (time_counter(now) + 1) as u64),
    ensures
        !code_accepted(secret, expected_code(secret, step), now),
{
    lemma_window_steps(secret, expected_code(secret, step), now);
}

/// Two steps before the current one and two steps after it lie outside the window.
pub proof fn lemma_window_width(now: u64)
    ensures
        !in_window(time_counter(now) - 2, time_counter(now) as int),
        !in_window(time_counter(now) + 2, time_counter(now) as int),
        time_counter(now) + 2 <= u64::MAX,
{
}

/// In the first time step there is no step before: only the codes of
/// steps 0 and 1 are accepted.
pub proof fn lemma_first_step_window(secret: Seq<u8>, code: Seq<char>, now: u64)
    requires
        now < TIME_STEP,
    ensures
        time_counter(now) == 0,
        code_accepted(secret, code, now) <==> (code == expected_code(secret, 0) || code
            == expected_code(secret, 1)),
{
    lemma_window_steps(secret, code, now);
}

/// Text with a character that is no Base32 symbol is no Base32 text.
pub proof fn lemma_foreign_symbol(text: Seq<char>, at: int)
    requires
        0 <= at < text.len(),
        !is_base32_symbol(text[at]),
    ensures
        !is_base32_text(text),
{
}

} // verus!
