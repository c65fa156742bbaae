//! The calls into outside code that the verified logic makes, each with the
//! contract that Verus takes on trust. Every item here names the function it
//! calls and says what is claimed of it.

use vstd::prelude::*;
use vstd::utf8::*;
use vstd::string::*;
use crate::scan::parse_unsigned;

verus! {

/// The I/O error type of std, carried through unchanged.
#[verifier::external_type_specification]
#[verifier::external_body]
pub struct ExIoError(std::io::Error);

/// The error type of the `rustls` TLS layer, carried through unchanged.
#[verifier::external_type_specification]
#[verifier::external_body]
pub struct ExTlsError(rustls::TLSError);

/// The error of `webpki` for a host name that is no valid DNS name.
#[verifier::external_type_specification]
#[verifier::external_body]
pub struct ExInvalidDnsNameError(webpki::InvalidDNSNameError);

/// The handle by which std wakes a waiting task, carried through unchanged.
#[verifier::external_type_specification]
#[verifier::external_body]
pub struct ExWaker(std::task::Waker);

/// The error that `base64` decoding reports.
#[verifier::external_type_specification]
#[verifier::external_body]
pub struct ExDecodeError(base64::DecodeError);

/// The error of std's integer parsing, carried through unchanged.
#[verifier::external_type_specification]
#[verifier::external_body]
pub struct ExParseIntError(std::num::ParseIntError);

/// What `hmac::Hmac::<sha2::Sha256>` computes for a key and a message.
pub uninterp spec fn spec_hmac_sha256(key: Seq<u8>, msg: Seq<u8>) -> Seq<u8>;

/// What `sha2::Sha256` computes for a message.
pub uninterp spec fn spec_sha256(data: Seq<u8>) -> Seq<u8>;

/// What `pbkdf2::pbkdf2::<Hmac<Sha256>>` writes into a 32-byte output for a
/// password, a salt and a round count.
pub uninterp spec fn spec_pbkdf2_hmac_sha256(password: Seq<u8>, salt: Seq<u8>, rounds: u32) -> Seq<u8>;

/// The bytes of what `base64::encode_config(_, base64::STANDARD)` returns.
pub uninterp spec fn spec_base64_encode(data: Seq<u8>) -> Seq<u8>;

/// What `base64::decode_config(_, base64::STANDARD)` returns: the decoded
/// bytes, or nothing where it reports an error.
pub uninterp spec fn spec_base64_decode(text: Seq<u8>) -> Option<Seq<u8>>;

/// What `stringprep::saslprep` returns: the prepared string, or nothing where
/// it reports an error.
pub uninterp spec fn spec_saslprep(s: Seq<char>) -> Option<Seq<char>>;

/// A string that `stringprep::saslprep` hands back unchanged: its source
/// returns the input itself when every character is ASCII and no ASCII
/// control character (U+0000 to U+001F and U+007F).
pub open spec fn is_plain_ascii(s: Seq<char>) -> bool {
    forall|i: int| 0 <= i < s.len() ==> 0x20 <= (#[trigger] s[i]) as u32 && (s[i] as u32) < 0x7f
}

/// Calls `Hmac::<Sha256>::new_from_slice`, `Mac::update` and `Mac::finalize`.
/// Claimed: the 32 bytes are the named HMAC of `msg` under `key`. The
/// constructor accepts keys of any length (its source never fails for `Hmac`).
#[verifier::external_body]
pub(crate) fn hmac_sha256(key: &[u8], msg: &[u8]) -> (tag: [u8; 32])
    ensures
        tag@ == spec_hmac_sha256(key@, msg@),
{
    let mut mac = <hmac::Hmac<sha2::Sha256> as hmac::NewMac>::new_from_slice(key).unwrap();
    hmac::Mac::update(&mut mac, msg);
    hmac::Mac::finalize(mac).into_bytes().into()
}

/// Calls `sha2::Digest::digest` for `Sha256`.
/// Claimed: the 32 bytes are the named SHA-256 digest of `data`.
#[verifier::external_body]
pub(crate) fn sha256(data: &[u8]) -> (digest: [u8; 32])
    ensures
        digest@ == spec_sha256(data@),
{
    <sha2::Sha256 as sha2::Digest>::digest(data).into()
}

/// Calls `pbkdf2::pbkdf2::<Hmac<Sha256>>` into a 32-byte output.
/// Claimed: the output is the named derived key of the three arguments. The
/// source accepts every round count (zero runs the first round only).
#[verifier::external_body]
pub(crate) fn pbkdf2_hmac_sha256(password: &[u8], salt: &[u8], rounds: u32) -> (key: [u8; 32])
    ensures
        key@ == spec_pbkdf2_hmac_sha256(password@, salt@, rounds),
{
    let mut key = [0u8; 32];
    pbkdf2::pbkdf2::<hmac::Hmac<sha2::Sha256>>(password, salt, rounds, &mut key);
    key
}

/// Calls `base64::encode_config` with the standard alphabet.
/// Claimed: the bytes of the returned text are the named encoding. The
/// source panics only where its size computation overflows, which no slice
/// can make it do: a slice holds at most `isize::MAX` bytes.
#[verifier::external_body]
pub(crate) fn base64_encode(data: &[u8]) -> (text: Vec<u8>)
    ensures
        text@ == spec_base64_encode(data@),
{
    base64::encode_config(data, base64::STANDARD).into_bytes()
}

/// Calls `base64::decode_config` with the standard alphabet.
/// Claimed: it succeeds exactly when the named decoding exists, and then
/// returns it. The source panics only where its size computation overflows,
/// which no slice can make it do: a slice holds at most `isize::MAX` bytes.
#[verifier::external_body]
pub(crate) fn base64_decode(text: &[u8]) -> (data: Result<Vec<u8>, base64::DecodeError>)
    ensures
        data is Ok <==> spec_base64_decode(text@) is Some,
        data matches Ok(v) ==> spec_base64_decode(text@) == Some(v@),
{
    base64::decode_config(text, base64::STANDARD)
}

/// Calls `stringprep::saslprep`.
/// Claimed: the result is the named preparation, and a plain ASCII string
/// comes back unchanged (the source's fast path).
#[verifier::external_body]
pub(crate) fn saslprep(s: &str) -> (r: Option<String>)
    ensures
        r matches Some(v) ==> spec_saslprep(s@) == Some(v@),
        r is None ==> spec_saslprep(s@) is None,
        is_plain_ascii(s@) ==> r is Some && r->0@ == s@,
{
    match stringprep::saslprep(s) {
        Ok(prepared) => Some(prepared.into_owned()),
        Err(_) => None,
    }
}

/// Calls `rand::Rng::gen_range(lo..hi)` on the thread's generator (which
/// panics on an empty range, hence `lo < hi`).
/// Claimed: only that the byte lies in the range; its value is chance.
#[verifier::external_body]
pub(crate) fn random_byte_in(lo: u8, hi: u8) -> (b: u8)
    requires
        lo < hi,
    ensures
        lo <= b < hi,
{
    rand::Rng::gen_range(&mut rand::thread_rng(), lo..hi)
}

/// Calls `String::from_utf8` on a copy of the bytes.
/// Claimed, as std documents it: it succeeds exactly on valid UTF-8, and the
/// string then holds the characters that the bytes encode.
#[verifier::external_body]
pub(crate) fn utf8_to_string(bytes: &[u8]) -> (s: Option<String>)
    ensures
        s is Some <==> valid_utf8(bytes@),
        s matches Some(v) ==> v@ == decode_utf8(bytes@),
{
    String::from_utf8(bytes.to_vec()).ok()
}

/// Calls `u128::from_str_radix(s, 16)`.
/// Claimed, as std documents it for unsigned types: it succeeds exactly on an
/// optional `+` followed by at least one hexadecimal digit (either case) and
/// nothing else, whose value fits in 128 bits, and then returns that value.
/// Which error it reports otherwise is not claimed.
#[verifier::external_body]
pub(crate) fn hex_u128(s: &str) -> (r: Result<u128, std::num::ParseIntError>)
    ensures
        r is Ok <==> parse_unsigned(s.spec_bytes(), 16, u128::MAX as nat) is Some,
        r matches Ok(v) ==> parse_unsigned(s.spec_bytes(), 16, u128::MAX as nat) == Some(v as nat),
{
    u128::from_str_radix(s, 16)
}

/// Calls `String::push`. Claimed, as std documents it: the character is
/// appended.
#[verifier::external_body]
pub(crate) fn push_char(s: &mut String, c: char)
    ensures
        final(s)@ == old(s)@.push(c),
{
    s.push(c)
}

/// Calls `std::io::Error::from(ErrorKind::UnexpectedEof)`. Nothing is
/// claimed of the value.
#[verifier::external_body]
pub(crate) fn unexpected_eof() -> std::io::Error {
    std::io::Error::from(std::io::ErrorKind::UnexpectedEof)
}

/// Calls `std::io::Error::new(ErrorKind::Other, msg)`. Nothing is claimed of
/// the value.
#[verifier::external_body]
pub(crate) fn io_error_other(msg: &str) -> std::io::Error {
    std::io::Error::new(std::io::ErrorKind::Other, msg.to_string())
}

} // verus!
