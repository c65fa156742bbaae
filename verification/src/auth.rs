//! The SCRAM-SHA-256 handshake that opens a connection, and the small pieces
//! it is built from: NUL-terminated messages, the attribute lists of SASL and
//! the derivation of the client proof.

use vstd::prelude::*;
use vstd::string::*;
use vstd::utf8::*;
use crate::Error;
use crate::scan::{first_match, find};
use crate::trusted::{
    base64_decode, base64_encode, hmac_sha256, pbkdf2_hmac_sha256, random_byte_in, saslprep,
    sha256, spec_base64_decode, spec_base64_encode, spec_hmac_sha256, spec_pbkdf2_hmac_sha256,
    spec_saslprep, spec_sha256, unexpected_eof, utf8_to_string, is_plain_ascii,
};
use crate::scan::parse_unsigned;
use crate::scan::parse_unsigned_exec;
use crate::wire::VERSION_1_0;
use crate::{DEFAULT_PWD, DEFAULT_USER};
use vstd::bytes::{spec_u32_to_le_bytes, u32_to_le_bytes};

verus! {

/// The only authentication method that the server offers.
pub const AUTH_METHOD_SCRAM_SHA_256: &'static str = "SCRAM-SHA-256";
/// The lowest iteration count accepted for a non-empty password.
pub const MIN_ITERATIONS: u32 = 4096;
/// The size of the buffer that handshake messages are read into.
pub const DEFAULT_BUFFER_LEN: usize = 1024;

/// Why a handshake failed.
#[derive(Clone, Debug, PartialEq, Eq)]
pub enum AuthError {
    InvalidReply,
    InvalidServerNonce,
    InvalidServerSignature,
    InvalidIterationCount,
    ServerError { code: Option<usize>, msg: String },
}

/// The first message of the client in the SCRAM exchange.
#[derive(Clone, Debug)]
pub struct ClientFirstMessage {
    pub protocol_version: usize,
    pub authentication_method: String,
    pub authentication: String,
}

/// The final message of the client in the SCRAM exchange.
#[derive(Clone, Debug)]
pub struct ClientFinalMessage {
    pub authentication: String,
}

/// The server's answer to the protocol version.
#[derive(Clone, Debug)]
pub struct ServerVersionMessage {
    pub success: bool,
    pub min_protocol_version: usize,
    pub max_protocol_version: usize,
    pub server_version: String,
}

/// A message of the server in the SCRAM exchange.
#[derive(Clone, Debug)]
pub struct ServerMessage {
    pub success: bool,
    pub authentication: Option<String>,
    pub error: Option<String>,
    pub error_code: Option<usize>,
}

/// The concatenation of the parts, in order.
pub open spec fn concat_parts(parts: Seq<Seq<u8>>) -> Seq<u8>
    decreases parts.len(),
{
    if parts.len() == 0 {
        Seq::empty()
    } else {
        concat_parts(parts.drop_last()) + parts.last()
    }
}

/// The contents of a list of byte slices.
pub open spec fn parts_view(src: Seq<&[u8]>) -> Seq<Seq<u8>> {
    Seq::new(src.len(), |i: int| src[i]@)
}

/// Writes the parts one after the other to the front of `buf` and returns
/// how many bytes they fill. The rest of `buf` is left as it was.
pub fn concat_into(buf: &mut [u8], src: &[&[u8]]) -> (len: usize)
    requires
        concat_parts(parts_view(src@)).len() <= old(buf)@.len(),
    ensures
        len == concat_parts(parts_view(src@)).len(),
        final(buf)@.len() == old(buf)@.len(),
        final(buf)@.subrange(0, len as int) == concat_parts(parts_view(src@)),
        final(buf)@.subrange(len as int, final(buf)@.len() as int)
            == old(buf)@.subrange(len as int, old(buf)@.len() as int),
{
    let ghost parts = parts_view(src@);
    let ghost total = concat_parts(parts);
    let n = buf.len();
    let mut i: usize = 0;
    let mut k: usize = 0;
    while k < src.len()
        invariant
            parts == parts_view(src@),
            total == concat_parts(parts),
            total.len() <= old(buf)@.len(),
            buf@.len() == old(buf)@.len(),
            buf@.len() == n,
            k <= src@.len(),
            i == concat_parts(parts.take(k as int)).len(),
            buf@.subrange(0, i as int) == concat_parts(parts.take(k as int)),
            buf@.subrange(i as int, buf@.len() as int) == old(buf)@.subrange(i as int, old(buf)@.len() as int),
            concat_parts(parts.take(k as int)).len() <= total.len(),
        decreases src@.len() - k,
    {
        let part = src[k];
        let ghost before = buf@;
        assert(parts.take(k + 1).drop_last() =~= parts.take(k as int));
        assert(parts.take(k + 1).last() == part@);
        proof { lemma_concat_parts_prefix_len(parts, k + 1); }
        let mut j: usize = 0;
        while j < part.len()
            invariant
                i + part@.len() <= buf@.len(),
                buf@.len() == before.len(),
                buf@.len() == n,
                j <= part@.len(),
                forall|t: int| 0 <= t < i ==> buf@[t] == before[t],
                forall|t: int| 0 <= t < j ==> buf@[i + t] == part@[t],
                forall|t: int| i + j <= t < buf@.len() ==> buf@[t] == before[t],
            decreases part@.len() - j,
        {
            buf[i + j] = part[j];
            j += 1;
        }
        assert(buf@.subrange(0, i + part@.len()) =~= concat_parts(parts.take(k + 1)));
        assert(buf@.subrange(i + part@.len(), buf@.len() as int) =~= old(buf)@.subrange(
            i + part@.len(),
            old(buf)@.len() as int,
        )) by {
            assert forall|t: int| i + part@.len() <= t < buf@.len() implies buf@[t] == old(buf)@[t] by {
                assert(buf@[t] == before[t]);
                assert(before[t] == before.subrange(i as int, before.len() as int)[t - i]);
            }
        }
        i = i + part.len();
        k += 1;
    }
    assert(parts.take(k as int) =~= parts);
    i
}

/// A prefix of the parts is never longer than all of them.
proof fn lemma_concat_parts_prefix_len(parts: Seq<Seq<u8>>, k: int)
    requires
        0 <= k <= parts.len(),
    ensures
        concat_parts(parts.take(k)).len() <= concat_parts(parts).len(),
    decreases parts.len(),
{
    if k < parts.len() {
        assert(parts.drop_last().take(k) =~= parts.take(k));
        lemma_concat_parts_prefix_len(parts.drop_last(), k);
    } else {
        assert(parts.take(k) =~= parts);
    }
}

/// The bytes that go out for a message made of the given parts: they are
/// assembled in `buf`, as in `concat_into`, and handed back for writing.
pub fn send_msg(buf: &mut [u8], src: &[&[u8]]) -> (out: Vec<u8>)
    requires
        concat_parts(parts_view(src@)).len() <= old(buf)@.len(),
    ensures
        out@ == concat_parts(parts_view(src@)),
        final(buf)@.len() == old(buf)@.len(),
        final(buf)@.subrange(0, out@.len() as int) == out@,
        final(buf)@.subrange(out@.len() as int, final(buf)@.len() as int)
            == old(buf)@.subrange(out@.len() as int, old(buf)@.len() as int),
{
    let len = concat_into(buf, src);
    let mut out: Vec<u8> = Vec::new();
    out.extend_from_slice(&buf[0..len]);
    out
}

/// Where reading a NUL-terminated message stands after one read.
#[derive(Copy, Clone, Debug, PartialEq, Eq, Structural)]
pub enum RecvProgress {
    /// The last byte read was no NUL: read on from this offset.
    More(usize),
    /// The last byte read was the NUL: the message is this many bytes long.
    Complete(usize),
}

/// One step of reading a NUL-terminated message into `buf`: `off` bytes had
/// arrived before, and the last read placed `read` more after them. A read of
/// nothing means the peer closed the stream. The message is complete when the
/// last byte that arrived is a NUL; it is everything before that byte.
pub fn recv_msg(buf: &[u8], off: usize, read: usize) -> (r: Result<RecvProgress, Error>)
    requires
        off + read <= buf@.len(),
    ensures
        read == 0 ==> r is Err && r->Err_0 is Io,
        read > 0 && buf@[off + read - 1] == 0 ==> r == Ok::<RecvProgress, Error>(RecvProgress::Complete((off + read - 1) as usize)),
        read > 0 && buf@[off + read - 1] != 0 ==> r == Ok::<RecvProgress, Error>(RecvProgress::More((off + read) as usize)),
{
    let _n = buf.len();
    if read == 0 {
        return Err(Error::Io(unexpected_eof()));
    }
    let end = off + read;
    if buf[end - 1] == 0 {
        Ok(RecvProgress::Complete(end - 1))
    } else {
        Ok(RecvProgress::More(end))
    }
}

/// The value of the attribute that starts with `attr` in a SASL attribute
/// list: what follows the first occurrence of `attr`, up to the next comma or
/// the end.
pub open spec fn sasl_value(msg: Seq<u8>, attr: Seq<u8>) -> Option<Seq<u8>> {
    match first_match(msg, attr) {
        None => None,
        Some(i) => {
            let rest = msg.subrange(i + attr.len(), msg.len() as int);
            match first_match(rest, seq![44u8]) {
                Some(j) => Some(rest.subrange(0, j)),
                None => Some(rest),
            }
        },
    }
}

/// Looks up an attribute in a SASL attribute list such as `r=...,s=...,i=...`.
pub fn sasl_get(msg: &[u8], attr: &[u8]) -> (r: Option<Vec<u8>>)
    ensures
        r is Some <==> sasl_value(msg@, attr@) is Some,
        r is Some ==> r->0@ == sasl_value(msg@, attr@)->0,
{
    match find(msg, attr) {
        None => None,
        Some(i) => {
            proof { crate::scan::lemma_first_match_from_found(msg@, attr@, 0); }
            let _n = msg.len();
            let off = i + attr.len();
            let rest = &msg[off..msg.len()];
            let comma: [u8; 1] = [44u8];
            assert(comma@ =~= seq![44u8]);
            let len = match find(rest, &comma) {
                Some(j) => {
                    proof { crate::scan::lemma_first_match_from_found(rest@, comma@, 0); }
                    j
                },
                None => rest.len(),
            };
            let mut out: Vec<u8> = Vec::new();
            out.extend_from_slice(&rest[0..len]);
            assert(rest@.subrange(0, rest@.len() as int) =~= rest@);
            Some(out)
        },
    }
}

/// The text of an optional error message, empty when there is none.
pub open spec fn error_text(e: Option<String>) -> Seq<char> {
    match e {
        Some(s) => s@,
        None => Seq::empty(),
    }
}

impl ServerVersionMessage {
    /// Checks the server's answer to the protocol version. `msg` is the
    /// message as received and `parsed` what it reads as, if it is such an
    /// answer at all. Text that is none is the server's error message; bytes
    /// that are no text, or an answer without success, are an invalid reply.
    pub fn recv(msg: &[u8], parsed: Option<ServerVersionMessage>) -> (r: Result<ServerVersionMessage, Error>)
        ensures
            parsed is None && valid_utf8(msg@) ==> r is Err && r->Err_0 is Auth
                && r->Err_0->Auth_0 is ServerError
                && r->Err_0->Auth_0->code is None
                && r->Err_0->Auth_0->msg@ == decode_utf8(msg@),
            parsed is None && !valid_utf8(msg@) ==> r is Err && r->Err_0 is Auth && r->Err_0->Auth_0 == AuthError::InvalidReply,
            parsed is Some && !parsed->0.success ==> r is Err && r->Err_0 is Auth && r->Err_0->Auth_0 == AuthError::InvalidReply,
            parsed is Some && parsed->0.success ==> r is Ok && r->Ok_0 == parsed->0,
    {
        match parsed {
            None => match utf8_to_string(msg) {
                Some(text) => Err(Error::Auth(AuthError::ServerError { code: None, msg: text })),
                None => Err(Error::Auth(AuthError::InvalidReply)),
            },
            Some(message) => {
                if !message.success {
                    Err(Error::Auth(AuthError::InvalidReply))
                } else {
                    Ok(message)
                }
            },
        }
    }
}

impl ServerMessage {
    /// Checks a message of the server in the SCRAM exchange. `parsed` is what
    /// the received message reads as, if it is such a message at all. One
    /// that is none is an invalid reply; one without success is the server's
    /// error, with its code and its message (empty when there is none).
    pub fn recv(parsed: Option<ServerMessage>) -> (r: Result<ServerMessage, Error>)
        ensures
            parsed is None ==> r is Err && r->Err_0 is Auth && r->Err_0->Auth_0 == AuthError::InvalidReply,
            parsed is Some && !parsed->0.success ==> r is Err && r->Err_0 is Auth
                && r->Err_0->Auth_0 is ServerError
                && r->Err_0->Auth_0->code == parsed->0.error_code
                && r->Err_0->Auth_0->msg@ == error_text(parsed->0.error),
            parsed is Some && parsed->0.success ==> r is Ok && r->Ok_0 == parsed->0,
    {
        match parsed {
            None => Err(Error::Auth(AuthError::InvalidReply)),
            Some(message) => {
                if !message.success {
                    let msg = match message.error {
                        Some(text) => text,
                        None => String::new(),
                    };
                    Err(Error::Auth(AuthError::ServerError { code: message.error_code, msg }))
                } else {
                    Ok(message)
                }
            },
        }
    }
}


/// Every byte of a client nonce is a printable character from `0` to `Z`.
pub open spec fn is_nonce(nonce: Seq<u8>) -> bool {
    nonce.len() == 32 && forall|i: int| 0 <= i < 32 ==> 0x30 <= #[trigger] nonce[i] < 0x5b
}

/// Draws a fresh client nonce: 32 random characters from `0` to `Z`.
pub fn gen_client_nonce() -> (nonce: [u8; 32])
    ensures
        is_nonce(nonce@),
{
    let mut nonce = [0u8; 32];
    let mut i: usize = 0;
    while i < 32
        invariant
            i <= 32,
            forall|t: int| 0 <= t < i ==> 0x30 <= #[trigger] nonce@[t] < 0x5b,
        decreases 32 - i,
    {
        nonce[i] = random_byte_in(0x30, 0x5b);
        i += 1;
    }
    nonce
}

/// The byte-wise exclusive or of two byte strings of the same length.
pub open spec fn xor_bytes(a: Seq<u8>, b: Seq<u8>) -> Seq<u8> {
    Seq::new(a.len(), |i: int| a[i] ^ b[i])
}

/// `SaltedPassword := Hi(password, salt, i)`
pub open spec fn salted_password(password: Seq<u8>, salt: Seq<u8>, i: u32) -> Seq<u8> {
    spec_pbkdf2_hmac_sha256(password, salt, i)
}

/// `ClientKey := HMAC(SaltedPassword, "Client Key")`
pub open spec fn client_key(salted: Seq<u8>) -> Seq<u8> {
    spec_hmac_sha256(salted, "Client Key".spec_bytes())
}

/// `ServerKey := HMAC(SaltedPassword, "Server Key")`
pub open spec fn server_key(salted: Seq<u8>) -> Seq<u8> {
    spec_hmac_sha256(salted, "Server Key".spec_bytes())
}

/// `StoredKey := H(ClientKey)`
pub open spec fn stored_key(client_key: Seq<u8>) -> Seq<u8> {
    spec_sha256(client_key)
}

/// `ClientProof := ClientKey XOR HMAC(StoredKey, AuthMessage)`
pub open spec fn client_proof(password: Seq<u8>, salt: Seq<u8>, i: u32, auth_msg: Seq<u8>) -> Seq<u8> {
    let ck = client_key(salted_password(password, salt, i));
    xor_bytes(ck, spec_hmac_sha256(stored_key(ck), auth_msg))
}

/// `ServerSignature := HMAC(ServerKey, AuthMessage)`
pub open spec fn server_signature(password: Seq<u8>, salt: Seq<u8>, i: u32, auth_msg: Seq<u8>) -> Seq<u8> {
    spec_hmac_sha256(server_key(salted_password(password, salt, i)), auth_msg)
}

/// Derives a key from the salted password and a label.
pub fn gen_key(salted_pwd: [u8; 32], key: &[u8]) -> (k: [u8; 32])
    ensures
        k@ == spec_hmac_sha256(salted_pwd@, key@),
{
    hmac_sha256(&salted_pwd, key)
}

/// The stored key: the hash of the client key.
pub fn gen_stored_key(client_key: [u8; 32]) -> (k: [u8; 32])
    ensures
        k@ == spec_sha256(client_key@),
{
    sha256(&client_key)
}

/// The signature of the authentication message under a key.
pub fn gen_signature(key: [u8; 32], auth_msg: &[u8]) -> (s: [u8; 32])
    ensures
        s@ == spec_hmac_sha256(key@, auth_msg@),
{
    hmac_sha256(&key, auth_msg)
}

/// The client proof and the server signature that the client expects, for a
/// password, a salt, an iteration count and the authentication message.
pub fn gen_client_proof(password: &[u8], salt: &[u8], i: u32, auth_msg: &[u8]) -> (r: ([u8; 32], [u8; 32]))
    ensures
        r.0@ == client_proof(password@, salt@, i, auth_msg@),
        r.1@ == server_signature(password@, salt@, i, auth_msg@),
{
    let salted_pwd = pbkdf2_hmac_sha256(password, salt, i);
    let client_key = gen_key(salted_pwd, "Client Key".as_bytes());
    let server_key = gen_key(salted_pwd, "Server Key".as_bytes());
    let stored_key = gen_stored_key(client_key);
    let client_signature = gen_signature(stored_key, auth_msg);
    let server_signature = gen_signature(server_key, auth_msg);
    let mut client_proof = [0u8; 32];
    let mut k: usize = 0;
    while k < 32
        invariant
            k <= 32,
            forall|t: int| 0 <= t < k ==> #[trigger] client_proof@[t] == client_key@[t] ^ client_signature@[t],
        decreases 32 - k,
    {
        client_proof[k] = client_key[k] ^ client_signature[k];
        k += 1;
    }
    assert(client_proof@ =~= xor_bytes(client_key@, client_signature@));
    (client_proof, server_signature)
}

/// The bytes of the client's first message, NUL-terminated.
pub open spec fn client_first_bytes(user: Seq<u8>, nonce: Seq<u8>) -> Seq<u8> {
    "{\"protocol_version\":0, \"authentication_method\": \"SCRAM-SHA-256\",\"authentication\":\"n,,n=".spec_bytes()
        + user + ",r=".spec_bytes() + nonce + "\"}\0".spec_bytes()
}

/// The combined nonce, the salt and the iteration count that the server's
/// first message names, if it names all three in a readable form.
pub open spec fn scram_params(auth: Seq<u8>) -> Option<(Seq<u8>, Seq<u8>, u32)> {
    match (sasl_value(auth, "r=".spec_bytes()), sasl_value(auth, "s=".spec_bytes()), sasl_value(auth, "i=".spec_bytes())) {
        (Some(r), Some(s), Some(i)) => match (spec_base64_decode(s), parse_unsigned(i, 10, u32::MAX as nat)) {
            (Some(salt), Some(n)) => Some((r, salt, n as u32)),
            _ => None,
        },
        _ => None,
    }
}

/// `AuthMessage := client-first-bare "," server-first "," client-final-without-proof`
pub open spec fn auth_message(user: Seq<u8>, nonce: Seq<u8>, auth: Seq<u8>, combined: Seq<u8>) -> Seq<u8> {
    "n=".spec_bytes() + user + ",r=".spec_bytes() + nonce + ",".spec_bytes() + auth
        + ",c=biws,r=".spec_bytes() + combined
}

/// The bytes of the client's final message, NUL-terminated.
pub open spec fn client_final_bytes(combined: Seq<u8>, proof: Seq<u8>) -> Seq<u8> {
    "{\"authentication\":\"c=biws,r=".spec_bytes() + combined + ",p=".spec_bytes()
        + spec_base64_encode(proof) + "\"}\0".spec_bytes()
}

/// `nonce` opens `combined`.
pub open spec fn starts_with(combined: Seq<u8>, nonce: Seq<u8>) -> bool {
    nonce.len() <= combined.len() && combined.subrange(0, nonce.len() as int) == nonce
}

/// What the server's first message leads to: the client's final message and
/// the server signature to expect, or the reason to stop.
pub open spec fn server_first_outcome(user: Seq<u8>, password: Seq<u8>, nonce: Seq<u8>, auth: Seq<u8>)
    -> Result<(Seq<u8>, Seq<u8>), AuthError>
{
    match scram_params(auth) {
        None => Err(AuthError::InvalidReply),
        Some((combined, salt, iterations)) => {
            if password.len() > 0 && iterations < MIN_ITERATIONS {
                Err(AuthError::InvalidIterationCount)
            } else if !starts_with(combined, nonce) {
                Err(AuthError::InvalidServerNonce)
            } else {
                let am = auth_message(user, nonce, auth, combined);
                Ok((client_final_bytes(combined, client_proof(password, salt, iterations, am)),
                    server_signature(password, salt, iterations, am)))
            }
        },
    }
}

/// What the server's final message leads to: success when its `v=` value
/// decodes to the expected server signature.
pub open spec fn server_final_outcome(expected: Seq<u8>, auth: Seq<u8>) -> Result<(), AuthError> {
    match sasl_value(auth, "v=".spec_bytes()) {
        None => Err(AuthError::InvalidReply),
        Some(v) => match spec_base64_decode(v) {
            None => Err(AuthError::InvalidReply),
            Some(sig) => if sig == expected {
                Ok(())
            } else {
                Err(AuthError::InvalidServerSignature)
            },
        },
    }
}

/// The bytes of a string as prepared by SASLprep, if it can be prepared.
pub open spec fn prepared_bytes(s: Seq<char>) -> Option<Seq<u8>> {
    match spec_saslprep(s) {
        Some(p) => Some(encode_utf8(p)),
        None => None,
    }
}

/// The start of a handshake: the credentials, prepared, and the client nonce.
/// Its opening message is the protocol version; the server answers it with a
/// version message.
pub struct Handshake {
    user: Vec<u8>,
    password: Vec<u8>,
    nonce: Vec<u8>,
}

/// A handshake whose first client message went out; the server answers it
/// with the salt, the iteration count and its nonce.
pub struct AwaitServerFirst {
    user: Vec<u8>,
    password: Vec<u8>,
    nonce: Vec<u8>,
}

/// A handshake whose final client message went out; the server answers it
/// with its signature.
pub struct AwaitServerFinal {
    server_signature: [u8; 32],
}

/// Checks the flag and the attribute list of a message that the exchange
/// needs to go on, and hands back the attribute list as bytes.
fn auth_bytes(parsed: Option<ServerMessage>) -> (r: Result<Vec<u8>, Error>)
    requires
        parsed is Some && parsed->0.success ==> parsed->0.authentication is Some,
    ensures
        parsed is None ==> r is Err && r->Err_0 is Auth && r->Err_0->Auth_0 == AuthError::InvalidReply,
        parsed is Some && !parsed->0.success ==> r is Err && r->Err_0 is Auth
            && r->Err_0->Auth_0 is ServerError
            && r->Err_0->Auth_0->code == parsed->0.error_code
            && r->Err_0->Auth_0->msg@ == error_text(parsed->0.error),
        parsed is Some && parsed->0.success ==> r is Ok && r->Ok_0@ == encode_utf8(parsed->0.authentication->0@),
{
    let message = ServerMessage::recv(parsed)?;
    let auth = message.authentication.unwrap();
    let mut bytes: Vec<u8> = Vec::new();
    bytes.extend_from_slice(auth.as_str().as_bytes());
    Ok(bytes)
}

fn same_bytes(a: &[u8], b: &[u8]) -> (r: bool)
    ensures
        r == (a@ == b@),
{
    if a.len() != b.len() {
        return false;
    }
    let mut i: usize = 0;
    while i < a.len()
        invariant
            a@.len() == b@.len(),
            i <= a@.len(),
            forall|t: int| 0 <= t < i ==> a@[t] == b@[t],
        decreases a@.len() - i,
    {
        if a[i] != b[i] {
            return false;
        }
        i += 1;
    }
    assert(a@ =~= b@);
    true
}

impl Handshake {
    /// The prepared user name.
    pub closed spec fn user_bytes(&self) -> Seq<u8> {
        self.user@
    }

    /// The prepared password.
    pub closed spec fn password_bytes(&self) -> Seq<u8> {
        self.password@
    }

    /// The client nonce.
    pub closed spec fn nonce_bytes(&self) -> Seq<u8> {
        self.nonce@
    }

    /// Starts a handshake with the given credentials and nonce; the
    /// credentials are prepared with SASLprep, and there is no handshake
    /// where one of them cannot be.
    pub fn with_nonce(user: &str, password: &str, nonce: [u8; 32]) -> (r: Option<Handshake>)
        ensures
            r is Some <==> prepared_bytes(user@) is Some && prepared_bytes(password@) is Some,
            r is Some ==> r->0.user_bytes() == prepared_bytes(user@)->0
                && r->0.password_bytes() == prepared_bytes(password@)->0
                && r->0.nonce_bytes() == nonce@,
            is_plain_ascii(user@) && is_plain_ascii(password@) ==> r is Some
                && r->0.user_bytes() == encode_utf8(user@)
                && r->0.password_bytes() == encode_utf8(password@),
            is_plain_ascii(user@) && r is Some ==> r->0.user_bytes() == encode_utf8(user@),
            is_plain_ascii(password@) && r is Some ==> r->0.password_bytes() == encode_utf8(password@),
    {
        let user = match saslprep(user) {
            Some(u) => u,
            None => return None,
        };
        let password = match saslprep(password) {
            Some(p) => p,
            None => return None,
        };
        let mut u: Vec<u8> = Vec::new();
        u.extend_from_slice(user.as_str().as_bytes());
        let mut p: Vec<u8> = Vec::new();
        p.extend_from_slice(password.as_str().as_bytes());
        let mut n: Vec<u8> = Vec::new();
        n.extend_from_slice(&nonce);
        Some(Handshake { user: u, password: p, nonce: n })
    }

    /// Starts a handshake for the user and password of the connection
    /// options (`admin` and the empty password where none is given), with a
    /// fresh random nonce.
    pub fn new(user: Option<&str>, password: Option<&str>) -> (r: Option<Handshake>)
        ensures
            r is Some <==> prepared_bytes(setting_text(user, DEFAULT_USER@)) is Some
                && prepared_bytes(setting_text(password, DEFAULT_PWD@)) is Some,
            r is Some ==> r->0.user_bytes() == prepared_bytes(setting_text(user, DEFAULT_USER@))->0
                && r->0.password_bytes() == prepared_bytes(setting_text(password, DEFAULT_PWD@))->0
                && is_nonce(r->0.nonce_bytes()),
            is_plain_ascii(setting_text(user, DEFAULT_USER@)) && is_plain_ascii(setting_text(password, DEFAULT_PWD@))
                ==> r is Some
                && r->0.user_bytes() == encode_utf8(setting_text(user, DEFAULT_USER@))
                && r->0.password_bytes() == encode_utf8(setting_text(password, DEFAULT_PWD@)),
            user is Some && r is Some ==> r->0.user_bytes() == prepared_bytes(user->0@)->0,
            password is Some && r is Some ==> r->0.password_bytes() == prepared_bytes(password->0@)->0,
            user is Some && is_plain_ascii(user->0@) && r is Some ==> r->0.user_bytes() == encode_utf8(user->0@),
            password is Some && is_plain_ascii(password->0@) && r is Some ==> r->0.password_bytes() == encode_utf8(
                password->0@,
            ),
            user is None && password is None ==> r is Some
                && r->0.user_bytes() == encode_utf8(DEFAULT_USER@)
                && r->0.password_bytes() == encode_utf8(DEFAULT_PWD@),
    {
        proof {
            reveal_strlit("admin");
            reveal_strlit("");
        }
        let nonce = gen_client_nonce();
        let user = match user {
            Some(u) => u,
            None => DEFAULT_USER,
        };
        let password = match password {
            Some(p) => p,
            None => DEFAULT_PWD,
        };
        Self::with_nonce(user, password, nonce)
    }

    /// The opening message: the protocol version, little endian.
    pub fn opening_message(&self) -> (out: Vec<u8>)
        ensures
            out@ == spec_u32_to_le_bytes(VERSION_1_0),
    {
        u32_to_le_bytes(VERSION_1_0)
    }

    /// Takes the server's answer to the protocol version (see
    /// `ServerVersionMessage::recv`) and, where it is a success, goes on with
    /// the client's first message, which it returns to be sent.
    pub fn on_server_version(self, msg: &[u8], parsed: Option<ServerVersionMessage>)
        -> (r: Result<(AwaitServerFirst, Vec<u8>), Error>)
        ensures
            parsed is None && valid_utf8(msg@) ==> r is Err && r->Err_0 is Auth
                && r->Err_0->Auth_0 is ServerError
                && r->Err_0->Auth_0->code is None
                && r->Err_0->Auth_0->msg@ == decode_utf8(msg@),
            parsed is None && !valid_utf8(msg@) ==> r is Err && r->Err_0 is Auth && r->Err_0->Auth_0 == AuthError::InvalidReply,
            parsed is Some && !parsed->0.success ==> r is Err && r->Err_0 is Auth && r->Err_0->Auth_0 == AuthError::InvalidReply,
            parsed is Some && parsed->0.success ==> r is Ok
                && r->Ok_0.1@ == client_first_bytes(self.user_bytes(), self.nonce_bytes())
                && r->Ok_0.0.user_bytes() == self.user_bytes()
                && r->Ok_0.0.password_bytes() == self.password_bytes()
                && r->Ok_0.0.nonce_bytes() == self.nonce_bytes(),
    {
        let _version = ServerVersionMessage::recv(msg, parsed)?;
        let mut out: Vec<u8> = Vec::new();
        out.extend_from_slice(
            "{\"protocol_version\":0, \"authentication_method\": \"SCRAM-SHA-256\",\"authentication\":\"n,,n=".as_bytes(),
        );
        out.extend_from_slice(self.user.as_slice());
        out.extend_from_slice(",r=".as_bytes());
        out.extend_from_slice(self.nonce.as_slice());
        out.extend_from_slice("\"}\0".as_bytes());
        Ok((AwaitServerFirst { user: self.user, password: self.password, nonce: self.nonce }, out))
    }
}

/// The string that an optional setting stands for, with a default.
pub open spec fn setting_text(s: Option<&str>, default: Seq<char>) -> Seq<char> {
    match s {
        Some(v) => v@,
        None => default,
    }
}

/// A setting that is given is used as given, whatever the default; the
/// default stands in only for a setting that is missing.
pub proof fn lemma_given_setting_is_used(v: &str, default: Seq<char>)
    ensures
        setting_text(Some(v), default) == v@,
        setting_text(None, default) == default,
{
}

impl AwaitServerFirst {
    /// The prepared user name.
    pub closed spec fn user_bytes(&self) -> Seq<u8> {
        self.user@
    }

    /// The prepared password.
    pub closed spec fn password_bytes(&self) -> Seq<u8> {
        self.password@
    }

    /// The client nonce.
    pub closed spec fn nonce_bytes(&self) -> Seq<u8> {
        self.nonce@
    }

    /// Takes the server's first message: checks it (see `ServerMessage::recv`),
    /// reads the combined nonce, the salt and the iteration count, refuses a
    /// count below the minimum for a non-empty password and a combined nonce
    /// that does not extend the client's, and otherwise returns the client's
    /// final message with its proof, to be sent.
    pub fn on_server_first(self, parsed: Option<ServerMessage>) -> (r: Result<(AwaitServerFinal, Vec<u8>), Error>)
        requires
            parsed is Some && parsed->0.success ==> parsed->0.authentication is Some,
        ensures
            parsed is None ==> r is Err && r->Err_0 is Auth && r->Err_0->Auth_0 == AuthError::InvalidReply,
            parsed is Some && !parsed->0.success ==> r is Err && r->Err_0 is Auth
                && r->Err_0->Auth_0 is ServerError
                && r->Err_0->Auth_0->code == parsed->0.error_code
                && r->Err_0->Auth_0->msg@ == error_text(parsed->0.error),
            parsed is Some && parsed->0.success ==> ({
                let outcome = server_first_outcome(
                    self.user_bytes(),
                    self.password_bytes(),
                    self.nonce_bytes(),
                    encode_utf8(parsed->0.authentication->0@),
                );
                &&& outcome is Err ==> r is Err && r->Err_0 is Auth && r->Err_0->Auth_0 == outcome->Err_0
                &&& outcome is Ok ==> r is Ok && r->Ok_0.1@ == outcome->Ok_0.0
                    && r->Ok_0.0.expected_signature() == outcome->Ok_0.1
            }),
    {
        let auth = auth_bytes(parsed)?;
        let ghost a = auth@;
        let combined = match sasl_get(&auth, "r=".as_bytes()) {
            Some(v) => v,
            None => return Err(Error::Auth(AuthError::InvalidReply)),
        };
        let salt_text = match sasl_get(&auth, "s=".as_bytes()) {
            Some(v) => v,
            None => return Err(Error::Auth(AuthError::InvalidReply)),
        };
        let iter_text = match sasl_get(&auth, "i=".as_bytes()) {
            Some(v) => v,
            None => return Err(Error::Auth(AuthError::InvalidReply)),
        };
        let salt = match base64_decode(&salt_text) {
            Ok(v) => v,
            Err(_) => return Err(Error::Auth(AuthError::InvalidReply)),
        };
        let iterations: u32 = match parse_unsigned_exec(&iter_text, 10, 0xffff_ffff) {
            Some(v) => {
                assert(v <= 0xffff_ffff);
                v as u32
            },
            None => return Err(Error::Auth(AuthError::InvalidReply)),
        };
        assert(scram_params(a) == Some((combined@, salt@, iterations)));
        if self.password.len() > 0 && iterations < MIN_ITERATIONS {
            return Err(Error::Auth(AuthError::InvalidIterationCount));
        }
        let n = self.nonce.len();
        if n > combined.len() || !same_bytes(&combined.as_slice()[0..n], self.nonce.as_slice()) {
            return Err(Error::Auth(AuthError::InvalidServerNonce));
        }
        let mut auth_msg: Vec<u8> = Vec::new();
        auth_msg.extend_from_slice("n=".as_bytes());
        auth_msg.extend_from_slice(self.user.as_slice());
        auth_msg.extend_from_slice(",r=".as_bytes());
        auth_msg.extend_from_slice(self.nonce.as_slice());
        auth_msg.extend_from_slice(",".as_bytes());
        auth_msg.extend_from_slice(auth.as_slice());
        auth_msg.extend_from_slice(",c=biws,r=".as_bytes());
        auth_msg.extend_from_slice(combined.as_slice());
        let (client_proof, server_signature) = gen_client_proof(
            self.password.as_slice(),
            salt.as_slice(),
            iterations,
            auth_msg.as_slice(),
        );
        let proof_text = base64_encode(&client_proof);
        let mut out: Vec<u8> = Vec::new();
        out.extend_from_slice("{\"authentication\":\"c=biws,r=".as_bytes());
        out.extend_from_slice(combined.as_slice());
        out.extend_from_slice(",p=".as_bytes());
        out.extend_from_slice(proof_text.as_slice());
        out.extend_from_slice("\"}\0".as_bytes());
        assert(auth_msg@ == auth_message(self.user@, self.nonce@, a, combined@));
        assert(out@ == client_final_bytes(combined@, client_proof@));
        assert(starts_with(combined@, self.nonce@));
        Ok((AwaitServerFinal { server_signature }, out))
    }
}

impl AwaitServerFinal {
    /// The server signature that the server must show.
    pub closed spec fn expected_signature(&self) -> Seq<u8> {
        self.server_signature@
    }

    /// Takes the server's final message: checks it (see `ServerMessage::recv`)
    /// and completes the handshake exactly when its `v=` value decodes to the
    /// expected server signature.
    pub fn on_server_final(self, parsed: Option<ServerMessage>) -> (r: Result<(), Error>)
        requires
            parsed is Some && parsed->0.success ==> parsed->0.authentication is Some,
        ensures
            parsed is None ==> r is Err && r->Err_0 is Auth && r->Err_0->Auth_0 == AuthError::InvalidReply,
            parsed is Some && !parsed->0.success ==> r is Err && r->Err_0 is Auth
                && r->Err_0->Auth_0 is ServerError
                && r->Err_0->Auth_0->code == parsed->0.error_code
                && r->Err_0->Auth_0->msg@ == error_text(parsed->0.error),
            parsed is Some && parsed->0.success ==> ({
                let outcome = server_final_outcome(
                    self.expected_signature(),
                    encode_utf8(parsed->0.authentication->0@),
                );
                &&& outcome is Err ==> r is Err && r->Err_0 is Auth && r->Err_0->Auth_0 == outcome->Err_0
                &&& outcome is Ok ==> r is Ok
            }),
    {
        let auth = auth_bytes(parsed)?;
        let text = match sasl_get(&auth, "v=".as_bytes()) {
            Some(v) => v,
            None => return Err(Error::Auth(AuthError::InvalidReply)),
        };
        let received = match base64_decode(&text) {
            Ok(v) => v,
            Err(_) => return Err(Error::Auth(AuthError::InvalidReply)),
        };
        if !same_bytes(received.as_slice(), &self.server_signature) {
            return Err(Error::Auth(AuthError::InvalidServerSignature));
        }
        Ok(())
    }
}

/// What the server checks of a client proof (RFC 5802): the exclusive or of
/// the proof with `HMAC(StoredKey, AuthMessage)` gives back the client key,
/// whose hash is the stored key that the server keeps for the user.
pub proof fn lemma_client_proof_reveals_client_key(password: Seq<u8>, salt: Seq<u8>, i: u32, auth_msg: Seq<u8>)
    ensures
        ({
            let ck = client_key(salted_password(password, salt, i));
            let recovered = xor_bytes(client_proof(password, salt, i, auth_msg), spec_hmac_sha256(stored_key(ck), auth_msg));
            &&& recovered == ck
            &&& stored_key(recovered) == stored_key(ck)
        }),
{
    let ck = client_key(salted_password(password, salt, i));
    let sig = spec_hmac_sha256(stored_key(ck), auth_msg);
    let recovered = xor_bytes(client_proof(password, salt, i, auth_msg), sig);
    assert forall|t: int| 0 <= t < ck.len() implies recovered[t] == ck[t] by {
        let a = ck[t];
        let b = sig[t];
        assert((a ^ b) ^ b == a) by (bit_vector);
    }
    assert(recovered =~= ck);
}

} // verus!
