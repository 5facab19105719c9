//! Secure remote password: the proof that a client knows a password.
use vstd::arithmetic::power;
use vstd::prelude::*;

use sha2::Digest;

use crate::crypto;
use crate::crypto::hash_with_bcrypt;
use crate::encoding;
use crate::encoding::{bcrypt_b64_decode, bcrypt_b64_encode, decode_base64};
use crate::error::ProtonError;
use crate::naturals;
use crate::naturals::{
    int_to_le, nat_below, nat_difference, nat_power, nat_product, nat_remainder, nat_sum,
    power_of_256, small,
};
use crate::numbers;
use crate::numbers::signed_decimal_text;
use crate::openpgp::copy_bytes;
use crate::text;
use crate::text::{
    chars_of, concat2, copy_text, find_char, find_pattern, string_of, trimmed, utf8_bytes,
};

verus! {

/// An authentication error with a message.
pub open spec fn is_auth(e: ProtonError, message: Seq<char>) -> bool {
    e matches ProtonError::Auth(m) && m@ == message
}

// ---------------------------------------------------------------------
// Hashes
// ---------------------------------------------------------------------

/// The SHA-512 digest of bytes.
pub uninterp spec fn sha512(data: Seq<u8>) -> Seq<u8>;

/// `sha2::Sha512::digest`: 64 bytes. The digest itself is only named.
#[verifier::external_body]
fn sha512_of(data: &Vec<u8>) -> (r: Vec<u8>)
    ensures
        r@ == sha512(data@),
        r@.len() == 64,
{
    sha2::Sha512::digest(data).to_vec()
}

/// 256 bytes: the digests of the data with 0, 1, 2 and 3 behind it.
pub open spec fn expanded(data: Seq<u8>) -> Seq<u8> {
    sha512(data.push(0)) + sha512(data.push(1)) + sha512(data.push(2)) + sha512(data.push(3))
}

fn append_bytes(out: &mut Vec<u8>, more: &Vec<u8>)
    ensures
        final(out)@ == old(out)@ + more@,
{
    let mut i: usize = 0;
    let ghost start = out@;
    assert(start + more@.take(0) =~= start);
    while i < more.len()
        invariant
            i <= more@.len(),
            out@ == start + more@.take(i as int),
        decreases more@.len() - i,
    {
        assert(start + more@.take(i + 1) =~= (start + more@.take(i as int)).push(more@[i as int]));
        out.push(more[i]);
        i = i + 1;
    }
    assert(more@.take(more@.len() as int) =~= more@);
}

fn joined(a: &Vec<u8>, b: &Vec<u8>) -> (r: Vec<u8>)
    ensures
        r@ == a@ + b@,
{
    let mut out: Vec<u8> = copy_bytes(a);
    append_bytes(&mut out, b);
    out
}

fn digest_with(data: &Vec<u8>, last: u8) -> (r: Vec<u8>)
    ensures
        r@ == sha512(data@.push(last)),
        r@.len() == 64,
{
    let mut d: Vec<u8> = copy_bytes(data);
    d.push(last);
    sha512_of(&d)
}

/// Expands data to 256 bytes.
pub fn expand_hash(data: &Vec<u8>) -> (r: Vec<u8>)
    ensures
        r@ == expanded(data@),
        r@.len() == 256,
{
    let mut out: Vec<u8> = digest_with(data, 0);
    append_bytes(&mut out, &digest_with(data, 1));
    append_bytes(&mut out, &digest_with(data, 2));
    append_bytes(&mut out, &digest_with(data, 3));
    out
}

// ---------------------------------------------------------------------
// The modulus
// ---------------------------------------------------------------------

/// The text behind the first `c`, none without one.
pub open spec fn behind(s: Seq<char>, c: char) -> Option<Seq<char>> {
    if text::has_char(s, c) {
        Some(s.skip(text::find(s, c) + 1))
    } else {
        None
    }
}

/// The payload of a clear-signed message: what stands between the second
/// line end behind the header and the signature, trimmed; or the message why
/// there is none.
pub open spec fn clearsign_payload(msg: Seq<char>) -> Result<Seq<char>, Seq<char>> {
    let header = "-----BEGIN PGP SIGNED MESSAGE-----"@;
    match text::find_text(msg, header) {
        None => Err("No PGP signed message header"@),
        Some(at) => match behind(msg.skip(at + header.len()), '\n') {
            None => Err("No newline after header"@),
            Some(rest) => match behind(rest, '\n') {
                None => Err("No blank line"@),
                Some(payload) => match text::find_text(payload, "-----BEGIN PGP SIGNATURE-----"@) {
                    None => Err("No PGP signature block"@),
                    Some(end) => Ok(text::trim(payload.take(end))),
                },
            },
        },
    }
}

/// Cuts off everything up to and with the first `c` behind `from`.
fn behind_char(v: &Vec<char>, from: usize, c: char) -> (r: Option<usize>)
    requires
        from <= v@.len(),
    ensures
        match r {
            Some(k) => from <= k <= v@.len() && behind(v@.skip(from as int), c) == Some(
                v@.skip(k as int),
            ),
            None => behind(v@.skip(from as int), c) is None,
        },
{
    let k: usize = find_char(v, from, c);
    let ghost rest = v@.skip(from as int);
    proof {
        text::lemma_find(rest, c);
    }
    if k < v.len() {
        assert(rest[text::find(rest, c)] == c);
        assert(rest.skip(text::find(rest, c) + 1) =~= v@.skip(k + 1));
        Some(k + 1)
    } else {
        None
    }
}

/// Extracts the payload of a clear-signed message.
pub fn extract_clearsign_payload(msg: &str) -> (r: Result<String, ProtonError>)
    ensures
        match r {
            Ok(p) => clearsign_payload(msg@) == Ok::<Seq<char>, Seq<char>>(p@),
            Err(e) => clearsign_payload(msg@) matches Err(m) && is_auth(e, m),
        },
{
    let v: Vec<char> = chars_of(msg);
    let header: Vec<char> = chars_of("-----BEGIN PGP SIGNED MESSAGE-----");
    let sig: Vec<char> = chars_of("-----BEGIN PGP SIGNATURE-----");
    assert(v@.skip(0) =~= v@);
    let at: usize = match find_pattern(&v, 0, &header) {
        Some(k) => k,
        None => return Err(ProtonError::Auth(copy_text("No PGP signed message header"))),
    };
    proof {
        text::lemma_find_text(v@, header@);
    }
    let first: usize = match behind_char(&v, at + header.len(), '\n') {
        Some(k) => k,
        None => return Err(ProtonError::Auth(copy_text("No newline after header"))),
    };
    let second: usize = match behind_char(&v, first, '\n') {
        Some(k) => k,
        None => return Err(ProtonError::Auth(copy_text("No blank line"))),
    };
    let end: usize = match find_pattern(&v, second, &sig) {
        Some(k) => k,
        None => return Err(ProtonError::Auth(copy_text("No PGP signature block"))),
    };
    proof {
        text::lemma_find_text(v@.skip(second as int), sig@);
    }
    let payload: String = string_of(&v, second, end);
    assert(payload@ =~= v@.skip(second as int).take(end - second));
    Ok(trimmed(payload.as_str()))
}

/// The bytes of base64, or the message that it is none.
pub open spec fn decoded(s: Seq<char>) -> Result<Seq<u8>, Seq<char>> {
    match encoding::base64_bytes(s) {
        Some(b) => Ok(b),
        None => Err("Base64 decode: "@ + encoding::base64_error(s)),
    }
}

/// Decodes base64.
pub fn b64_decode(s: &str) -> (r: Result<Vec<u8>, ProtonError>)
    ensures
        match r {
            Ok(b) => decoded(s@) == Ok::<Seq<u8>, Seq<char>>(b@),
            Err(e) => decoded(s@) matches Err(m) && is_auth(e, m),
        },
{
    match decode_base64(s) {
        Ok(b) => Ok(b),
        Err(e) => Err(ProtonError::Auth(concat2("Base64 decode: ", e.as_str()))),
    }
}

/// The modulus in a clear-signed message, or the message why there is none.
pub open spec fn modulus_of(signed: Seq<char>) -> Result<Seq<u8>, Seq<char>> {
    match clearsign_payload(signed) {
        Ok(payload) => decoded(text::trim(payload)),
        Err(m) => Err(m),
    }
}

/// Decodes the modulus of a clear-signed message.
pub fn decode_modulus(signed_modulus: &str) -> (r: Result<Vec<u8>, ProtonError>)
    ensures
        match r {
            Ok(b) => modulus_of(signed_modulus@) == Ok::<Seq<u8>, Seq<char>>(b@),
            Err(e) => modulus_of(signed_modulus@) matches Err(m) && is_auth(e, m),
        },
{
    match extract_clearsign_payload(signed_modulus) {
        Ok(payload) => {
            let inner: String = trimmed(payload.as_str());
            b64_decode(inner.as_str())
        },
        Err(e) => Err(e),
    }
}

// ---------------------------------------------------------------------
// The hashed password
// ---------------------------------------------------------------------

/// The salt with `proton` behind it.
pub open spec fn extended_salt(salt: Seq<u8>) -> Seq<u8> {
    salt + seq![112u8, 114, 111, 116, 111, 110]
}

/// The hash of a password: its bcrypt hash with the first 16 bytes of the
/// extended salt, expanded together with the modulus.
pub open spec fn hashed_v3(password: Seq<u8>, salt: Seq<u8>, modulus: Seq<u8>) -> Seq<u8> {
    let salt16 = extended_salt(salt).take(16);
    expanded(
        vstd::utf8::encode_utf8(
            crypto::bcrypt_hash(10, salt16, crypto::bcrypt_digest(password, 10, salt16)),
        ) + modulus,
    )
}

/// Hashes a password as versions 3 and 4 of the protocol do.
pub fn hash_password_v3(password: &[u8], salt: &Vec<u8>, modulus: &Vec<u8>) -> (r: Result<
    Vec<u8>,
    ProtonError,
>)
    requires
        salt@.len() >= 10,
    ensures
        r matches Ok(h) && h@ == hashed_v3(password@, salt@, modulus@) && h@.len() == 256,
{
    let mut extended: Vec<u8> = copy_bytes(salt);
    extended.push(112);
    extended.push(114);
    extended.push(111);
    extended.push(116);
    extended.push(111);
    extended.push(110);
    assert(extended@ =~= extended_salt(salt@));
    let encoded: String = bcrypt_b64_encode(&extended);
    proof {
        encoding::law_salt_is_first_bytes(extended@);
    }
    let chars: Vec<char> = chars_of(encoded.as_str());
    let head: String = string_of(&chars, 0, 22);
    assert(head@ =~= encoded@.take(22));
    let salt16: Vec<u8> = bcrypt_b64_decode(head.as_str())?;
    let hash: String = hash_with_bcrypt(password, 10, &salt16);
    let bytes: Vec<u8> = utf8_bytes(hash.as_str());
    Ok(expand_hash(&joined(&bytes, modulus)))
}

/// The hash of a password by the version of the protocol.
pub open spec fn hashed(version: int, password: Seq<u8>, salt: Seq<u8>, modulus: Seq<u8>) -> Result<
    Seq<u8>,
    Seq<char>,
> {
    if version == 3 || version == 4 {
        Ok(hashed_v3(password, salt, modulus))
    } else {
        Err("Unsupported auth version: "@ + numbers::signed_decimal(version))
    }
}

/// Hashes a password.
pub fn hash_password(version: i64, password: &[u8], salt: &Vec<u8>, modulus: &Vec<u8>) -> (r:
    Result<Vec<u8>, ProtonError>)
    requires
        version == 3 || version == 4 ==> salt@.len() >= 10,
    ensures
        match r {
            Ok(h) => hashed(version as int, password@, salt@, modulus@) == Ok::<
                Seq<u8>,
                Seq<char>,
            >(h@),
            Err(e) => hashed(version as int, password@, salt@, modulus@) matches Err(m)
                && is_auth(e, m),
        },
{
    if version == 4 || version == 3 {
        hash_password_v3(password, salt, modulus)
    } else {
        let number: String = signed_decimal_text(version);
        Err(ProtonError::Auth(concat2("Unsupported auth version: ", number.as_str())))
    }
}

// ---------------------------------------------------------------------
// Proofs
// ---------------------------------------------------------------------

/// What the server sends before a login.
#[allow(non_snake_case)]
pub struct AuthInfo {
    pub Modulus: String,
    pub ServerEphemeral: String,
    pub Version: i64,
    pub Salt: String,
    pub SRPSession: String,
}

/// A login under way.
pub struct SrpAuth {
    pub modulus: Vec<u8>,
    pub server_ephemeral: Vec<u8>,
    pub hashed_password: Vec<u8>,
    pub srp_session: String,
}

/// What the client sends back.
pub struct SrpProofs {
    pub client_ephemeral: Vec<u8>,
    pub client_proof: Vec<u8>,
    pub srp_session: String,
}

/// What an [`SrpAuth`] holds.
#[verifier::ext_equal]
pub struct SrpModel {
    pub modulus: Seq<u8>,
    pub server_ephemeral: Seq<u8>,
    pub hashed_password: Seq<u8>,
    pub session: Seq<char>,
}

impl View for SrpAuth {
    type V = SrpModel;

    open spec fn view(&self) -> SrpModel {
        SrpModel {
            modulus: self.modulus@,
            server_ephemeral: self.server_ephemeral@,
            hashed_password: self.hashed_password@,
            session: self.srp_session@,
        }
    }
}

/// The login that what the server sent makes possible, or the message why
/// there is none.
pub open spec fn srp_of(
    password: Seq<char>,
    modulus: Seq<char>,
    ephemeral: Seq<char>,
    version: int,
    salt: Seq<char>,
    session: Seq<char>,
) -> Result<SrpModel, Seq<char>> {
    match modulus_of(modulus) {
        Err(m) => Err(m),
        Ok(n) => match decoded(ephemeral) {
            Err(m) => Err(m),
            Ok(b) => match decoded(salt) {
                Err(m) => Err(m),
                Ok(s) => match hashed(version, vstd::utf8::encode_utf8(password), s, n) {
                    Err(m) => Err(m),
                    Ok(h) => Ok(
                        SrpModel {
                            modulus: n,
                            server_ephemeral: b,
                            hashed_password: h,
                            session,
                        },
                    ),
                },
            },
        },
    }
}

/// Whether a salt is long enough, where it is base64 at all.
pub open spec fn salt_reaches(salt: Seq<char>) -> bool {
    encoding::base64_bytes(salt) matches Some(b) ==> b.len() >= 10
}

pub fn srp_salt_is_usable(salt: &str) -> (r: bool)
    ensures
        r == salt_reaches(salt@),
{
    match decode_base64(salt) {
        Ok(b) => b.len() >= 10,
        Err(_) => true,
    }
}

/// Bytes of a length of bits.
pub open spec fn byte_len(bit_length: usize) -> nat {
    (bit_length / 8) as nat
}

/// Whether numbers under a modulus fit in a length, and secrets above 64 bits
/// are under it.
pub open spec fn modulus_fits(modulus: Seq<u8>, bit_length: usize) -> bool {
    0x1_0000_0000_0000_0001 < naturals::le_value(modulus) <= power::pow(256, byte_len(bit_length))
}

/// Whether proofs can be made with a modulus.
pub fn modulus_is_usable(modulus: &Vec<u8>, bit_length: usize) -> (r: bool)
    ensures
        r == modulus_fits(modulus@, bit_length),
{
    let low: Vec<u8> = nat_sum(&largest_u64(), &small(2));
    let high: Vec<u8> = power_of_256(bit_length / 8);
    nat_below(&low, modulus) && !nat_below(&high, modulus)
}

/// The multiplier of the protocol: the hash of generator and modulus.
pub open spec fn multiplier(modulus: Seq<u8>, len: nat) -> nat {
    naturals::le_value(expanded(naturals::le_bytes(2, len) + modulus))
}

/// The scrambler: the hash of both ephemeral values.
pub open spec fn scrambler(client: Seq<u8>, server: Seq<u8>) -> nat {
    naturals::le_value(expanded(client + server))
}

/// The secret that the client shares with the server.
pub open spec fn client_shared(auth: SrpModel, secret: nat, len: nat) -> int {
    let n = naturals::le_value(auth.modulus) as int;
    let a = client_public(auth, secret, len);
    let u = scrambler(a, auth.server_ephemeral);
    let x = naturals::le_value(auth.hashed_password);
    let kv = (multiplier(auth.modulus, len) * (power::pow(2, x) % n)) % n;
    let base = (naturals::le_value(auth.server_ephemeral) + n - kv) % n;
    let exp = ((secret + u * x) as int) % (n - 1);
    power::pow(base, exp as nat) % n
}

/// The ephemeral value of the client: the generator to the power of its
/// secret.
pub open spec fn client_public(auth: SrpModel, secret: nat, len: nat) -> Seq<u8> {
    naturals::le_bytes(
        (power::pow(2, secret) % (naturals::le_value(auth.modulus) as int)) as nat,
        len,
    )
}

/// The proof: the hash of both ephemeral values and the shared secret.
pub open spec fn client_proof(auth: SrpModel, secret: nat, len: nat) -> Seq<u8> {
    expanded(
        client_public(auth, secret, len) + auth.server_ephemeral + naturals::le_bytes(
            client_shared(auth, secret, len) as nat,
            len,
        ),
    )
}

/// Secrets that a client may take: above 64 bits and under the modulus.
pub open spec fn secret_fits(secret: nat, modulus: nat) -> bool {
    0xffff_ffff_ffff_ffff < secret < modulus - 1
}

/// `getrandom::getrandom`: random bytes, none where the system has none.
#[verifier::external_body]
pub(crate) fn random_bytes(len: usize) -> (r: Option<Vec<u8>>)
    ensures
        r matches Some(b) ==> b@.len() == len,
{
    let mut buf = vec![0u8; len];
    getrandom::getrandom(&mut buf).ok()?;
    Some(buf)
}

fn largest_u64() -> (r: Vec<u8>)
    ensures
        naturals::le_value(r@) == 0xffff_ffff_ffff_ffff,
{
    let mut out: Vec<u8> = Vec::new();
    out.push(255);
    out.push(255);
    out.push(255);
    out.push(255);
    out.push(255);
    out.push(255);
    out.push(255);
    out.push(255);
    proof {
        reveal_with_fuel(naturals::le_value, 9);
        let s = out@;
        assert(s.skip(1).skip(1).skip(1).skip(1).skip(1).skip(1).skip(1).skip(1).len() == 0);
        assert(s.skip(1).skip(1).skip(1).skip(1).skip(1).skip(1).skip(1)[0] == 255);
        assert(s.skip(1).skip(1).skip(1).skip(1).skip(1).skip(1)[0] == 255);
        assert(s.skip(1).skip(1).skip(1).skip(1).skip(1)[0] == 255);
        assert(s.skip(1).skip(1).skip(1).skip(1)[0] == 255);
        assert(s.skip(1).skip(1).skip(1)[0] == 255);
        assert(s.skip(1).skip(1)[0] == 255);
        assert(s.skip(1)[0] == 255);
    }
    out
}

/// Whether a drawn number can be the secret of a client.
pub fn accepts_secret(secret: &Vec<u8>, modulus: &Vec<u8>) -> (r: bool)
    requires
        naturals::le_value(modulus@) > 0,
    ensures
        r == secret_fits(naturals::le_value(secret@), naturals::le_value(modulus@)),
{
    let max: Vec<u8> = nat_difference(modulus, &small(1));
    nat_below(secret, &max) && nat_below(&largest_u64(), secret)
}

/// What a draw of random bytes leads to.
pub enum Drawn {
    /// They can be a secret: the proofs that it gives.
    Proofs(SrpProofs),
    /// They cannot be a secret: others have to be drawn.
    Again,
    /// There were none.
    Failed(ProtonError),
}

impl SrpAuth {
    /// Takes in what the server sent.
    pub fn new(password: &str, info: &AuthInfo) -> (r: Result<Self, ProtonError>)
        requires
            info.Version == 3 || info.Version == 4 ==> salt_reaches(info.Salt@),
        ensures
            match r {
                Ok(auth) => srp_of(
                    password@,
                    info.Modulus@,
                    info.ServerEphemeral@,
                    info.Version as int,
                    info.Salt@,
                    info.SRPSession@,
                ) == Ok::<SrpModel, Seq<char>>(auth@),
                Err(e) => srp_of(
                    password@,
                    info.Modulus@,
                    info.ServerEphemeral@,
                    info.Version as int,
                    info.Salt@,
                    info.SRPSession@,
                ) matches Err(m) && is_auth(e, m),
            },
    {
        let modulus: Vec<u8> = match decode_modulus(info.Modulus.as_str()) {
            Ok(b) => b,
            Err(e) => return Err(e),
        };
        let server_ephemeral: Vec<u8> = match b64_decode(info.ServerEphemeral.as_str()) {
            Ok(b) => b,
            Err(e) => return Err(e),
        };
        let salt: Vec<u8> = match b64_decode(info.Salt.as_str()) {
            Ok(b) => b,
            Err(e) => return Err(e),
        };
        let hashed_password: Vec<u8> = match hash_password(
            info.Version,
            password.as_bytes(),
            &salt,
            &modulus,
        ) {
            Ok(h) => h,
            Err(e) => return Err(e),
        };
        Ok(
            SrpAuth {
                modulus,
                server_ephemeral,
                hashed_password,
                srp_session: copy_text(info.SRPSession.as_str()),
            },
        )
    }

    /// The proofs of a client with a given secret.
    pub fn proofs_with_secret(&self, bit_length: usize, secret: &Vec<u8>) -> (r: SrpProofs)
        requires
            1 < naturals::le_value(self.modulus@) <= power::pow(256, byte_len(bit_length)),
        ensures
            r.client_ephemeral@ == client_public(
                self@,
                naturals::le_value(secret@),
                byte_len(bit_length),
            ),
            r.client_proof@ == client_proof(
                self@,
                naturals::le_value(secret@),
                byte_len(bit_length),
            ),
            r.srp_session@ == self.srp_session@,
    {
        let len: usize = bit_length / 8;
        let n: &Vec<u8> = &self.modulus;
        let order: Vec<u8> = nat_difference(n, &small(1));
        let g: Vec<u8> = small(2);
        let client_ephemeral: Vec<u8> = int_to_le(len, &nat_power(&g, secret, n));
        let u: Vec<u8> = expand_hash(&joined(&client_ephemeral, &self.server_ephemeral));
        let k: Vec<u8> = expand_hash(&joined(&int_to_le(len, &g), n));
        let x: &Vec<u8> = &self.hashed_password;
        let v: Vec<u8> = nat_power(&g, x, n);
        let kv: Vec<u8> = nat_remainder(&nat_product(&k, &v), n);
        proof {
            let m = naturals::le_value(n@) as int;
            vstd::arithmetic::div_mod::lemma_mod_bound(
                (naturals::le_value(k@) * naturals::le_value(v@)) as int,
                m,
            );
        }
        let base: Vec<u8> = nat_remainder(
            &nat_difference(&nat_sum(&self.server_ephemeral, n), &kv),
            n,
        );
        let exp: Vec<u8> = nat_remainder(&nat_sum(secret, &nat_product(&u, x)), &order);
        let shared: Vec<u8> = int_to_le(len, &nat_power(&base, &exp, n));
        let both: Vec<u8> = joined(&client_ephemeral, &self.server_ephemeral);
        let client_proof: Vec<u8> = expand_hash(&joined(&both, &shared));
        SrpProofs {
            client_ephemeral,
            client_proof,
            srp_session: copy_text(self.srp_session.as_str()),
        }
    }

    /// What a draw of random bytes, or that the system gave none, leads to.
    pub fn proofs_of_draw(&self, bit_length: usize, drawn: Option<Vec<u8>>) -> (r: Drawn)
        requires
            modulus_fits(self.modulus@, bit_length),
            drawn matches Some(b) ==> b@.len() == byte_len(bit_length),
        ensures
            match drawn {
                None => r matches Drawn::Failed(e) && is_auth(e, "RNG"@),
                Some(b) => if secret_fits(
                    naturals::le_value(b@),
                    naturals::le_value(self.modulus@),
                ) {
                    &&& r matches Drawn::Proofs(p)
                    &&& p.client_ephemeral@ == client_public(
                        self@,
                        naturals::le_value(b@),
                        byte_len(bit_length),
                    )
                    &&& p.client_proof@ == client_proof(
                        self@,
                        naturals::le_value(b@),
                        byte_len(bit_length),
                    )
                    &&& p.srp_session@ == self.srp_session@
                } else {
                    r is Again
                },
            },
    {
        match drawn {
            None => Drawn::Failed(ProtonError::Auth(copy_text("RNG"))),
            Some(secret) => if accepts_secret(&secret, &self.modulus) {
                Drawn::Proofs(self.proofs_with_secret(bit_length, &secret))
            } else {
                Drawn::Again
            },
        }
    }

    /// Draws a secret and makes the proofs of the client, as
    /// [`SrpAuth::proofs_of_draw`] says for each draw. It fails only where the
    /// system gives no random bytes.
    pub fn generate_proofs(&self, bit_length: usize) -> (r: Result<SrpProofs, ProtonError>)
        requires
            modulus_fits(self.modulus@, bit_length),
        ensures
            match r {
                Ok(p) => exists|secret: nat|
                    {
                        &&& #[trigger] secret_fits(secret, naturals::le_value(self.modulus@))
                        &&& p.client_ephemeral@ == client_public(
                            self@,
                            secret,
                            byte_len(bit_length),
                        )
                        &&& p.client_proof@ == client_proof(self@, secret, byte_len(bit_length))
                        &&& p.srp_session@ == self.srp_session@
                    },
                Err(e) => is_auth(e, "RNG"@),
            },
    {
        let len: usize = bit_length / 8;
        let mut tries: u64 = u64::MAX;
        while tries > 0
            invariant
                len == bit_length / 8,
                modulus_fits(self.modulus@, bit_length),
            decreases tries,
        {
            let drawn: Option<Vec<u8>> = random_bytes(len);
            match self.proofs_of_draw(bit_length, drawn) {
                Drawn::Proofs(p) => return Ok(p),
                Drawn::Again => {},
                Drawn::Failed(e) => return Err(e),
            }
            tries = tries - 1;
        }
        Err(ProtonError::Auth(copy_text("RNG")))
    }
}

// ---------------------------------------------------------------------
// Agreement
// ---------------------------------------------------------------------

/// What the server keeps of a password: the generator to the power of its
/// hash.
pub open spec fn verifier_of(auth: SrpModel) -> int {
    power::pow(2, naturals::le_value(auth.hashed_password)) % (naturals::le_value(
        auth.modulus,
    ) as int)
}

/// The secret that the server shares with the client, from its own secret,
/// the verifier and the client's ephemeral value.
pub open spec fn server_shared(auth: SrpModel, secret: nat, server_secret: nat, len: nat) -> int {
    let n = naturals::le_value(auth.modulus) as int;
    let a = client_public(auth, secret, len);
    let u = scrambler(a, auth.server_ephemeral);
    power::pow(
        naturals::le_value(a) * power::pow(verifier_of(auth), u),
        server_secret,
    ) % n
}

/// A power whose exponent shrinks by a multiple of an order stays the same
/// under the modulus.
proof fn lemma_reduce_exponent(base: int, e: nat, order: nat, n: int)
    requires
        n > 1,
        order > 0,
        power::pow(base, order) % n == 1,
    ensures
        power::pow(base, e % order) % n == power::pow(base, e) % n,
{
    let q = e / order;
    let r = e % order;
    vstd::arithmetic::div_mod::lemma_fundamental_div_mod(e as int, order as int);
    assert(e == order * q + r);
    let oq = (order * q) as nat;
    power::lemma_pow_adds(base, oq, r);
    power::lemma_pow_multiplies(base, order, q);
    let whole = power::pow(power::pow(base, order), q);
    power::lemma_pow_mod_noop(power::pow(base, order), q, n);
    power::lemma1_pow(q);
    assert(whole % n == 1) by {
        vstd::arithmetic::div_mod::lemma_small_mod(1, n as nat);
    }
    let tail = power::pow(base, r);
    vstd::arithmetic::div_mod::lemma_mul_mod_noop_left(whole, tail, n);
    assert((whole * tail) % n == ((whole % n) * tail) % n);
}

/// Client and server share the same secret: where the server's ephemeral
/// value is the one that the protocol asks for, and the powers of the
/// generator come round under the modulus, as under every odd prime.
pub proof fn law_server_agrees(auth: SrpModel, secret: nat, server_secret: nat, len: nat)
    requires
        2 < naturals::le_value(auth.modulus) <= power::pow(256, len),
        power::pow(2, (naturals::le_value(auth.modulus) - 1) as nat) % (naturals::le_value(
            auth.modulus,
        ) as int) == 1,
        naturals::le_value(auth.server_ephemeral) == (multiplier(auth.modulus, len) * verifier_of(
            auth,
        ) + power::pow(2, server_secret)) % (naturals::le_value(auth.modulus) as int),
    ensures
        client_shared(auth, secret, len) == server_shared(auth, secret, server_secret, len),
{
    let n = naturals::le_value(auth.modulus) as int;
    let order = (n - 1) as nat;
    let a = client_public(auth, secret, len);
    let ga = power::pow(2, secret) % n;
    let u = scrambler(a, auth.server_ephemeral);
    let x = naturals::le_value(auth.hashed_password);
    let v = verifier_of(auth);
    let k = multiplier(auth.modulus, len);
    let gb = power::pow(2, server_secret);
    let kv = (k * v) % n;
    let sum = (secret + u * x) as nat;
    let e = sum % order;
    vstd::arithmetic::div_mod::lemma_mod_bound(power::pow(2, secret), n);
    naturals::law_bytes_keep_value(ga as nat, len);
    assert(naturals::le_value(a) == ga);
    // The base of the client is the public part of the server's secret.
    let big = (k * v + gb) % n;
    let base = (big + n - kv) % n;
    assert(base == gb % n) by {
        vstd::arithmetic::div_mod::lemma_fundamental_div_mod(k * v, n);
        vstd::arithmetic::div_mod::lemma_fundamental_div_mod(k * v + gb, n);
        let q1 = (k * v) / n;
        let q2 = (k * v + gb) / n;
        assert(big + n - kv == gb + n * (q1 - q2 + 1)) by (nonlinear_arith)
            requires
                k * v == n * q1 + kv,
                k * v + gb == n * q2 + big,
        ;
        vstd::arithmetic::div_mod::lemma_mod_multiples_vanish(q1 - q2 + 1, gb, n);
    }
    // Both sides are the same power of the generator.
    power::lemma_pow_mod_noop(gb, e, n);
    power::lemma_pow_multiplies(2, server_secret, e);
    power::lemma_pow_multiplies(2, e, server_secret);
    assert(server_secret * e == e * server_secret) by (nonlinear_arith);
    assert(client_shared(auth, secret, len) == power::pow(power::pow(2, e), server_secret) % n);
    lemma_reduce_exponent(2, sum, order, n);
    power::lemma_pow_mod_noop(power::pow(2, e), server_secret, n);
    power::lemma_pow_mod_noop(power::pow(2, sum), server_secret, n);
    let whole = power::pow(2, sum);
    assert(client_shared(auth, secret, len) == power::pow(whole, server_secret) % n);
    let gx = power::pow(2, x);
    power::lemma_pow_adds(2, secret, (u * x) as nat);
    power::lemma_pow_multiplies(2, x, u);
    assert(x * u == u * x) by (nonlinear_arith);
    assert(whole == power::pow(2, secret) * power::pow(gx, u));
    power::lemma_pow_mod_noop(gx, u, n);
    let vu = power::pow(v, u);
    assert(whole % n == (ga * vu) % n) by {
        vstd::arithmetic::div_mod::lemma_mul_mod_noop(
            power::pow(2, secret),
            power::pow(gx, u),
            n,
        );
        vstd::arithmetic::div_mod::lemma_mul_mod_noop_right(ga, vu, n);
    }
    power::lemma_pow_mod_noop(ga * vu, server_secret, n);
}

/// The hash of the protocol: the four digests of data with its number behind
/// it.
pub open spec fn four_digests(d: Seq<u8>) -> Seq<u8> {
    sha512(d + seq![0u8]) + sha512(d + seq![1u8]) + sha512(d + seq![2u8]) + sha512(d + seq![3u8])
}

/// The proof of the client is the one that the server works out for itself:
/// from its own secret and what it keeps of the password, with generator 2 and
/// the client's value as it came. The server's value is the one that the
/// protocol asks for, and the powers of the generator come round under the
/// modulus, as under every odd prime.
pub proof fn law_server_accepts_proof(auth: SrpModel, secret: nat, server_secret: nat, len: nat)
    requires
        2 < naturals::le_value(auth.modulus) <= power::pow(256, len),
        power::pow(2, (naturals::le_value(auth.modulus) - 1) as nat) % (naturals::le_value(
            auth.modulus,
        ) as int) == 1,
        ({
            let n = naturals::le_value(auth.modulus) as int;
            let kept = power::pow(2, naturals::le_value(auth.hashed_password)) % n;
            let k = naturals::le_value(four_digests(naturals::le_bytes(2, len) + auth.modulus));
            naturals::le_value(auth.server_ephemeral) == (k * kept + power::pow(2, server_secret))
                % n
        }),
    ensures
        ({
            let n = naturals::le_value(auth.modulus) as int;
            let kept = power::pow(2, naturals::le_value(auth.hashed_password)) % n;
            let sent = client_public(auth, secret, len);
            let u = naturals::le_value(four_digests(sent + auth.server_ephemeral));
            let shared = power::pow(
                naturals::le_value(sent) * power::pow(kept, u),
                server_secret,
            ) % n;
            &&& naturals::le_value(sent) == power::pow(2, secret) % n
            &&& client_proof(auth, secret, len) == four_digests(
                sent + auth.server_ephemeral + naturals::le_bytes(shared as nat, len),
            )
        }),
{
    let n = naturals::le_value(auth.modulus) as int;
    let sent = client_public(auth, secret, len);
    lemma_four_digests(naturals::le_bytes(2, len) + auth.modulus);
    lemma_four_digests(sent + auth.server_ephemeral);
    law_server_agrees(auth, secret, server_secret, len);
    vstd::arithmetic::div_mod::lemma_mod_bound(power::pow(2, secret), n);
    naturals::law_bytes_keep_value((power::pow(2, secret) % n) as nat, len);
    let shared = client_shared(auth, secret, len);
    lemma_four_digests(
        sent + auth.server_ephemeral + naturals::le_bytes(shared as nat, len),
    );
}

proof fn lemma_four_digests(d: Seq<u8>)
    ensures
        expanded(d) == four_digests(d),
{
    assert(d.push(0) =~= d + seq![0u8]);
    assert(d.push(1) =~= d + seq![1u8]);
    assert(d.push(2) =~= d + seq![2u8]);
    assert(d.push(3) =~= d + seq![3u8]);
}

/// A password is hashed the same way in versions 3 and 4, and not at all in
/// any other. Of the salt, with its word behind it, the first 16 bytes count.
pub proof fn law_hashed_password(
    version: int,
    password: Seq<u8>,
    salt: Seq<u8>,
    modulus: Seq<u8>,
)
    requires
        salt.len() >= 10,
    ensures
        ({
            let word = seq![112u8, 114, 111, 116, 111, 110];
            let salt16 = (salt + word).take(16);
            let hash = vstd::utf8::encode_utf8(
                crypto::bcrypt_hash(10, salt16, crypto::bcrypt_digest(password, 10, salt16)),
            );
            &&& version == 3 || version == 4 ==> hashed(version, password, salt, modulus) == Ok::<
                Seq<u8>,
                Seq<char>,
            >(four_digests(hash + modulus))
            &&& version != 3 && version != 4 ==> hashed(version, password, salt, modulus) is Err
        }),
{
    let word = seq![112u8, 114, 111, 116, 111, 110];
    let salt16 = (salt + word).take(16);
    let hash = vstd::utf8::encode_utf8(
        crypto::bcrypt_hash(10, salt16, crypto::bcrypt_digest(password, 10, salt16)),
    );
    lemma_four_digests(hash + modulus);
}

/// What a clear-signed message signs: what stands between the blank line
/// behind its headers and its signature, without white space at its ends.
pub proof fn law_clearsigned_payload(
    first: Seq<char>,
    second: Seq<char>,
    body: Seq<char>,
    rest: Seq<char>,
)
    requires
        !text::has_char(first, '\n'),
        !text::has_char(second, '\n'),
        !text::has_char(body, '-'),
    ensures
        clearsign_payload(
            "-----BEGIN PGP SIGNED MESSAGE-----"@ + first + seq!['\n'] + second + seq!['\n'] + body
                + "-----BEGIN PGP SIGNATURE-----"@ + rest,
        ) == Ok::<Seq<char>, Seq<char>>(text::trim(body)),
{
    let header = "-----BEGIN PGP SIGNED MESSAGE-----"@;
    let mark = "-----BEGIN PGP SIGNATURE-----"@;
    let tail = body + mark + rest;
    let msg = header + first + seq!['\n'] + second + seq!['\n'] + body + mark + rest;
    let behind_header = first + seq!['\n'] + (second + seq!['\n'] + tail);
    assert(msg =~= header + behind_header);
    assert(msg.take(header.len() as int) =~= header);
    assert(text::find_text(msg, header) == Some(0int));
    assert(msg.skip(header.len() as int) =~= behind_header);
    lemma_behind(first, second + seq!['\n'] + tail);
    lemma_behind(second, tail);
    assert((mark + rest).take(mark.len() as int) =~= mark);
    lemma_mark(body, mark + rest);
    assert(tail =~= body + (mark + rest));
    assert(tail.take(body.len() as int) =~= body);
}

proof fn lemma_behind(a: Seq<char>, b: Seq<char>)
    requires
        !text::has_char(a, '\n'),
    ensures
        behind(a + seq!['\n'] + b, '\n') == Some(b),
{
    let s = a + seq!['\n'] + b;
    assert(s[a.len() as int] == '\n');
    assert forall|j: int| 0 <= j < a.len() implies s[j] != '\n' by {
        assert(s[j] == a[j]);
    }
    text::lemma_find_is(s, '\n', a.len() as int);
    assert(s.skip(a.len() as int + 1) =~= b);
}

proof fn lemma_mark(body: Seq<char>, rest: Seq<char>)
    requires
        !text::has_char(body, '-'),
        text::starts_with(rest, "-----BEGIN PGP SIGNATURE-----"@),
    ensures
        text::find_text(body + rest, "-----BEGIN PGP SIGNATURE-----"@) == Some(body.len() as int),
    decreases body.len(),
{
    let mark = "-----BEGIN PGP SIGNATURE-----"@;
    reveal_strlit("-----BEGIN PGP SIGNATURE-----");
    let s = body + rest;
    if body.len() == 0 {
        assert(s =~= rest);
    } else {
        let b = body.skip(1);
        assert(!text::has_char(b, '-')) by {
            assert forall|i: int| 0 <= i < b.len() implies b[i] != '-' by {
                assert(b[i] == body[i + 1]);
            }
        }
        lemma_mark(b, rest);
        assert(s.skip(1) =~= b + rest);
        assert(s[0] == body[0]);
        assert(body[0] != '-');
        assert(mark[0] == '-');
        assert(s.take(mark.len() as int)[0] == s[0]);
    }
}

/// A login starts from the modulus, the server's value and the salt, each out
/// of its own field, and the session as it came.
pub proof fn law_login_start(
    password: Seq<char>,
    modulus: Seq<char>,
    server: Seq<u8>,
    version: int,
    salt: Seq<u8>,
    session: Seq<char>,
)
    requires
        version == 3 || version == 4,
        modulus_of(modulus) is Ok,
    ensures
        srp_of(
            password,
            modulus,
            encoding::base64_text(server),
            version,
            encoding::base64_text(salt),
            session,
        ) matches Ok(a) && {
            &&& a.modulus == modulus_of(modulus)->Ok_0
            &&& a.server_ephemeral == server
            &&& a.session == session
            &&& hashed(version, vstd::utf8::encode_utf8(password), salt, a.modulus) == Ok::<
                Seq<u8>,
                Seq<char>,
            >(a.hashed_password)
        },
{
    encoding::law_base64_round_trip(server);
    encoding::law_base64_round_trip(salt);
}

} // verus!
