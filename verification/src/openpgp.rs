//! OpenPGP as bytes in and bytes out: keys, key packets, messages and
//! signatures.
use std::io::Write;

use vstd::prelude::*;

use sequoia_openpgp::armor::Kind;
use sequoia_openpgp::crypto::{Decryptor, SessionKey};
use sequoia_openpgp::crypto::mpi::{PublicKey, SecretKeyMaterial};
use sequoia_openpgp::packet::key::{Key4, SecretParts, UnspecifiedRole};
use sequoia_openpgp::packet::Key;
use sequoia_openpgp::parse::stream::{
    DecryptionHelper, DecryptorBuilder, MessageStructure, VerificationHelper,
};
use sequoia_openpgp::parse::Parse;
use sequoia_openpgp::serialize::stream::{
    Armorer, Encryptor2, LiteralWriter, Message, Signer,
};
use sequoia_openpgp::serialize::MarshalInto;
use sequoia_openpgp::Packet;

use crate::naturals;
use crate::utf8;

verus! {

// ---------------------------------------------------------------------
// The types of the OpenPGP library that its helper traits speak of
// ---------------------------------------------------------------------

/// `sequoia_openpgp::KeyHandle`.
#[verifier::external_type_specification]
#[verifier::external_body]
pub struct ExKeyHandle(sequoia_openpgp::KeyHandle);

/// `sequoia_openpgp::Cert`.
#[verifier::external_type_specification]
#[verifier::external_body]
pub struct ExCert(sequoia_openpgp::Cert);

/// `sequoia_openpgp::parse::stream::MessageStructure`.
#[verifier::external_type_specification]
#[verifier::external_body]
pub struct ExMessageStructure<'a>(sequoia_openpgp::parse::stream::MessageStructure<'a>);

/// `sequoia_openpgp::parse::stream::MessageLayer`.
#[verifier::external_type_specification]
#[verifier::external_body]
pub struct ExMessageLayer<'a>(sequoia_openpgp::parse::stream::MessageLayer<'a>);

/// `sequoia_openpgp::packet::PKESK`.
#[verifier::external_type_specification]
#[verifier::external_body]
pub struct ExPkesk(sequoia_openpgp::packet::PKESK);

/// `sequoia_openpgp::packet::SKESK`.
#[verifier::external_type_specification]
#[verifier::external_body]
pub struct ExSkesk(sequoia_openpgp::packet::SKESK);

/// `sequoia_openpgp::types::SymmetricAlgorithm`.
#[verifier::external_type_specification]
#[verifier::external_body]
pub struct ExSymmetricAlgorithm(sequoia_openpgp::types::SymmetricAlgorithm);

/// `sequoia_openpgp::crypto::SessionKey`.
#[verifier::external_type_specification]
#[verifier::external_body]
pub struct ExSessionKey(SessionKey);

/// `sequoia_openpgp::Fingerprint`.
#[verifier::external_type_specification]
#[verifier::external_body]
pub struct ExFingerprint(sequoia_openpgp::Fingerprint);

/// `anyhow::Error`, the error type of the OpenPGP library.
#[verifier::external_type_specification]
#[verifier::external_body]
pub struct ExAnyhowError(anyhow::Error);

// ---------------------------------------------------------------------
// Plain values
// ---------------------------------------------------------------------

/// A key whose secret half is at hand: the body of its secret-key packet,
/// unlocked.
pub struct KeyPair {
    pub packet: Vec<u8>,
}

impl View for KeyPair {
    type V = Seq<u8>;

    open spec fn view(&self) -> Seq<u8> {
        self.packet@
    }
}

pub open spec fn pairs_view(s: Seq<KeyPair>) -> Seq<Seq<u8>> {
    Seq::new(s.len(), |i: int| s[i]@)
}

impl Clone for KeyPair {
    fn clone(&self) -> (r: Self)
        ensures
            r@ == self@,
    {
        KeyPair { packet: copy_bytes(&self.packet) }
    }
}

pub fn copy_bytes(b: &Vec<u8>) -> (r: Vec<u8>)
    ensures
        r@ == b@,
{
    let mut out: Vec<u8> = Vec::new();
    let mut i: usize = 0;
    while i < b.len()
        invariant
            i <= b@.len(),
            out@ =~= b@.take(i as int),
        decreases b@.len() - i,
    {
        out.push(b[i]);
        i = i + 1;
    }
    out
}

pub fn bytes_eq(a: &Vec<u8>, b: &Vec<u8>) -> (r: bool)
    ensures
        r == (a@ == b@),
{
    if a.len() != b.len() {
        return false;
    }
    let mut i: usize = 0;
    while i < a.len()
        invariant
            i <= a@.len(),
            a@.len() == b@.len(),
            a@.take(i as int) =~= b@.take(i as int),
        decreases a@.len() - i,
    {
        if a[i] != b[i] {
            return false;
        }
        assert(a@.take(i + 1) =~= a@.take(i as int).push(a@[i as int]));
        assert(b@.take(i + 1) =~= b@.take(i as int).push(b@[i as int]));
        i = i + 1;
    }
    assert(a@.take(i as int) =~= a@);
    assert(b@.take(i as int) =~= b@);
    true
}

/// What is known of a key pair beside its bytes.
pub struct PairFacts {
    /// The number of its algorithm.
    pub algo: u8,
    /// Of a DSA key the bits of its subgroup's order.
    pub subgroup_bits: Option<usize>,
}

/// What [`PairFacts`] holds.
#[verifier::ext_equal]
pub struct PairModel {
    pub algo: u8,
    pub subgroup_bits: Option<nat>,
}

impl View for PairFacts {
    type V = PairModel;

    open spec fn view(&self) -> PairModel {
        PairModel {
            algo: self.algo,
            subgroup_bits: match self.subgroup_bits {
                Some(n) => Some(n as nat),
                None => None,
            },
        }
    }
}

/// The numbers of an RSA key, each with its most significant byte first:
/// modulus, public and secret exponent, and the two factors.
pub struct RsaNumbers {
    pub n: Vec<u8>,
    pub e: Vec<u8>,
    pub d: Vec<u8>,
    pub p: Vec<u8>,
    pub q: Vec<u8>,
}

/// The numbers of an RSA key.
#[verifier::ext_equal]
pub struct RsaModel {
    pub n: nat,
    pub e: nat,
    pub d: nat,
    pub p: nat,
    pub q: nat,
}

/// The number that bytes make, the most significant first.
pub open spec fn be_value(b: Seq<u8>) -> nat {
    naturals::le_value(b.reverse())
}

impl View for RsaNumbers {
    type V = RsaModel;

    open spec fn view(&self) -> RsaModel {
        RsaModel {
            n: be_value(self.n@),
            e: be_value(self.e@),
            d: be_value(self.d@),
            p: be_value(self.p@),
            q: be_value(self.q@),
        }
    }
}

pub open spec fn option_rsa(k: Option<RsaNumbers>) -> Option<RsaModel> {
    match k {
        Some(k) => Some(k@),
        None => None,
    }
}

/// The two halves of a key for key agreement on a curve, which its object
/// identifier stands for: the public point as it is written, and the secret
/// scalar, filled up to the size of the curve.
pub struct Agreement {
    pub curve: Vec<u8>,
    pub point: Vec<u8>,
    pub scalar: Vec<u8>,
}

/// What an [`Agreement`] holds.
#[verifier::ext_equal]
pub struct AgreementModel {
    pub curve: Seq<u8>,
    pub point: Seq<u8>,
    pub scalar: Seq<u8>,
}

impl View for Agreement {
    type V = AgreementModel;

    open spec fn view(&self) -> AgreementModel {
        AgreementModel { curve: self.curve@, point: self.point@, scalar: self.scalar@ }
    }
}

pub open spec fn option_agreement(a: Option<Agreement>) -> Option<AgreementModel> {
    match a {
        Some(a) => Some(a@),
        None => None,
    }
}

/// A symmetric key.
pub struct CipherKey {
    pub bytes: Vec<u8>,
}

impl View for CipherKey {
    type V = Seq<u8>;

    open spec fn view(&self) -> Seq<u8> {
        self.bytes@
    }
}

/// The body of a secret-key packet of a certificate, and whether a passphrase
/// locks it.
pub struct SecretPacket {
    pub packet: Vec<u8>,
    pub locked: bool,
}

impl View for SecretPacket {
    type V = (Seq<u8>, bool);

    open spec fn view(&self) -> (Seq<u8>, bool) {
        (self.packet@, self.locked)
    }
}

pub open spec fn secrets_view(s: Seq<SecretPacket>) -> Seq<(Seq<u8>, bool)> {
    Seq::new(s.len(), |i: int| s[i]@)
}

/// A session key with the number of its cipher.
pub open spec fn key_view(k: (u8, CipherKey)) -> (u8, Seq<u8>) {
    (k.0, k.1@)
}

pub open spec fn keys_view(s: Seq<(u8, CipherKey)>) -> Seq<(u8, Seq<u8>)> {
    Seq::new(s.len(), |i: int| key_view(s[i]))
}

pub open spec fn key_option(k: Option<(u8, CipherKey)>) -> Option<(u8, Seq<u8>)> {
    match k {
        Some(k) => Some(key_view(k)),
        None => None,
    }
}

pub open spec fn bytes_view(s: Seq<Vec<u8>>) -> Seq<Seq<u8>> {
    Seq::new(s.len(), |i: int| s[i]@)
}

pub open spec fn option_bytes(b: Option<Vec<u8>>) -> Option<Seq<u8>> {
    match b {
        Some(b) => Some(b@),
        None => None,
    }
}

pub open spec fn option_bytes_view(s: Seq<Option<Vec<u8>>>) -> Seq<Option<Seq<u8>>> {
    Seq::new(s.len(), |i: int| option_bytes(s[i]))
}

/// How far the reading of a message got.
pub enum Step {
    /// It reached an encrypted container. The key packets before it, and the
    /// cipher where the container names one.
    Asks { packets: Vec<Vec<u8>>, hint: Option<u8> },
    /// It gave the content.
    Holds(Vec<u8>),
    /// It failed.
    Fails,
}

pub ghost enum StepModel {
    Asks { packets: Seq<Seq<u8>>, hint: Option<u8> },
    Holds(Seq<u8>),
    Fails,
}

impl View for Step {
    type V = StepModel;

    open spec fn view(&self) -> StepModel {
        match *self {
            Step::Asks { packets, hint } => StepModel::Asks { packets: bytes_view(packets@), hint },
            Step::Holds(b) => StepModel::Holds(b@),
            Step::Fails => StepModel::Fails,
        }
    }
}

/// Where in the writing of a message or a signature an error came up.
#[derive(Clone, Copy, PartialEq, Eq, Structural)]
pub enum Stage {
    Key,
    Armor,
    Encryptor,
    Container,
    Literal,
    Signer,
    Write,
    Finalize,
}

// ---------------------------------------------------------------------
// Names for what the OpenPGP library computes
// ---------------------------------------------------------------------

/// The bodies of the secret-key packets of a certificate in the order of its
/// keys, each with whether it is locked; or the message for what is no
/// certificate.
pub uninterp spec fn cert_secrets(bytes: Seq<u8>) -> Result<Seq<(Seq<u8>, bool)>, Seq<char>>;

/// A locked secret-key packet unlocked with a passphrase.
pub uninterp spec fn unlocked(packet: Seq<u8>, passphrase: Seq<u8>) -> Option<Seq<u8>>;

/// The packets of a pile in their order: of each key packet its bytes, of
/// any other nothing; or the message for what is no pile of packets.
pub uninterp spec fn pile(bytes: Seq<u8>) -> Result<Seq<Option<Seq<u8>>>, Seq<char>>;

/// The length of the wrapped key in a key packet, where it was made by key
/// agreement.
pub uninterp spec fn wrapped_len(packet: Seq<u8>) -> Option<nat>;

/// The length of what a key packet holds for a key pair.
pub uninterp spec fn payload_len(packet: Seq<u8>, pair: Seq<u8>) -> Option<nat>;

/// The cipher and the session key that a key packet holds for a key pair.
pub uninterp spec fn packet_key(
    packet: Seq<u8>,
    pair: Seq<u8>,
    hint: Option<u8>,
) -> Option<(u8, Seq<u8>)>;

/// How far the reading of a message gets under the policy of a time, with
/// session keys for its containers, from the outermost on.
pub uninterp spec fn message_step(
    at: u32,
    message: Seq<u8>,
    keys: Seq<(u8, Seq<u8>)>,
) -> StepModel;

/// Why nothing of a length can be encrypted to a key.
pub uninterp spec fn recipient_refusal(pair: Seq<u8>, algo: u8, len: nat) -> Option<
    (Stage, Seq<char>),
>;

/// What is known of a key pair, or the message why it is none.
pub uninterp spec fn pair_facts(pair: Seq<u8>) -> Result<PairModel, Seq<char>>;

/// The numbers of an RSA key, none for any other.
pub uninterp spec fn rsa_numbers(pair: Seq<u8>) -> Option<RsaModel>;

/// The halves of a key for key agreement, none for any other.
pub uninterp spec fn agreement_halves(pair: Seq<u8>) -> Option<AgreementModel>;

/// The public point of an X25519 secret, as OpenPGP writes it.
pub uninterp spec fn x25519_point(secret: Seq<u8>) -> Option<Seq<u8>>;

/// The public point of a P-256 secret, not compressed.
pub uninterp spec fn p256_point(secret: Seq<u8>) -> Option<Seq<u8>>;

/// The public point of a P-384 secret, not compressed.
pub uninterp spec fn p384_point(secret: Seq<u8>) -> Option<Seq<u8>>;

/// The public point of a P-521 secret, not compressed.
pub uninterp spec fn p521_point(secret: Seq<u8>) -> Option<Seq<u8>>;

/// Why no message can be written with a cipher and a key of a length.
pub uninterp spec fn container_refusal(algo: u8, len: nat) -> Option<(Stage, Seq<char>)>;

/// Why no message can be written to a key.
pub uninterp spec fn message_refusal(pair: Seq<u8>) -> Option<(Stage, Seq<char>)>;

/// Whether a key refuses to make signatures of a time.
pub uninterp spec fn sign_refused(pair: Seq<u8>, at: u32) -> bool;

/// Whether bytes are an armored detached signature of data by a key, of a
/// time.
pub uninterp spec fn signs(signature: Seq<u8>, data: Seq<u8>, pair: Seq<u8>, at: u32) -> bool;

// ---------------------------------------------------------------------
// Keys
// ---------------------------------------------------------------------

/// `Cert::from_bytes`, and of the certificate `keys().secret()`: the keys
/// with a secret half, each as the body of a secret-key packet. What a
/// certificate is, is only named.
#[verifier::external_body]
pub(crate) fn read_secrets(bytes: &[u8]) -> (r: Result<Vec<SecretPacket>, String>)
    ensures
        match r {
            Ok(s) => cert_secrets(bytes@) == Ok::<Seq<(Seq<u8>, bool)>, Seq<char>>(
                secrets_view(s@),
            ),
            Err(e) => cert_secrets(bytes@) == Err::<Seq<(Seq<u8>, bool)>, Seq<char>>(e@),
        },
{
    let cert = sequoia_openpgp::Cert::from_bytes(bytes).map_err(|e| e.to_string())?;
    Ok(cert.keys().secret().map(|ka| SecretPacket {
        locked: ka.key().secret().is_encrypted(),
        packet: ka.key().to_vec().unwrap_or_default(),
    }).collect())
}

/// `SecretKeyMaterial::decrypt_in_place`: the secret-key packet unlocked, or
/// nothing where the passphrase does not open it. What opens it is only
/// named.
#[verifier::external_body]
pub(crate) fn unlock_packet(packet: &Vec<u8>, passphrase: &[u8]) -> (r: Option<Vec<u8>>)
    ensures
        option_bytes(r) == unlocked(packet@, passphrase@),
{
    let mut key = Key::from_bytes(packet).ok()?.parts_into_secret().ok()?;
    let algo = key.pk_algo();
    let password = sequoia_openpgp::crypto::Password::from(passphrase.to_vec());
    key.secret_mut().decrypt_in_place(algo, &password).ok()?;
    key.to_vec().ok()
}

/// `Key::from_bytes`, `parts_into_secret` and `into_keypair`, and of the pair
/// the algorithm and the order of a DSA subgroup. What a pair is, is only
/// named.
#[verifier::external_body]
pub(crate) fn read_pair(pair: &KeyPair) -> (r: Result<PairFacts, String>)
    ensures
        match r {
            Ok(f) => pair_facts(pair@) == Ok::<PairModel, Seq<char>>(f@),
            Err(e) => pair_facts(pair@) == Err::<PairModel, Seq<char>>(e@),
        },
{
    let key = Key::from_bytes(&pair.packet).and_then(Key::parts_into_secret);
    let pair = key.and_then(Key::into_keypair).map_err(|e| e.to_string())?;
    let subgroup_bits = match pair.public().mpis() {
        PublicKey::DSA { q, .. } => Some(q.bits()),
        _ => None,
    };
    Ok(PairFacts { algo: pair.public().pk_algo().into(), subgroup_bits })
}

/// Of an RSA pair the numbers of `PublicKey::RSA` and
/// `SecretKeyMaterial::RSA`. They are only named.
#[verifier::external_body]
pub(crate) fn read_rsa(pair: &KeyPair) -> (r: Option<RsaNumbers>)
    ensures
        option_rsa(r) == rsa_numbers(pair@),
{
    let key = Key::from_bytes(&pair.packet).and_then(Key::parts_into_secret).ok()?;
    let pair = key.into_keypair().ok()?;
    let PublicKey::RSA { n, e } = pair.public().mpis() else {
        return None;
    };
    pair.secret().map(|m| match m {
        SecretKeyMaterial::RSA { d, p, q, .. } => {
            let (n, e) = (n.value().to_vec(), e.value().to_vec());
            let (d, p, q) = (d.value().to_vec(), p.value().to_vec(), q.value().to_vec());
            Some(RsaNumbers { n, e, d, p, q })
        },
        _ => None,
    })
}

/// Of a pair for key agreement the curve and the point of `PublicKey::ECDH`,
/// and the scalar of `SecretKeyMaterial::ECDH` as `value_padded` fills it up.
/// They are only named.
#[verifier::external_body]
pub(crate) fn read_agreement(pair: &KeyPair) -> (r: Option<Agreement>)
    ensures
        option_agreement(r) == agreement_halves(pair@),
{
    let key = Key::from_bytes(&pair.packet).and_then(Key::parts_into_secret).ok()?;
    let pair = key.into_keypair().ok()?;
    let PublicKey::ECDH { curve, q, .. } = pair.public().mpis() else {
        return None;
    };
    let size = curve.field_size().ok()?;
    let scalar = pair.secret().map(|m| match m {
        SecretKeyMaterial::ECDH { scalar } => Some(scalar.value_padded(size).to_vec()),
        _ => None,
    })?;
    Some(Agreement { curve: curve.oid().to_vec(), point: q.value().to_vec(), scalar })
}

/// `Key4::import_secret_cv25519`: the public point that an X25519 secret
/// gives. It is only named.
#[verifier::external_body]
pub(crate) fn derive_point(secret: &Vec<u8>) -> (r: Option<Vec<u8>>)
    ensures
        option_bytes(r) == x25519_point(secret@),
{
    let made = std::time::SystemTime::UNIX_EPOCH;
    let key = Key4::<SecretParts, UnspecifiedRole>::import_secret_cv25519(
        secret,
        None,
        None,
        made,
    ).ok()?;
    match key.mpis() {
        PublicKey::ECDH { q, .. } => Some(q.value().to_vec()),
        _ => None,
    }
}

/// `p256::SecretKey::from_slice` and `public_key`: the public point that a
/// P-256 secret gives. It is only named.
#[verifier::external_body]
pub(crate) fn derive_p256(secret: &Vec<u8>) -> (r: Option<Vec<u8>>)
    ensures
        option_bytes(r) == p256_point(secret@),
{
    p256::SecretKey::from_slice(secret).ok().map(|k| k.public_key().to_sec1_bytes().to_vec())
}

/// `p384::SecretKey::from_slice` and `public_key`: the public point that a
/// P-384 secret gives. It is only named.
#[verifier::external_body]
pub(crate) fn derive_p384(secret: &Vec<u8>) -> (r: Option<Vec<u8>>)
    ensures
        option_bytes(r) == p384_point(secret@),
{
    p384::SecretKey::from_slice(secret).ok().map(|k| k.public_key().to_sec1_bytes().to_vec())
}

/// `p521::SecretKey::from_slice` and `public_key`: the public point that a
/// P-521 secret gives. It is only named.
#[verifier::external_body]
pub(crate) fn derive_p521(secret: &Vec<u8>) -> (r: Option<Vec<u8>>)
    ensures
        option_bytes(r) == p521_point(secret@),
{
    p521::SecretKey::from_slice(secret).ok().map(|k| k.public_key().to_sec1_bytes().to_vec())
}

/// The object identifier of Curve25519.
pub open spec fn x25519_oid() -> Seq<u8> {
    seq![0x2b, 0x06, 0x01, 0x04, 0x01, 0x97, 0x55, 0x01, 0x05, 0x01]
}

/// The object identifier of P-256.
pub open spec fn p256_oid() -> Seq<u8> {
    seq![0x2a, 0x86, 0x48, 0xce, 0x3d, 0x03, 0x01, 0x07]
}

/// The object identifier of P-384.
pub open spec fn p384_oid() -> Seq<u8> {
    seq![0x2b, 0x81, 0x04, 0x00, 0x22]
}

/// The object identifier of P-521.
pub open spec fn p521_oid() -> Seq<u8> {
    seq![0x2b, 0x81, 0x04, 0x00, 0x23]
}

/// The public point that the secret half of a key for key agreement gives.
/// OpenPGP writes an X25519 secret the other way round.
pub open spec fn derived_point(a: AgreementModel) -> Option<Seq<u8>> {
    if a.curve == x25519_oid() {
        x25519_point(a.scalar.reverse())
    } else if a.curve == p256_oid() {
        p256_point(a.scalar)
    } else if a.curve == p384_oid() {
        p384_point(a.scalar)
    } else if a.curve == p521_oid() {
        p521_point(a.scalar)
    } else {
        None
    }
}

fn derive_agreed(a: &Agreement) -> (r: Option<Vec<u8>>)
    ensures
        option_bytes(r) == derived_point(a@),
{
    let x25519: Vec<u8> = vec![0x2b, 0x06, 0x01, 0x04, 0x01, 0x97, 0x55, 0x01, 0x05, 0x01];
    let p256: Vec<u8> = vec![0x2a, 0x86, 0x48, 0xce, 0x3d, 0x03, 0x01, 0x07];
    let p384: Vec<u8> = vec![0x2b, 0x81, 0x04, 0x00, 0x22];
    let p521: Vec<u8> = vec![0x2b, 0x81, 0x04, 0x00, 0x23];
    assert(x25519@ =~= x25519_oid());
    assert(p256@ =~= p256_oid());
    assert(p384@ =~= p384_oid());
    assert(p521@ =~= p521_oid());
    if bytes_eq(&a.curve, &x25519) {
        derive_point(&reversed(&a.scalar))
    } else if bytes_eq(&a.curve, &p256) {
        derive_p256(&a.scalar)
    } else if bytes_eq(&a.curve, &p384) {
        derive_p384(&a.scalar)
    } else if bytes_eq(&a.curve, &p521) {
        derive_p521(&a.scalar)
    } else {
        None
    }
}

pub open spec fn divides(k: nat, n: nat) -> bool {
    k > 0 && n % k == 0
}

pub open spec fn is_prime(n: nat) -> bool {
    n > 1 && forall|k: nat| 1 < k < n ==> !#[trigger] divides(k, n)
}

/// Whether the numbers of an RSA key are those of one: the modulus is the
/// product of two primes, and the exponents undo each other.
pub open spec fn rsa_sound(k: RsaModel) -> bool {
    &&& is_prime(k.p)
    &&& is_prime(k.q)
    &&& k.p != k.q
    &&& k.n == k.p * k.q
    &&& (k.e * k.d) % (k.p - 1) as nat == 1
    &&& (k.e * k.d) % (k.q - 1) as nat == 1
}

/// Whether the second factor of an RSA key is far above the first: more than
/// two to the power of 24 times as large.
pub open spec fn is_lopsided(k: RsaModel) -> bool {
    k.p > 1 && 0x100_0000 * k.p < k.q
}

/// Whether a key is an RSA key with such factors. What its secret half
/// computes takes up to as many steps as the one goes into the other, without
/// a bound.
pub open spec fn lopsided(pair: Seq<u8>) -> bool {
    rsa_numbers(pair) matches Some(k) && is_lopsided(k)
}

/// Whether the public half of a key for encryption is the one that its secret
/// half gives: of an RSA key the numbers belong together, of a key for key
/// agreement the secret gives the point.
pub open spec fn halves_match(pair: Seq<u8>) -> bool {
    match rsa_numbers(pair) {
        Some(k) => rsa_sound(k) && !is_lopsided(k),
        None => agreement_halves(pair) matches Some(a) && derived_point(a) == Some(a.point),
    }
}

/// The algorithms that make signatures.
pub open spec fn makes_signatures(algo: u8) -> bool {
    algo == 1 || algo == 3 || algo == 17 || algo == 19 || algo == 22
}

/// The algorithms that something can be encrypted with.
pub open spec fn takes_messages(algo: u8) -> bool {
    algo == 1 || algo == 2 || algo == 16 || algo == 18 || algo == 20
}

/// Whether a key is known not to take messages.
pub open spec fn only_signs(pair: Seq<u8>) -> bool {
    pair_facts(pair) matches Ok(f) && !takes_messages(f.algo)
}

/// Whether a key is a DSA key with a subgroup of less than eight bits. No
/// number for a signature can be drawn from it.
pub open spec fn too_small(pair: Seq<u8>) -> bool {
    pair_facts(pair) matches Ok(f) && (f.subgroup_bits matches Some(n) && n < 8)
}

/// Whether nothing but the key and the time decides if a signature is made:
/// not of a DSA key, nor of an RSA key whose numbers are not those of one,
/// where a number that is drawn counts too.
pub open spec fn settled(pair: Seq<u8>) -> bool {
    match pair_facts(pair) {
        Err(_) => true,
        Ok(f) => f.algo != 17 && (f.algo == 1 || f.algo == 3 ==> (rsa_numbers(pair) matches Some(k)
            && rsa_sound(k))),
    }
}

/// Whether a key is left alone: what its secret half computes may not come to
/// an end.
pub open spec fn unusable(pair: Seq<u8>) -> bool {
    too_small(pair) || lopsided(pair)
}

/// Whether a key is of an algorithm that makes signatures.
pub open spec fn can_sign(pair: Seq<u8>) -> bool {
    pair_facts(pair) matches Ok(f) && makes_signatures(f.algo)
}

fn reversed(b: &Vec<u8>) -> (r: Vec<u8>)
    ensures
        r@ == b@.reverse(),
{
    let mut out: Vec<u8> = Vec::new();
    let mut i: usize = b.len();
    while i > 0
        invariant
            i <= b@.len(),
            out@ =~= b@.reverse().take(b@.len() - i),
        decreases i,
    {
        i = i - 1;
        out.push(b[i]);
    }
    assert(b@.reverse().take(b@.len() as int) =~= b@.reverse());
    out
}

/// Whether the halves of a key for encryption are known to belong together.
/// Of an RSA key it is not decided: that takes the factors to be primes.
pub fn key_halves_match(pair: &KeyPair) -> (r: bool)
    ensures
        r ==> halves_match(pair@),
        rsa_numbers(pair@) is None ==> r == halves_match(pair@),
{
    if read_rsa(pair).is_some() {
        return false;
    }
    match read_agreement(pair) {
        Some(a) => match derive_agreed(&a) {
            Some(point) => bytes_eq(&point, &a.point),
            None => false,
        },
        None => false,
    }
}

/// Whether a key is an RSA key with one factor far above the other.
pub fn key_lopsided(pair: &KeyPair) -> (r: bool)
    ensures
        r == lopsided(pair@),
{
    match read_rsa(pair) {
        Some(k) => {
            let p: Vec<u8> = reversed(&k.p);
            let q: Vec<u8> = reversed(&k.q);
            let times: Vec<u8> = vec![0u8, 0u8, 0u8, 1u8];
            proof {
                reveal_with_fuel(naturals::le_value, 5);
                assert(times@.skip(1) =~= seq![0u8, 0u8, 1u8]);
                assert(times@.skip(1).skip(1) =~= seq![0u8, 1u8]);
                assert(times@.skip(1).skip(1).skip(1) =~= seq![1u8]);
                assert(times@.skip(1).skip(1).skip(1).skip(1) =~= seq![]);
                assert(naturals::le_value(times@) == 0x100_0000);
            }
            let far: Vec<u8> = naturals::nat_product(&times, &p);
            naturals::nat_below(&naturals::small(1), &p) && naturals::nat_below(&far, &q)
        },
        None => false,
    }
}

/// Whether a key is left alone.
pub fn key_unusable(pair: &KeyPair) -> (r: bool)
    ensures
        r == unusable(pair@),
{
    if key_lopsided(pair) {
        return true;
    }
    match read_pair(pair) {
        Ok(f) => match f.subgroup_bits {
            Some(n) => n < 8,
            None => false,
        },
        Err(_) => false,
    }
}

/// Whether a key is known not to take messages.
pub fn key_only_signs(pair: &KeyPair) -> (r: bool)
    ensures
        r == only_signs(pair@),
{
    match read_pair(pair) {
        Ok(f) => !(f.algo == 1 || f.algo == 2 || f.algo == 16 || f.algo == 18 || f.algo == 20),
        Err(_) => false,
    }
}

// ---------------------------------------------------------------------
// Key packets
// ---------------------------------------------------------------------

/// `PacketPile::from_bytes` and `descendants`: the packets in order, of each
/// public-key encrypted session key its bytes. What a pile is, is only named.
#[verifier::external_body]
pub(crate) fn read_pile(bytes: &Vec<u8>) -> (r: Result<Vec<Option<Vec<u8>>>, String>)
    ensures
        match r {
            Ok(p) => pile(bytes@) == Ok::<Seq<Option<Seq<u8>>>, Seq<char>>(option_bytes_view(p@)),
            Err(e) => pile(bytes@) == Err::<Seq<Option<Seq<u8>>>, Seq<char>>(e@),
        },
{
    let pile = sequoia_openpgp::PacketPile::from_bytes(bytes).map_err(|e| e.to_string())?;
    Ok(pile.descendants().map(|p| match p {
        Packet::PKESK(_) => p.to_vec().ok(),
        _ => None,
    }).collect())
}

/// `PKESK3::esk`: the length of the wrapped key of a key packet made by key
/// agreement, none for any other.
#[verifier::external_body]
pub(crate) fn read_wrapped_len(packet: &Vec<u8>) -> (r: Option<usize>)
    ensures
        match r {
            Some(n) => wrapped_len(packet@) == Some(n as nat),
            None => wrapped_len(packet@) is None,
        },
{
    let Ok(Packet::PKESK(pkesk)) = Packet::from_bytes(packet) else {
        return None;
    };
    match pkesk.esk() {
        sequoia_openpgp::crypto::mpi::Ciphertext::ECDH { key, .. } => Some(key.len()),
        _ => None,
    }
}

/// `Decryptor::decrypt` of a `KeyPair` on the key packet's ciphertext: the
/// length of what it holds, none where the pair does not open it. A wrapped
/// key of less than two blocks would make it panic, and with the factors of a
/// lopsided RSA key it may not come to an end.
#[verifier::external_body]
pub(crate) fn read_payload_len(packet: &Vec<u8>, pair: &KeyPair) -> (r: Option<usize>)
    requires
        !lopsided(pair@),
        wrapped_len(packet@) matches Some(n) ==> n >= 16,
    ensures
        match r {
            Some(n) => payload_len(packet@, pair@) == Some(n as nat),
            None => payload_len(packet@, pair@) is None,
        },
{
    let Ok(Packet::PKESK(pkesk)) = Packet::from_bytes(packet) else {
        return None;
    };
    let key = Key::from_bytes(&pair.packet).ok()?.parts_into_secret().ok()?;
    let mut pair = key.into_keypair().ok()?;
    Some(pair.decrypt(pkesk.esk(), None).ok()?.len())
}

/// `PKESK3::decrypt`: the cipher and the session key that the key packet
/// holds for the pair. It would panic on a wrapped key of less than two
/// blocks, and on a packet that holds nothing at all, and with the factors of
/// a lopsided RSA key it may not come to an end.
#[verifier::external_body]
pub(crate) fn read_packet_key(packet: &Vec<u8>, pair: &KeyPair, hint: Option<u8>) -> (r: Option<
    (u8, CipherKey),
>)
    requires
        !lopsided(pair@),
        wrapped_len(packet@) matches Some(n) ==> n >= 16,
        payload_len(packet@, pair@) != Some(0nat),
    ensures
        key_option(r) == packet_key(packet@, pair@, hint),
{
    let Ok(Packet::PKESK(pkesk)) = Packet::from_bytes(packet) else {
        return None;
    };
    let key = Key::from_bytes(&pair.packet).ok()?.parts_into_secret().ok()?;
    let mut pair = key.into_keypair().ok()?;
    let (algo, sk) = pkesk.decrypt(&mut pair, hint.map(|h| h.into()))?;
    Some((algo.into(), CipherKey { bytes: sk.to_vec() }))
}

/// `PKESK3::for_recipient`, and the packet's bytes: a session key encrypted
/// to the public half of the pair, with fresh randomness. Whether the key
/// takes it does not depend on that randomness. The packet is not empty, it
/// stands alone in its pile, and the pair gets the session key back where its
/// halves match.
#[verifier::external_body]
pub(crate) fn seal_session_key(algo: u8, session: &CipherKey, pair: &KeyPair) -> (r: Result<
    Vec<u8>,
    (Stage, String),
>)
    ensures
        match r {
            Ok(packet) => {
                &&& recipient_refusal(pair@, algo, session@.len()) is None
                &&& packet@.len() > 0
                &&& pile(packet@) == Ok::<Seq<Option<Seq<u8>>>, Seq<char>>(seq![Some(packet@)])
                &&& cipher_key_len(algo) == Some(session@.len() as int) && halves_match(pair@) ==> {
                    &&& (wrapped_len(packet@) matches Some(n) ==> n >= 16)
                    &&& payload_len(packet@, pair@) == Some((session@.len() + 3) as nat)
                    &&& packet_key(packet@, pair@, None) == Some((algo, session@))
                }
            },
            Err(e) => recipient_refusal(pair@, algo, session@.len()) == Some((e.0, e.1@)),
        },
{
    let key = Key::from_bytes(&pair.packet).map_err(|e| (Stage::Key, e.to_string()))?;
    let pkesk = sequoia_openpgp::packet::pkesk::PKESK3::for_recipient(
        algo.into(),
        &session.bytes.clone().into(),
        &key,
    ).map_err(|e| (Stage::Encryptor, e.to_string()))?;
    Packet::PKESK(pkesk.into()).to_vec().map_err(|e| (Stage::Write, e.to_string()))
}

// ---------------------------------------------------------------------
// Ciphers
// ---------------------------------------------------------------------

/// The key length of a cipher, by its OpenPGP number.
pub open spec fn cipher_key_len(algo: u8) -> Option<int> {
    if algo == 1 || algo == 3 || algo == 4 || algo == 7 || algo == 11 {
        Some(16)
    } else if algo == 2 || algo == 8 || algo == 12 {
        Some(24)
    } else if algo == 9 || algo == 10 || algo == 13 {
        Some(32)
    } else {
        None
    }
}

/// The AES ciphers.
pub open spec fn is_aes(algo: u8) -> bool {
    7 <= algo <= 9
}

/// The ciphers that the policy takes at any time: all but triple DES, which
/// it took until 2017.
pub open spec fn stays_accepted(algo: u8) -> bool {
    algo != 2
}

/// `SymmetricAlgorithm::key_size`: the key length of a cipher, none for a
/// number that is not one of a cipher.
#[verifier::external_body]
pub(crate) fn key_size(algo: u8) -> (r: Option<usize>)
    ensures
        match r {
            Some(n) => cipher_key_len(algo) == Some(n as int),
            None => cipher_key_len(algo) is None,
        },
{
    sequoia_openpgp::types::SymmetricAlgorithm::from(algo).key_size().ok()
}

/// `SessionKey::new`: a random key of a length.
#[verifier::external_body]
pub(crate) fn random_key(len: usize) -> (r: CipherKey)
    ensures
        r@.len() == len,
{
    CipherKey { bytes: SessionKey::new(len).to_vec() }
}

// ---------------------------------------------------------------------
// Messages
// ---------------------------------------------------------------------

/// Answers the questions for session keys with given ones, in order, and
/// keeps the first question that is left.
struct Replay<'a> {
    keys: &'a Vec<(u8, CipherKey)>,
    next: usize,
    asked: &'a mut Option<Step>,
}

impl<'a> VerificationHelper for Replay<'a> {
    #[verifier::external_body]
    fn get_certs(&mut self, _ids: &[sequoia_openpgp::KeyHandle]) -> Result<
        Vec<sequoia_openpgp::Cert>,
        anyhow::Error,
    > {
        Ok(Vec::new())
    }

    #[verifier::external_body]
    fn check(&mut self, _structure: MessageStructure<'_>) -> Result<(), anyhow::Error> {
        Ok(())
    }
}

impl<'a> DecryptionHelper for Replay<'a> {
    #[verifier::external_body]
    fn decrypt<D>(
        &mut self,
        pkesks: &[sequoia_openpgp::packet::PKESK],
        _skesks: &[sequoia_openpgp::packet::SKESK],
        sym_algo: Option<sequoia_openpgp::types::SymmetricAlgorithm>,
        mut decrypt: D,
    ) -> Result<Option<sequoia_openpgp::Fingerprint>, anyhow::Error> where
        D: FnMut(
            sequoia_openpgp::types::SymmetricAlgorithm,
            &SessionKey,
        ) -> bool,
     {
        let Some((algo, key)) = self.keys.get(self.next) else {
            let packets = pkesks.iter().map(|p| Packet::from(p.clone()).to_vec()).collect::<
                Result<_, _>,
            >()?;
            *self.asked = Some(Step::Asks { packets, hint: sym_algo.map(|a| a.into()) });
            return Err(sequoia_openpgp::Error::MalformedMessage("No matching key".into()).into());
        };
        self.next += 1;
        decrypt((*algo).into(), &key.bytes.clone().into());
        Ok(None)
    }
}

/// `DecryptorBuilder::from_bytes`, `with_policy` under the standard policy of
/// a time in unix seconds, and reading to the end: how far it gets when its
/// questions for session keys are answered with the given ones, in order.
/// What a message is, is only named.
#[verifier::external_body]
pub(crate) fn read_message(at: u32, message: &[u8], keys: &Vec<(u8, CipherKey)>) -> (r: Step)
    ensures
        r@ == message_step(at, message@, keys_view(keys@)),
{
    let mut asked: Option<Step> = None;
    let mut out: Vec<u8> = Vec::new();
    let time = std::time::SystemTime::UNIX_EPOCH + std::time::Duration::from_secs(at.into());
    let policy = sequoia_openpgp::policy::StandardPolicy::at(time);
    let helper = Replay { keys, next: 0, asked: &mut asked };
    let done = DecryptorBuilder::from_bytes(message).and_then(
        |b| b.with_policy(&policy, time, helper),
    ).and_then(|mut d| Ok(std::io::Read::read_to_end(&mut d, &mut out)?));
    match (asked, done) {
        (Some(step), _) => step,
        (None, Ok(_)) => Step::Holds(out),
        (None, Err(_)) => Step::Fails,
    }
}

/// Whether a message asks, under the policy of any time, for a session key
/// once, shows one key packet when it does, and gives the data with the key.
pub open spec fn opens_once(
    message: Seq<u8>,
    packet: Seq<u8>,
    key: (u8, Seq<u8>),
    data: Seq<u8>,
) -> bool {
    &&& forall|at: u32| #[trigger]
        message_step(at, message, seq![]) == (StepModel::Asks {
            packets: seq![packet],
            hint: None,
        })
    &&& forall|at: u32| #[trigger]
        message_step(at, message, seq![key]) == StepModel::Holds(data)
}

/// `Encryptor2::with_session_key` with a `LiteralWriter` in it: the bare
/// container, without key packets. Whether it can be written does not depend
/// on the data; with AES and a key of its length it can. It is not empty, and
/// behind a key packet it makes a message that asks for a session key once,
/// and gives the data with this one, under the policy of any time. Of triple
/// DES, which the policy turns away by date, that is left unsaid.
#[verifier::external_body]
pub(crate) fn write_container(data: &[u8], algo: u8, key: &CipherKey) -> (r: Result<
    Vec<u8>,
    (Stage, String),
>)
    ensures
        match r {
            Ok(body) => {
                &&& container_refusal(algo, key@.len()) is None
                &&& body@.len() > 0
                &&& stays_accepted(algo) ==> forall|packet: Seq<u8>| #[trigger]
                    pile(packet) == Ok::<Seq<Option<Seq<u8>>>, Seq<char>>(seq![Some(packet)])
                        ==> opens_once(packet + body@, packet, (algo, key@), data@)
            },
            Err(e) => {
                &&& container_refusal(algo, key@.len()) == Some((e.0, e.1@))
                &&& !(is_aes(algo) && cipher_key_len(algo) == Some(key@.len() as int))
            },
        },
{
    let (mut buf, mut stage) = (Vec::new(), Stage::Encryptor);
    let mut run = || {
        let (message, key) = (Message::new(&mut buf), key.bytes.clone().into());
        let encryptor = Encryptor2::with_session_key(message, algo.into(), key)?;
        stage = Stage::Container;
        let message = encryptor.build()?;
        stage = Stage::Literal;
        let mut literal = LiteralWriter::new(message).build()?;
        stage = Stage::Write;
        literal.write_all(data)?;
        stage = Stage::Finalize;
        literal.finalize()
    };
    run().map(|_| buf).map_err(|e: anyhow::Error| (stage, e.to_string()))
}

/// `Encryptor2::for_recipients` under an `Armorer`, with a `LiteralWriter` in
/// it: an armored message to the public half of the pair. Whether it can be
/// written does not depend on the data, and a key of an algorithm that only
/// signs takes none. It asks for a session key once, and where the halves of
/// the pair match, its one key packet holds for the pair the session key that
/// gives the data.
#[verifier::external_body]
pub(crate) fn write_message(data: &[u8], pair: &KeyPair) -> (r: Result<Vec<u8>, (Stage, String)>)
    ensures
        match r {
            Ok(message) => {
                &&& message_refusal(pair@) is None
                &&& !only_signs(pair@)
                &&& utf8::is_ascii_bytes(message@)
                &&& utf8::ascii_bytes("-----BEGIN PGP MESSAGE-----"@).is_prefix_of(message@)
                &&& halves_match(pair@) ==> exists|packet: Seq<u8>, key: (u8, Seq<u8>)|
                    {
                        &&& #[trigger] opens_once(message@, packet, key, data@)
                        &&& (wrapped_len(packet) matches Some(n) ==> n >= 16)
                        &&& payload_len(packet, pair@) != Some(0nat)
                        &&& packet_key(packet, pair@, None) == Some(key)
                    }
            },
            Err(e) => message_refusal(pair@) == Some((e.0, e.1@)),
        },
{
    let (mut buf, mut stage) = (Vec::new(), Stage::Key);
    let mut run = || {
        let key = Key::from_bytes(&pair.packet)?;
        stage = Stage::Armor;
        let message = Armorer::new(Message::new(&mut buf)).kind(Kind::Message).build()?;
        stage = Stage::Encryptor;
        let message = Encryptor2::for_recipients(message, vec![&key]).build()?;
        stage = Stage::Literal;
        let mut literal = LiteralWriter::new(message).build()?;
        stage = Stage::Write;
        literal.write_all(data)?;
        stage = Stage::Finalize;
        literal.finalize()
    };
    run().map(|_| buf).map_err(|e: anyhow::Error| (stage, e.to_string()))
}

/// `Signer::new` with `detached` and `creation_time`, under an `Armorer`: an
/// armored detached signature of a time in unix seconds. What is no pair
/// fails with the message for that; a key of an algorithm that makes no
/// signatures fails later. Where the numbers of the key are in order, whether
/// it is made depends on the key and the time alone. With a DSA subgroup of
/// less than eight bits, or the factors of a lopsided RSA key, it may not come
/// to an end.
#[verifier::external_body]
pub(crate) fn write_signature(at: u32, data: &[u8], pair: &KeyPair) -> (r: Result<
    Vec<u8>,
    (Stage, String),
>)
    requires
        !unusable(pair@),
    ensures
        match r {
            Ok(signature) => {
                &&& can_sign(pair@)
                &&& settled(pair@) ==> !sign_refused(pair@, at)
                &&& signs(signature@, data@, pair@, at)
                &&& utf8::is_ascii_bytes(signature@)
                &&& utf8::ascii_bytes("-----BEGIN PGP SIGNATURE-----"@).is_prefix_of(signature@)
            },
            Err(e) => {
                &&& settled(pair@) ==> sign_refused(pair@, at)
                &&& match pair_facts(pair@) {
                    Err(m) => e.0 == Stage::Key && e.1@ == m,
                    Ok(_) => e.0 != Stage::Key,
                }
            },
        },
{
    let time = sequoia_openpgp::types::Timestamp::from(at);
    let (mut buf, mut stage) = (Vec::new(), Stage::Key);
    let mut run = || {
        let pair = Key::from_bytes(&pair.packet)?.parts_into_secret()?.into_keypair()?;
        stage = Stage::Armor;
        let message = Armorer::new(Message::new(&mut buf)).kind(Kind::Signature).build()?;
        stage = Stage::Signer;
        let mut signer = Signer::new(message, pair).creation_time(time).detached().build()?;
        stage = Stage::Write;
        signer.write_all(data)?;
        stage = Stage::Finalize;
        signer.finalize()
    };
    run().map(|_| buf).map_err(|e: anyhow::Error| (stage, e.to_string()))
}

} // verus!
