//! Mailbox passwords, unlocked keys and the reading of encrypted cards.
use vstd::prelude::*;

pub use crate::encoding::{bcrypt_b64_decode, bcrypt_b64_encode};

use crate::dates::unix_now;
use crate::encoding;
use crate::encoding::decode_base64;
use crate::error::ProtonError;
use crate::openpgp;
use crate::openpgp::{
    copy_bytes, key_lopsided, read_message, read_packet_key, read_payload_len, read_secrets,
    read_wrapped_len, unlock_packet, CipherKey, KeyPair, SecretPacket, Step,
};
use crate::text;
use crate::text::{chars_of, concat2, copy_text, string_of, utf8_bytes};
use crate::utf8;
use crate::utf8::text_of_bytes;

verus! {

/// A crypto error with a message.
pub open spec fn is_crypto(e: ProtonError, message: Seq<char>) -> bool {
    e matches ProtonError::Crypto(m) && m@ == message
}

// ---------------------------------------------------------------------
// The mailbox password
// ---------------------------------------------------------------------

/// What bcrypt makes of a password, a cost and a salt: 23 bytes.
pub uninterp spec fn bcrypt_digest(password: Seq<u8>, cost: u32, salt: Seq<u8>) -> Seq<u8>;

/// A bcrypt hash in its text form, version `2y`, with a cost of two digits.
pub open spec fn bcrypt_hash(cost: u32, salt: Seq<u8>, digest: Seq<u8>) -> Seq<char> {
    "$2y$"@ + crate::numbers::decimal(cost as nat) + "$"@ + encoding::bcrypt_text(salt)
        + encoding::bcrypt_text(digest)
}

/// `bcrypt::hash_with_salt` and `HashParts::format_for_version`: the hash as
/// text, salt and digest in the base64 of bcrypt: 60 characters. The digest
/// is only named.
#[verifier::external_body]
pub(crate) fn hash_with_bcrypt(password: &[u8], cost: u32, salt: &Vec<u8>) -> (r: String)
    requires
        10 <= cost <= 31,
        salt@.len() == 16,
    ensures
        r@ == bcrypt_hash(cost, salt@, bcrypt_digest(password@, cost, salt@)),
        r@.len() == 60,
{
    let mut bytes = [0u8; 16];
    bytes.copy_from_slice(salt);
    match bcrypt::hash_with_salt(password, cost, bytes) {
        Ok(hash) => hash.format_for_version(bcrypt::Version::TwoY),
        Err(e) => e.to_string(),
    }
}

/// The mailbox password: the digest part of the bcrypt hash of the login
/// password with the first 16 bytes of the key salt.
pub open spec fn mailbox_password(password: Seq<u8>, salt: Seq<u8>) -> Seq<u8> {
    utf8::ascii_bytes(encoding::bcrypt_text(bcrypt_digest(password, 10, salt.take(16))))
}

/// Whether a key salt is no base64, or base64 of 16 bytes or more.
pub open spec fn salt_fits(salt: Seq<char>) -> bool {
    encoding::base64_bytes(salt) matches Some(b) ==> b.len() >= 16
}

pub fn salt_is_usable(salt: &str) -> (r: bool)
    ensures
        r == salt_fits(salt@),
{
    match decode_base64(salt) {
        Ok(b) => b.len() >= 16,
        Err(_) => true,
    }
}

proof fn lemma_bcrypt_text_ascii(b: Seq<u8>)
    ensures
        text::is_ascii_text(encoding::bcrypt_text(b)),
{
    encoding::lemma_sextets(b);
    assert forall|i: int| 0 <= i < encoding::bcrypt_text(b).len() implies (
    #[trigger] encoding::bcrypt_text(b)[i] as u32) < 128 by {
        let n = encoding::sextets(b)[i];
        assert(0 <= n < 64);
    }
}

/// Derives the mailbox password from the login password and a key salt in
/// base64.
pub fn derive_mailbox_password(password: &[u8], key_salt_b64: &str) -> (r: Result<
    Vec<u8>,
    ProtonError,
>)
    requires
        salt_fits(key_salt_b64@),
    ensures
        match encoding::base64_bytes(key_salt_b64@) {
            Some(salt) => r matches Ok(p) && p@ == mailbox_password(password@, salt),
            None => r matches Err(e) && is_crypto(
                e,
                "Invalid key salt base64: "@ + encoding::base64_error(key_salt_b64@),
            ),
        },
{
    let key_salt: Vec<u8> = match decode_base64(key_salt_b64) {
        Ok(b) => b,
        Err(e) => {
            return Err(
                ProtonError::Crypto(concat2("Invalid key salt base64: ", e.as_str())),
            );
        },
    };
    let encoded: String = bcrypt_b64_encode(&key_salt);
    proof {
        encoding::law_salt_is_first_bytes(key_salt@);
    }
    let chars: Vec<char> = chars_of(encoded.as_str());
    let head: String = string_of(&chars, 0, 22);
    assert(head@ =~= encoded@.take(22));
    let salt: Vec<u8> = bcrypt_b64_decode(head.as_str())?;
    assert(salt@ == key_salt@.take(16));
    let hash: String = hash_with_bcrypt(password, 10, &salt);
    let hashed: Vec<char> = chars_of(hash.as_str());
    let tail: String = string_of(&hashed, hashed.len() - 31, hashed.len());
    let out: Vec<u8> = utf8_bytes(tail.as_str());
    proof {
        let digest = encoding::bcrypt_text(bcrypt_digest(password@, 10, salt@));
        encoding::lemma_sextets(salt@);
        reveal_strlit("$2y$");
        reveal_strlit("$");
        reveal_with_fuel(crate::numbers::decimal, 2);
        assert(digest.len() == 31);
        assert(tail@ =~= digest);
        lemma_bcrypt_text_ascii(bcrypt_digest(password@, 10, salt@));
        utf8::lemma_ascii_utf8(digest);
    }
    Ok(out)
}

// ---------------------------------------------------------------------
// Unlocked keys
// ---------------------------------------------------------------------

/// The key pairs of a key that a passphrase unlocked.
pub struct UnlockedKey {
    pub keypairs: Vec<KeyPair>,
}

impl View for UnlockedKey {
    type V = Seq<Seq<u8>>;

    open spec fn view(&self) -> Seq<Seq<u8>> {
        openpgp::pairs_view(self.keypairs@)
    }
}

pub open spec fn unlocked_view(s: Seq<UnlockedKey>) -> Seq<Seq<Seq<u8>>> {
    Seq::new(s.len(), |i: int| s[i]@)
}

/// The pairs of the secret-key packets that are not locked or that the
/// passphrase unlocks, in their order.
pub open spec fn unlocked_pairs(secrets: Seq<(Seq<u8>, bool)>, passphrase: Seq<u8>) -> Seq<Seq<u8>>
    decreases secrets.len(),
{
    if secrets.len() == 0 {
        seq![]
    } else {
        let init = unlocked_pairs(secrets.drop_last(), passphrase);
        let (packet, locked) = secrets.last();
        if !locked {
            init.push(packet)
        } else {
            match openpgp::unlocked(packet, passphrase) {
                Some(p) => init.push(p),
                None => init,
            }
        }
    }
}

/// What a certificate unlocks to, or the message why it does not.
pub open spec fn unlocked_key(bytes: Seq<u8>, passphrase: Seq<u8>) -> Result<
    Seq<Seq<u8>>,
    Seq<char>,
> {
    match openpgp::cert_secrets(bytes) {
        Ok(secrets) => {
            let pairs = unlocked_pairs(secrets, passphrase);
            if pairs.len() == 0 {
                Err("Failed to unlock any key with passphrase"@)
            } else {
                Ok(pairs)
            }
        },
        Err(e) => Err("Parse key: "@ + e),
    }
}

/// Unlocks the secret-key packets that are not locked or that a passphrase
/// opens.
pub fn unlock_pairs(secrets: &Vec<SecretPacket>, passphrase: &[u8]) -> (r: Vec<KeyPair>)
    ensures
        openpgp::pairs_view(r@) == unlocked_pairs(openpgp::secrets_view(secrets@), passphrase@),
{
    let mut out: Vec<KeyPair> = Vec::new();
    let mut i: usize = 0;
    let ghost all = openpgp::secrets_view(secrets@);
    assert(all.take(0) =~= seq![]);
    assert(openpgp::pairs_view(out@) =~= seq![]);
    while i < secrets.len()
        invariant
            i <= secrets@.len(),
            all == openpgp::secrets_view(secrets@),
            openpgp::pairs_view(out@) == unlocked_pairs(all.take(i as int), passphrase@),
        decreases secrets@.len() - i,
    {
        let ghost before = out@;
        assert(all.take(i + 1).drop_last() =~= all.take(i as int));
        assert(all.take(i + 1).last() == secrets@[i as int]@);
        let packet: Option<Vec<u8>> = if secrets[i].locked {
            unlock_packet(&secrets[i].packet, passphrase)
        } else {
            Some(copy_bytes(&secrets[i].packet))
        };
        if let Some(packet) = packet {
            let pair: KeyPair = KeyPair { packet };
            out.push(pair);
            assert(openpgp::pairs_view(out@) =~= openpgp::pairs_view(before).push(pair@));
        }
        i = i + 1;
    }
    assert(all.take(all.len() as int) =~= all);
    out
}

impl UnlockedKey {
    /// Unlocks an armored certificate.
    pub fn from_armored(armored: &str, passphrase: &[u8]) -> (r: Result<Self, ProtonError>)
        ensures
            match r {
                Ok(k) => unlocked_key(vstd::utf8::encode_utf8(armored@), passphrase@) == Ok::<
                    Seq<Seq<u8>>,
                    Seq<char>,
                >(k@),
                Err(e) => unlocked_key(
                    vstd::utf8::encode_utf8(armored@),
                    passphrase@,
                ) matches Err(m) && is_crypto(e, m),
            },
    {
        Self::from_bytes(armored.as_bytes(), passphrase)
    }

    /// Unlocks a certificate, armored or not.
    pub fn from_bytes(bytes: &[u8], passphrase: &[u8]) -> (r: Result<Self, ProtonError>)
        ensures
            match r {
                Ok(k) => unlocked_key(bytes@, passphrase@) == Ok::<Seq<Seq<u8>>, Seq<char>>(k@),
                Err(e) => unlocked_key(bytes@, passphrase@) matches Err(m) && is_crypto(e, m),
            },
    {
        let secrets: Vec<SecretPacket> = match read_secrets(bytes) {
            Ok(s) => s,
            Err(e) => return Err(ProtonError::Crypto(concat2("Parse key: ", e.as_str()))),
        };
        let keypairs: Vec<KeyPair> = unlock_pairs(&secrets, passphrase);
        if keypairs.len() == 0 {
            return Err(
                ProtonError::Crypto(copy_text("Failed to unlock any key with passphrase")),
            );
        }
        Ok(UnlockedKey { keypairs })
    }
}

// ---------------------------------------------------------------------
// Session keys
// ---------------------------------------------------------------------

/// The cipher and the session key that a key packet holds for a pair; none
/// also for a packet that is cut short or that holds nothing, and for a
/// lopsided pair.
pub open spec fn packet_opened(packet: Seq<u8>, pair: Seq<u8>, hint: Option<u8>) -> Option<
    (u8, Seq<u8>),
> {
    if openpgp::lopsided(pair) || (openpgp::wrapped_len(packet) matches Some(n) && n < 16)
        || openpgp::payload_len(packet, pair) == Some(0nat) {
        None
    } else {
        openpgp::packet_key(packet, pair, hint)
    }
}

/// What the first of the pairs that opens a key packet gets from it.
pub open spec fn opened_by_any(
    packet: Seq<u8>,
    pairs: Seq<Seq<u8>>,
    hint: Option<u8>,
) -> Option<(u8, Seq<u8>)>
    decreases pairs.len(),
{
    if pairs.len() == 0 {
        None
    } else {
        match packet_opened(packet, pairs[0], hint) {
            Some(k) => Some(k),
            None => opened_by_any(packet, pairs.skip(1), hint),
        }
    }
}

/// The session key of the first key packet that one of the pairs opens.
pub open spec fn session_of(
    packets: Seq<Seq<u8>>,
    pairs: Seq<Seq<u8>>,
    hint: Option<u8>,
) -> Option<(u8, Seq<u8>)>
    decreases packets.len(),
{
    if packets.len() == 0 {
        None
    } else {
        match opened_by_any(packets[0], pairs, hint) {
            Some(k) => Some(k),
            None => session_of(packets.skip(1), pairs, hint),
        }
    }
}

/// Opens a key packet with a pair.
pub fn open_packet(packet: &Vec<u8>, pair: &KeyPair, hint: Option<u8>) -> (r: Option<
    (u8, CipherKey),
>)
    ensures
        openpgp::key_option(r) == packet_opened(packet@, pair@, hint),
{
    if key_lopsided(pair) {
        return None;
    }
    if let Some(n) = read_wrapped_len(packet) {
        if n < 16 {
            return None;
        }
    }
    if let Some(n) = read_payload_len(packet, pair) {
        if n == 0 {
            return None;
        }
    }
    read_packet_key(packet, pair, hint)
}

/// Opens a key packet with the first pair that can.
pub fn open_with_any(packet: &Vec<u8>, pairs: &Vec<KeyPair>, hint: Option<u8>) -> (r: Option<
    (u8, CipherKey),
>)
    ensures
        openpgp::key_option(r) == opened_by_any(packet@, openpgp::pairs_view(pairs@), hint),
{
    let mut i: usize = 0;
    let ghost all = openpgp::pairs_view(pairs@);
    assert(all.skip(0) =~= all);
    while i < pairs.len()
        invariant
            i <= pairs@.len(),
            all == openpgp::pairs_view(pairs@),
            opened_by_any(packet@, all, hint) == opened_by_any(packet@, all.skip(i as int), hint),
        decreases pairs@.len() - i,
    {
        let ghost rest = all.skip(i as int);
        assert(rest[0] == pairs@[i as int]@);
        assert(rest.skip(1) =~= all.skip(i + 1));
        let k: Option<(u8, CipherKey)> = open_packet(packet, &pairs[i], hint);
        if k.is_some() {
            return k;
        }
        i = i + 1;
    }
    None
}

/// Finds the session key among key packets.
pub fn find_session(packets: &Vec<Vec<u8>>, pairs: &Vec<KeyPair>, hint: Option<u8>) -> (r: Option<
    (u8, CipherKey),
>)
    ensures
        openpgp::key_option(r) == session_of(
            openpgp::bytes_view(packets@),
            openpgp::pairs_view(pairs@),
            hint,
        ),
{
    let mut i: usize = 0;
    let ghost all = openpgp::bytes_view(packets@);
    let ghost ps = openpgp::pairs_view(pairs@);
    assert(all.skip(0) =~= all);
    while i < packets.len()
        invariant
            i <= packets@.len(),
            all == openpgp::bytes_view(packets@),
            ps == openpgp::pairs_view(pairs@),
            session_of(all, ps, hint) == session_of(all.skip(i as int), ps, hint),
        decreases packets@.len() - i,
    {
        let ghost rest = all.skip(i as int);
        assert(rest[0] == packets@[i as int]@);
        assert(rest.skip(1) =~= all.skip(i + 1));
        let k: Option<(u8, CipherKey)> = open_with_any(&packets[i], pairs, hint);
        if k.is_some() {
            return k;
        }
        i = i + 1;
    }
    None
}

// ---------------------------------------------------------------------
// Messages
// ---------------------------------------------------------------------

/// Encrypted containers that are followed one inside the other.
pub const NESTED_CONTAINERS: usize = 17;

/// The content of a message under the policy of a time, each container opened with the session key that
/// its key packets hold for the pairs.
pub open spec fn opened(
    at: u32,
    message: Seq<u8>,
    pairs: Seq<Seq<u8>>,
    keys: Seq<(u8, Seq<u8>)>,
    left: nat,
) -> Option<Seq<u8>>
    decreases left,
{
    match openpgp::message_step(at, message, keys) {
        openpgp::StepModel::Holds(b) => Some(b),
        openpgp::StepModel::Fails => None,
        openpgp::StepModel::Asks { packets, hint } => if left == 0 {
            None
        } else {
            match session_of(packets, pairs, hint) {
                Some(k) => opened(at, message, pairs, keys.push(k), (left - 1) as nat),
                None => None,
            }
        },
    }
}

/// The text of a message for the pairs of one key, under the policy of a
/// time.
pub open spec fn opened_text(at: u32, message: Seq<u8>, pairs: Seq<Seq<u8>>) -> Option<Seq<char>> {
    match opened(at, message, pairs, seq![], NESTED_CONTAINERS as nat) {
        Some(b) => utf8::utf8_text(b),
        None => None,
    }
}

/// The text that the first key gets from a message that gets one.
pub open spec fn first_opened(
    at: u32,
    message: Seq<u8>,
    keys: Seq<Seq<Seq<u8>>>,
) -> Option<Seq<char>>
    decreases keys.len(),
{
    if keys.len() == 0 {
        None
    } else {
        match opened_text(at, message, keys[0]) {
            Some(t) => Some(t),
            None => first_opened(at, message, keys.skip(1)),
        }
    }
}

/// Opens a message with the pairs of a key.
pub fn open_message(at: u32, message: &[u8], pairs: &Vec<KeyPair>) -> (r: Option<Vec<u8>>)
    ensures
        openpgp::option_bytes(r) == opened(
            at,
            message@,
            openpgp::pairs_view(pairs@),
            seq![],
            NESTED_CONTAINERS as nat,
        ),
{
    let mut keys: Vec<(u8, CipherKey)> = Vec::new();
    let mut left: usize = NESTED_CONTAINERS;
    let ghost ps = openpgp::pairs_view(pairs@);
    assert(openpgp::keys_view(keys@) =~= seq![]);
    loop
        invariant
            ps == openpgp::pairs_view(pairs@),
            opened(at, message@, ps, seq![], NESTED_CONTAINERS as nat) == opened(
                at,
                message@,
                ps,
                openpgp::keys_view(keys@),
                left as nat,
            ),
        decreases left,
    {
        match read_message(at, message, &keys) {
            Step::Holds(b) => return Some(b),
            Step::Fails => return None,
            Step::Asks { packets, hint } => {
                if left == 0 {
                    return None;
                }
                match find_session(&packets, pairs, hint) {
                    Some(k) => {
                        let ghost before = openpgp::keys_view(keys@);
                        keys.push(k);
                        assert(openpgp::keys_view(keys@) =~= before.push(openpgp::key_view(k)));
                        left = left - 1;
                    },
                    None => return None,
                }
            },
        }
    }
}

/// Seconds as the policy of a message takes them: those of the years that
/// OpenPGP can write.
pub open spec fn policy_seconds(now: int) -> int {
    if now < 0 {
        0
    } else if now > u32::MAX {
        u32::MAX as int
    } else {
        now
    }
}

/// The policy time of a time in unix seconds.
pub fn policy_time(now: i64) -> (r: u32)
    ensures
        r == policy_seconds(now as int),
{
    if now < 0 {
        0
    } else if now > 0xffff_ffff {
        0xffff_ffff
    } else {
        now as u32
    }
}

/// Whether a text, or the error that there is none, is what a message opens
/// to.
pub open spec fn reads_to(text: Option<Seq<char>>, r: Result<String, ProtonError>) -> bool {
    match r {
        Ok(t) => text == Some(t@),
        Err(e) => text is None && is_crypto(e, "No key could decrypt the message"@),
    }
}

/// Reads a message of bytes with one key, under the policy of a time.
pub fn decrypt_bytes_with_key_at(at: u32, message: &[u8], key: &UnlockedKey) -> (r: Result<
    String,
    ProtonError,
>)
    ensures
        reads_to(opened_text(at, message@, key@), r),
{
    if let Some(b) = open_message(at, message, &key.keypairs) {
        if let Some(t) = text_of_bytes(b) {
            return Ok(t);
        }
    }
    Err(ProtonError::Crypto(copy_text("No key could decrypt the message")))
}

/// Reads a message of bytes with one key, under the policy of the clock's
/// time.
pub fn decrypt_bytes_with_key(message: &[u8], key: &UnlockedKey) -> (r: Result<
    String,
    ProtonError,
>)
    ensures
        exists|at: u32| reads_to(#[trigger] opened_text(at, message@, key@), r),
{
    let at: u32 = policy_time(unix_now());
    decrypt_bytes_with_key_at(at, message, key)
}

/// Reads an armored message with one key, under the policy of the clock's
/// time.
pub fn decrypt_with_key(message: &str, key: &UnlockedKey) -> (r: Result<String, ProtonError>)
    ensures
        exists|at: u32|
            reads_to(
                #[trigger] opened_text(at, vstd::utf8::encode_utf8(message@), key@),
                r,
            ),
{
    decrypt_bytes_with_key(message.as_bytes(), key)
}

/// Reads a message with the first key that can, under the policy of a time.
pub fn decrypt_bytes_with_any(at: u32, message: &[u8], keys: &[UnlockedKey]) -> (r: Option<String>)
    ensures
        text::option_text(r) == first_opened(at, message@, unlocked_view(keys@)),
{
    let mut i: usize = 0;
    let ghost all = unlocked_view(keys@);
    assert(all.skip(0) =~= all);
    while i < keys.len()
        invariant
            i <= keys@.len(),
            all == unlocked_view(keys@),
            first_opened(at, message@, all) == first_opened(at, message@, all.skip(i as int)),
        decreases keys@.len() - i,
    {
        let ghost rest = all.skip(i as int);
        assert(rest[0] == keys@[i as int]@);
        assert(rest.skip(1) =~= all.skip(i + 1));
        if let Ok(t) = decrypt_bytes_with_key_at(at, message, &keys[i]) {
            return Some(t);
        }
        i = i + 1;
    }
    None
}

/// Decrypts an armored contact card with the first key that can, under the
/// policy of a time.
pub fn decrypt_contact_card_at(
    at: u32,
    encrypted_data: &str,
    unlocked_keys: &[UnlockedKey],
) -> (r: Result<String, ProtonError>)
    ensures
        reads_to(
            first_opened(
                at,
                vstd::utf8::encode_utf8(encrypted_data@),
                unlocked_view(unlocked_keys@),
            ),
            r,
        ),
{
    match decrypt_bytes_with_any(at, encrypted_data.as_bytes(), unlocked_keys) {
        Some(t) => Ok(t),
        None => Err(ProtonError::Crypto(copy_text("No key could decrypt the message"))),
    }
}

/// Decrypts an armored contact card with the first key that can, under the
/// policy of the clock's time.
pub fn decrypt_contact_card(encrypted_data: &str, unlocked_keys: &[UnlockedKey]) -> (r: Result<
    String,
    ProtonError,
>)
    ensures
        exists|at: u32|
            reads_to(
                #[trigger] first_opened(
                    at,
                    vstd::utf8::encode_utf8(encrypted_data@),
                    unlocked_view(unlocked_keys@),
                ),
                r,
            ),
{
    let at: u32 = policy_time(unix_now());
    decrypt_contact_card_at(at, encrypted_data, unlocked_keys)
}

/// A message reads as what the first key gets from it that gets anything;
/// where none does, it stays closed.
pub proof fn law_first_key_reads(at: u32, message: Seq<u8>, keys: Seq<Seq<Seq<u8>>>, k: int)
    ensures
        0 <= k < keys.len() && opened_text(at, message, keys[k]) is Some && (forall|i: int|
            0 <= i < k ==> opened_text(at, message, #[trigger] keys[i]) is None) ==> first_opened(
            at,
            message,
            keys,
        ) == opened_text(at, message, keys[k]),
        (forall|i: int| 0 <= i < keys.len() ==> opened_text(at, message, #[trigger] keys[i]) is None)
            ==> first_opened(at, message, keys) is None,
    decreases keys.len(),
{
    if keys.len() > 0 {
        let rest = keys.skip(1);
        law_first_key_reads(at, message, rest, k - 1);
        if 0 < k < keys.len() && (forall|i: int|
            0 <= i < k ==> opened_text(at, message, #[trigger] keys[i]) is None) {
            assert forall|i: int| 0 <= i < k - 1 implies opened_text(
                at,
                message,
                #[trigger] rest[i],
            ) is None by {
                assert(rest[i] == keys[i + 1]);
            }
            assert(opened_text(at, message, keys[0]) is None);
            assert(rest[k - 1] == keys[k]);
        }
        if forall|i: int|
            0 <= i < keys.len() ==> opened_text(at, message, #[trigger] keys[i]) is None {
            assert forall|i: int| 0 <= i < rest.len() implies opened_text(
                at,
                message,
                #[trigger] rest[i],
            ) is None by {
                assert(rest[i] == keys[i + 1]);
            }
            assert(opened_text(at, message, keys[0]) is None);
        }
    }
}

/// One more packet of a key: one that is not locked, or that the passphrase
/// unlocks, goes behind those that are there; any other is left out. A key
/// is unlocked where at least one packet is.
pub proof fn law_unlocked_packets_go_behind(
    secrets: Seq<(Seq<u8>, bool)>,
    packet: Seq<u8>,
    locked: bool,
    passphrase: Seq<u8>,
    bytes: Seq<u8>,
)
    ensures
        ({
            let was = unlocked_pairs(secrets, passphrase);
            let is = unlocked_pairs(secrets.push((packet, locked)), passphrase);
            let open = openpgp::unlocked(packet, passphrase);
            &&& !locked ==> is == was.push(packet)
            &&& locked && open is Some ==> is == was.push(open->Some_0)
            &&& locked && open is None ==> is == was
        }),
        openpgp::cert_secrets(bytes) == Ok::<Seq<(Seq<u8>, bool)>, Seq<char>>(secrets) ==> {
            let pairs = unlocked_pairs(secrets, passphrase);
            &&& pairs.len() > 0 ==> unlocked_key(bytes, passphrase) == Ok::<
                Seq<Seq<u8>>,
                Seq<char>,
            >(pairs)
            &&& pairs.len() == 0 ==> unlocked_key(bytes, passphrase) is Err
        },
        openpgp::cert_secrets(bytes) is Err ==> unlocked_key(bytes, passphrase) is Err,
{
    assert(secrets.push((packet, locked)).drop_last() =~= secrets);
}

/// The mailbox password is what stands behind version, cost and salt in the
/// hash of the login password, made at cost 10; of the key salt only the
/// first 16 bytes count.
pub proof fn law_mailbox_password_ends_the_hash(
    password: Seq<u8>,
    salt: Seq<u8>,
    more: Seq<u8>,
)
    requires
        salt.len() == 16,
    ensures
        ({
            let hash = bcrypt_hash(10, salt, bcrypt_digest(password, 10, salt));
            mailbox_password(password, salt + more) == utf8::ascii_bytes(hash.skip(29))
        }),
{
    let digest = bcrypt_digest(password, 10, salt);
    let hash = bcrypt_hash(10, salt, digest);
    reveal_strlit("$2y$");
    reveal_strlit("$");
    reveal_with_fuel(crate::numbers::decimal, 3);
    reveal_with_fuel(encoding::sextets, 7);
    assert(encoding::sextets(salt).len() == 22) by {
        let a = salt.skip(3);
        let b = a.skip(3);
        let c = b.skip(3);
        let d = c.skip(3);
        let e = d.skip(3);
        assert(e.len() == 1);
        assert(encoding::sextets(e).len() == 2);
        assert(encoding::sextets(d).len() == 6);
        assert(encoding::sextets(c).len() == 10);
        assert(encoding::sextets(b).len() == 14);
        assert(encoding::sextets(a).len() == 18);
    }
    assert((salt + more).take(16) =~= salt);
    assert(hash.skip(29) =~= encoding::bcrypt_text(digest));
}

/// The session key of a message is that of the first key packet that any pair
/// opens, by the first pair that opens it.
pub proof fn law_first_packet_counts(
    packets: Seq<Seq<u8>>,
    pairs: Seq<Seq<u8>>,
    hint: Option<u8>,
    p: int,
    k: int,
)
    requires
        0 <= p < packets.len(),
        0 <= k < pairs.len(),
        packet_opened(packets[p], pairs[k], hint) is Some,
        forall|i: int| 0 <= i < k ==> packet_opened(packets[p], #[trigger] pairs[i], hint) is None,
        forall|q: int, i: int|
            0 <= q < p && 0 <= i < pairs.len() ==> packet_opened(
                #[trigger] packets[q],
                #[trigger] pairs[i],
                hint,
            ) is None,
    ensures
        session_of(packets, pairs, hint) == packet_opened(packets[p], pairs[k], hint),
    decreases p,
{
    if p == 0 {
        lemma_opened_by(packets[0], pairs, hint, k);
    } else {
        assert forall|i: int| 0 <= i < pairs.len() implies packet_opened(
            packets[0],
            #[trigger] pairs[i],
            hint,
        ) is None by {
            assert(packet_opened(packets[0], pairs[i], hint) is None);
        }
        lemma_opened_by_none(packets[0], pairs, hint);
        let rest = packets.skip(1);
        assert(rest[p - 1] == packets[p]);
        assert forall|q: int, i: int|
            0 <= q < p - 1 && 0 <= i < pairs.len() implies packet_opened(
            #[trigger] rest[q],
            #[trigger] pairs[i],
            hint,
        ) is None by {
            assert(rest[q] == packets[q + 1]);
        }
        law_first_packet_counts(rest, pairs, hint, p - 1, k);
    }
}

proof fn lemma_opened_by(packet: Seq<u8>, pairs: Seq<Seq<u8>>, hint: Option<u8>, k: int)
    requires
        0 <= k < pairs.len(),
        packet_opened(packet, pairs[k], hint) is Some,
        forall|i: int| 0 <= i < k ==> packet_opened(packet, #[trigger] pairs[i], hint) is None,
    ensures
        opened_by_any(packet, pairs, hint) == packet_opened(packet, pairs[k], hint),
    decreases k,
{
    if k > 0 {
        let rest = pairs.skip(1);
        assert forall|i: int| 0 <= i < k - 1 implies packet_opened(
            packet,
            #[trigger] rest[i],
            hint,
        ) is None by {
            assert(rest[i] == pairs[i + 1]);
        }
        assert(packet_opened(packet, pairs[0], hint) is None);
        assert(rest[k - 1] == pairs[k]);
        lemma_opened_by(packet, rest, hint, k - 1);
    }
}

proof fn lemma_opened_by_none(packet: Seq<u8>, pairs: Seq<Seq<u8>>, hint: Option<u8>)
    requires
        forall|i: int|
            0 <= i < pairs.len() ==> packet_opened(packet, #[trigger] pairs[i], hint) is None,
    ensures
        opened_by_any(packet, pairs, hint) is None,
    decreases pairs.len(),
{
    if pairs.len() > 0 {
        let rest = pairs.skip(1);
        assert forall|i: int| 0 <= i < rest.len() implies packet_opened(
            packet,
            #[trigger] rest[i],
            hint,
        ) is None by {
            assert(rest[i] == pairs[i + 1]);
        }
        assert(packet_opened(packet, pairs[0], hint) is None);
        lemma_opened_by_none(packet, rest, hint);
    }
}

/// The policy of a message is that of the time itself, as far as 32 bits
/// reach.
pub proof fn law_policy_time(now: int)
    ensures
        0 <= now <= 0xffff_ffff ==> policy_seconds(now) == now,
        now < 0 ==> policy_seconds(now) == 0,
        now > 0xffff_ffff ==> policy_seconds(now) == 0xffff_ffff,
{
}

} // verus!
