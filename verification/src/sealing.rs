//! Sealing one card: session keys, encrypted data and detached signatures.
use vstd::prelude::*;

use crate::calendar_cards;
use crate::crypto;
use crate::crypto::{find_session, policy_time, UnlockedKey};
use crate::dates::unix_now;
use crate::encoding;
use crate::encoding::decode_base64;
use crate::error::ProtonError;
use crate::openpgp;
use crate::openpgp::{
    copy_bytes, key_size, key_unusable, random_key, read_pile, seal_session_key,
    write_container, write_signature, CipherKey, KeyPair, Stage,
};
use crate::text;
use crate::text::{concat2, copy_text, trimmed};
use crate::utf8;
use crate::utf8::text_of_bytes;

verus! {

/// The cipher of fresh session keys: AES with a key of 256 bits.
pub const SEAL_CIPHER: u8 = 9;

/// Why an OpenPGP operation failed: where, and the message.
pub type Fault = (Stage, Seq<char>);

// ---------------------------------------------------------------------
// Key pairs
// ---------------------------------------------------------------------

/// The pairs of all keys in their order.
pub open spec fn all_pairs(keys: Seq<Seq<Seq<u8>>>) -> Seq<Seq<u8>>
    decreases keys.len(),
{
    if keys.len() == 0 {
        seq![]
    } else {
        all_pairs(keys.drop_last()) + keys.last()
    }
}

/// The pair that signs: the first one of the first key.
pub open spec fn signer_of(keys: Seq<Seq<Seq<u8>>>) -> Option<Seq<u8>> {
    if keys.len() > 0 && keys[0].len() > 0 {
        Some(keys[0][0])
    } else {
        None
    }
}

/// The pairs of all keys in their order.
pub fn collect_pairs(keys: &[UnlockedKey]) -> (r: Vec<KeyPair>)
    ensures
        openpgp::pairs_view(r@) == all_pairs(crypto::unlocked_view(keys@)),
{
    let mut out: Vec<KeyPair> = Vec::new();
    let mut i: usize = 0;
    let ghost all = crypto::unlocked_view(keys@);
    assert(all.take(0) =~= seq![]);
    assert(openpgp::pairs_view(out@) =~= seq![]);
    while i < keys.len()
        invariant
            i <= keys@.len(),
            all == crypto::unlocked_view(keys@),
            openpgp::pairs_view(out@) == all_pairs(all.take(i as int)),
        decreases keys@.len() - i,
    {
        let pairs: &Vec<KeyPair> = &keys[i].keypairs;
        let ghost start = openpgp::pairs_view(out@);
        let ghost here = openpgp::pairs_view(pairs@);
        let mut j: usize = 0;
        assert(start + here.take(0) =~= start);
        while j < pairs.len()
            invariant
                j <= pairs@.len(),
                here == openpgp::pairs_view(pairs@),
                openpgp::pairs_view(out@) == start + here.take(j as int),
            decreases pairs@.len() - j,
        {
            let ghost before = out@;
            let pair: KeyPair = pairs[j].clone();
            out.push(pair);
            assert(openpgp::pairs_view(out@) =~= openpgp::pairs_view(before).push(pair@));
            assert(start + here.take(j + 1) =~= (start + here.take(j as int)).push(
                here[j as int],
            ));
            j = j + 1;
        }
        assert(here.take(here.len() as int) =~= here);
        assert(all.take(i + 1).drop_last() =~= all.take(i as int));
        assert(all.take(i + 1).last() == here);
        i = i + 1;
    }
    assert(all.take(all.len() as int) =~= all);
    out
}

/// The pair that signs.
pub fn first_pair(keys: &[UnlockedKey]) -> (r: Option<&KeyPair>)
    ensures
        match r {
            Some(p) => signer_of(crypto::unlocked_view(keys@)) == Some(p@),
            None => signer_of(crypto::unlocked_view(keys@)) is None,
        },
{
    if keys.len() == 0 || keys[0].keypairs.len() == 0 {
        None
    } else {
        assert(crypto::unlocked_view(keys@)[0][0] == keys@[0].keypairs@[0]@);
        Some(&keys[0].keypairs[0])
    }
}

// ---------------------------------------------------------------------
// Stored session keys
// ---------------------------------------------------------------------

/// The key packets of a pile.
pub open spec fn key_packets(pile: Seq<Option<Seq<u8>>>) -> Seq<Seq<u8>>
    decreases pile.len(),
{
    if pile.len() == 0 {
        seq![]
    } else {
        match pile.last() {
            Some(p) => key_packets(pile.drop_last()).push(p),
            None => key_packets(pile.drop_last()),
        }
    }
}

/// The session key of a stored key packet in base64, by any pair of any key;
/// or the message why there is none.
pub open spec fn stored_session(key_packet: Seq<char>, keys: Seq<Seq<Seq<u8>>>) -> Result<
    (u8, Seq<u8>),
    Seq<char>,
> {
    let trimmed = text::trim(key_packet);
    match encoding::base64_bytes(trimmed) {
        None => Err("key packet base64: "@ + encoding::base64_error(trimmed)),
        Some(raw) => match openpgp::pile(raw) {
            Err(e) => Err("key packet: "@ + e),
            Ok(pile) => match crypto::session_of(key_packets(pile), all_pairs(keys), None) {
                Some(k) => Ok(k),
                None => Err("key packet: no pair could decrypt"@),
            },
        },
    }
}

fn keep_packets(pile: Vec<Option<Vec<u8>>>) -> (r: Vec<Vec<u8>>)
    ensures
        openpgp::bytes_view(r@) == key_packets(openpgp::option_bytes_view(pile@)),
{
    let mut out: Vec<Vec<u8>> = Vec::new();
    let mut i: usize = 0;
    let ghost all = openpgp::option_bytes_view(pile@);
    assert(all.take(0) =~= seq![]);
    assert(openpgp::bytes_view(out@) =~= seq![]);
    while i < pile.len()
        invariant
            i <= pile@.len(),
            all == openpgp::option_bytes_view(pile@),
            openpgp::bytes_view(out@) == key_packets(all.take(i as int)),
        decreases pile@.len() - i,
    {
        let ghost before = out@;
        assert(all.take(i + 1).drop_last() =~= all.take(i as int));
        assert(all.take(i + 1).last() == openpgp::option_bytes(pile@[i as int]));
        if let Some(p) = &pile[i] {
            let packet: Vec<u8> = copy_bytes(p);
            out.push(packet);
            assert(openpgp::bytes_view(out@) =~= openpgp::bytes_view(before).push(packet@));
        }
        i = i + 1;
    }
    assert(all.take(all.len() as int) =~= all);
    out
}

/// Extracts the session key from a stored key packet: its cipher and the key.
pub fn extract_session_key(key_packet_b64: &str, cal_keys: &[UnlockedKey]) -> (r: Result<
    (u8, CipherKey),
    ProtonError,
>)
    ensures
        match r {
            Ok(k) => stored_session(key_packet_b64@, crypto::unlocked_view(cal_keys@)) == Ok::<
                (u8, Seq<u8>),
                Seq<char>,
            >(openpgp::key_view(k)),
            Err(e) => stored_session(
                key_packet_b64@,
                crypto::unlocked_view(cal_keys@),
            ) matches Err(m) && crypto::is_crypto(e, m),
        },
{
    let packet: String = trimmed(key_packet_b64);
    let raw: Vec<u8> = match decode_base64(packet.as_str()) {
        Ok(b) => b,
        Err(e) => return Err(ProtonError::Crypto(concat2("key packet base64: ", e.as_str()))),
    };
    let pile: Vec<Option<Vec<u8>>> = match read_pile(&raw) {
        Ok(p) => p,
        Err(e) => return Err(ProtonError::Crypto(concat2("key packet: ", e.as_str()))),
    };
    let packets: Vec<Vec<u8>> = keep_packets(pile);
    let pairs: Vec<KeyPair> = collect_pairs(cal_keys);
    match find_session(&packets, &pairs, None) {
        Some(k) => Ok(k),
        None => Err(ProtonError::Crypto(copy_text("key packet: no pair could decrypt"))),
    }
}

// ---------------------------------------------------------------------
// Encrypted data
// ---------------------------------------------------------------------

/// Whether data is there and behind any key packet makes a message that asks for a
/// session key once and gives `plain` with this one.
pub open spec fn holds_plain(data: Seq<u8>, plain: Seq<u8>, algo: u8, key: Seq<u8>) -> bool {
    data.len() > 0 && forall|packet: Seq<u8>| #[trigger]
        openpgp::pile(packet) == Ok::<Seq<Option<Seq<u8>>>, Seq<char>>(seq![Some(packet)])
            ==> openpgp::opens_once(packet + data, packet, (algo, key), plain)
}

/// The message for a fault while data is encrypted.
pub open spec fn seal_message(fault: Fault) -> Seq<char> {
    (match fault.0 {
        Stage::Armor => "seal armorer: "@,
        Stage::Container => "seal encryptor build: "@,
        Stage::Literal => "seal literal: "@,
        Stage::Write => "seal write: "@,
        Stage::Finalize => "seal finalize: "@,
        _ => "seal encryptor: "@,
    }) + fault.1
}

pub fn seal_error(stage: Stage, message: &str) -> (r: ProtonError)
    ensures
        crypto::is_crypto(r, seal_message((stage, message@))),
{
    let prefix: &str = match stage {
        Stage::Armor => "seal armorer: ",
        Stage::Container => "seal encryptor build: ",
        Stage::Literal => "seal literal: ",
        Stage::Write => "seal write: ",
        Stage::Finalize => "seal finalize: ",
        _ => "seal encryptor: ",
    };
    ProtonError::Crypto(concat2(prefix, message))
}

/// Encrypts with a given session key, without a key packet. With AES and a
/// key of its length it succeeds.
pub fn encrypt_with_session_key(plain: &[u8], algo: u8, session_key: &CipherKey) -> (r: Result<
    Vec<u8>,
    ProtonError,
>)
    ensures
        match r {
            Ok(data) => {
                &&& openpgp::container_refusal(algo, session_key@.len()) is None
                &&& openpgp::stays_accepted(algo) ==> holds_plain(data@, plain@, algo, session_key@)
            },
            Err(e) => {
                &&& openpgp::container_refusal(algo, session_key@.len()) matches Some(fault)
                    && crypto::is_crypto(e, seal_message(fault))
                &&& !(openpgp::is_aes(algo) && openpgp::cipher_key_len(algo) == Some(
                    session_key@.len() as int,
                ))
            },
        },
{
    match write_container(plain, algo, session_key) {
        Ok(data) => Ok(data),
        Err((stage, message)) => Err(seal_error(stage, message.as_str())),
    }
}

/// A fresh random session key for [`SEAL_CIPHER`].
pub fn fresh_session_key() -> (r: Result<CipherKey, ProtonError>)
    ensures
        r matches Ok(k) && k@.len() == 32,
{
    match key_size(SEAL_CIPHER) {
        Some(n) => Ok(random_key(n)),
        None => Err(ProtonError::Crypto(copy_text("cipher key size"))),
    }
}

// ---------------------------------------------------------------------
// Key packets
// ---------------------------------------------------------------------

/// Whether a key packet stands alone in its pile and, where the halves of the
/// pair match, holds the session key for it.
pub open spec fn sealed_for(packet: Seq<u8>, key: Seq<u8>, pair: Seq<u8>) -> bool {
    &&& packet.len() > 0
    &&& openpgp::pile(packet) == Ok::<Seq<Option<Seq<u8>>>, Seq<char>>(seq![Some(packet)])
    &&& key.len() == 32 && openpgp::halves_match(pair) ==> crypto::packet_opened(packet, pair, None)
        == Some((SEAL_CIPHER, key))
}

/// The first pair that takes a session key of a length, or the message why
/// none does.
pub open spec fn recipient_of(pairs: Seq<Seq<u8>>, len: nat, otherwise: Seq<char>) -> Result<
    Seq<u8>,
    Seq<char>,
>
    decreases pairs.len(),
{
    if pairs.len() == 0 {
        Err(otherwise)
    } else {
        match openpgp::recipient_refusal(pairs[0], SEAL_CIPHER, len) {
            None => Ok(pairs[0]),
            Some((Stage::Write, e)) => Err("seal key packet serialize: "@ + e),
            Some((_, e)) => recipient_of(pairs.skip(1), len, "seal key packet: "@ + e),
        }
    }
}

pub open spec fn key_packet_recipient(keys: Seq<Seq<Seq<u8>>>, len: nat) -> Result<
    Seq<u8>,
    Seq<char>,
> {
    recipient_of(all_pairs(keys), len, "seal: calendar key has no pairs"@)
}

/// Encrypts a session key to the first pair that takes it: not every pair of
/// a key can encrypt.
pub fn fresh_key_packet(session_key: &CipherKey, cal_keys: &[UnlockedKey]) -> (r: Result<
    Vec<u8>,
    ProtonError,
>)
    ensures
        match r {
            Ok(packet) => key_packet_recipient(
                crypto::unlocked_view(cal_keys@),
                session_key@.len(),
            ) matches Ok(pair) && sealed_for(packet@, session_key@, pair),
            Err(e) => key_packet_recipient(
                crypto::unlocked_view(cal_keys@),
                session_key@.len(),
            ) matches Err(m) && crypto::is_crypto(e, m),
        },
{
    let pairs: Vec<KeyPair> = collect_pairs(cal_keys);
    let mut last: String = copy_text("seal: calendar key has no pairs");
    let ghost all = openpgp::pairs_view(pairs@);
    let ghost whole = recipient_of(all, session_key@.len(), last@);
    let mut i: usize = 0;
    assert(all.skip(0) =~= all);
    while i < pairs.len()
        invariant
            i <= pairs@.len(),
            all == openpgp::pairs_view(pairs@),
            all == all_pairs(crypto::unlocked_view(cal_keys@)),
            whole == key_packet_recipient(crypto::unlocked_view(cal_keys@), session_key@.len()),
            whole == recipient_of(all.skip(i as int), session_key@.len(), last@),
        decreases pairs@.len() - i,
    {
        assert(all.skip(i as int)[0] == pairs@[i as int]@);
        assert(all.skip(i as int).skip(1) =~= all.skip(i + 1));
        match seal_session_key(SEAL_CIPHER, session_key, &pairs[i]) {
            Ok(packet) => return Ok(packet),
            Err((Stage::Write, e)) => {
                return Err(
                    ProtonError::Crypto(concat2("seal key packet serialize: ", e.as_str())),
                );
            },
            Err((_, e)) => {
                last = concat2("seal key packet: ", e.as_str());
            },
        }
        i = i + 1;
    }
    Err(ProtonError::Crypto(last))
}

// ---------------------------------------------------------------------
// Signatures
// ---------------------------------------------------------------------

/// The message for a fault while a signature is made.
pub open spec fn sign_message(fault: Fault) -> Seq<char> {
    (match fault.0 {
        Stage::Armor => "seal armorer: "@,
        Stage::Write => "seal sign write: "@,
        Stage::Finalize => "seal sign finalize: "@,
        _ => "seal signer: "@,
    }) + fault.1
}

/// Whether a text is an armored detached signature of data by a pair, of a
/// time. The pair is of an algorithm that makes signatures, and one that does
/// not refuse to.
pub open spec fn signature_of(
    signature: Seq<char>,
    data: Seq<u8>,
    pair: Seq<u8>,
    at: u32,
) -> bool {
    &&& openpgp::can_sign(pair)
    &&& !surely_refuses(pair, at)
    &&& openpgp::signs(vstd::utf8::encode_utf8(signature), data, pair, at)
    &&& text::starts_with(signature, "-----BEGIN PGP SIGNATURE-----"@)
}

/// Whether a pair is sure to make signatures of a time.
pub open spec fn surely_signs(pair: Seq<u8>, at: u32) -> bool {
    !openpgp::unusable(pair) && openpgp::settled(pair) && !openpgp::sign_refused(pair, at)
}

/// Whether a pair is sure not to make signatures of a time.
pub open spec fn surely_refuses(pair: Seq<u8>, at: u32) -> bool {
    openpgp::unusable(pair) || (openpgp::settled(pair) && openpgp::sign_refused(pair, at))
}

/// Whether an error is one of signing with a pair: what is no pair, and a key
/// that is left alone, have an error of their own; of any other it comes from
/// the making of the signature.
pub open spec fn sign_error(e: ProtonError, pair: Seq<u8>, at: u32) -> bool {
    &&& !surely_signs(pair, at)
    &&& if openpgp::unusable(pair) {
        crypto::is_crypto(e, "seal signer: unusable key"@)
    } else {
        match openpgp::pair_facts(pair) {
            Err(m) => crypto::is_crypto(e, sign_message((Stage::Key, m))),
            Ok(_) => exists|fault: Fault|
                fault.0 != Stage::Key && crypto::is_crypto(e, #[trigger] sign_message(fault)),
        }
    }
}

/// An armored detached signature of a time, or where its making failed.
pub fn sign_with(at: u32, plain: &[u8], signer: &KeyPair) -> (r: Result<String, SignFault>)
    ensures
        match r {
            Ok(signature) => signature_of(signature@, plain@, signer@, at),
            Err(SignFault::Unusable) => openpgp::unusable(signer@),
            Err(SignFault::At(stage, m)) => {
                &&& !openpgp::unusable(signer@)
                &&& !surely_signs(signer@, at)
                &&& match openpgp::pair_facts(signer@) {
                    Err(text) => stage == Stage::Key && m@ == text,
                    Ok(_) => stage != Stage::Key,
                }
            },
        },
{
    if key_unusable(signer) {
        return Err(SignFault::Unusable);
    }
    match write_signature(at, plain, signer) {
        Ok(bytes) => {
            proof {
                utf8::lemma_ascii_text(bytes@);
                reveal_strlit("-----BEGIN PGP SIGNATURE-----");
                lemma_prefix_text("-----BEGIN PGP SIGNATURE-----"@, bytes@);
            }
            match text_of_bytes(bytes) {
                Some(t) => Ok(t),
                None => Err(SignFault::At(Stage::Finalize, copy_text("signature is no text"))),
            }
        },
        Err((stage, message)) => Err(SignFault::At(stage, message)),
    }
}

/// Why a signature was not made.
pub enum SignFault {
    /// The key is one that is left alone.
    Unusable,
    /// The making failed at a stage, with a message.
    At(Stage, String),
}

/// An armored detached signature of plain data, of the clock's time.
pub fn detached_sign(plain: &[u8], signer: &KeyPair) -> (r: Result<String, ProtonError>)
    ensures
        exists|at: u32| #[trigger] signed_or_not(r, plain@, signer@, at),
{
    let at: u32 = policy_time(unix_now());
    detached_sign_at(at, plain, signer)
}

/// Whether a result is one of signing with a pair.
pub open spec fn signed_or_not(
    r: Result<String, ProtonError>,
    plain: Seq<u8>,
    pair: Seq<u8>,
    at: u32,
) -> bool {
    match r {
        Ok(signature) => signature_of(signature@, plain, pair, at),
        Err(e) => sign_error(e, pair, at),
    }
}

/// An armored detached signature of plain data, of a time.
pub fn detached_sign_at(at: u32, plain: &[u8], signer: &KeyPair) -> (r: Result<
    String,
    ProtonError,
>)
    ensures
        signed_or_not(r, plain@, signer@, at),
{
    match sign_with(at, plain, signer) {
        Ok(t) => Ok(t),
        Err(SignFault::Unusable) => {
            Err(ProtonError::Crypto(copy_text("seal signer: unusable key")))
        },
        Err(SignFault::At(stage, message)) => {
            let prefix: &str = match stage {
                Stage::Armor => "seal armorer: ",
                Stage::Write => "seal sign write: ",
                Stage::Finalize => "seal sign finalize: ",
                _ => "seal signer: ",
            };
            let e: ProtonError = ProtonError::Crypto(concat2(prefix, message.as_str()));
            assert(crypto::is_crypto(e, sign_message((stage, message@))));
            Err(e)
        },
    }
}

/// ASCII bytes that begin with those of a text are a text that begins with
/// it.
pub proof fn lemma_prefix_text(head: Seq<char>, bytes: Seq<u8>)
    requires
        utf8::is_ascii_bytes(bytes),
        utf8::ascii_bytes(head).is_prefix_of(bytes),
        text::is_ascii_text(head),
    ensures
        text::starts_with(utf8::ascii_text(bytes), head),
{
    let t = utf8::ascii_text(bytes);
    assert forall|i: int| 0 <= i < head.len() implies t[i] == head[i] by {
        assert(utf8::ascii_bytes(head)[i] == bytes[i]);
        let c = head[i] as u32;
        assert(c < 128);
        assert((c as u8) as u32 == c);
        assert(bytes[i] as u32 == c);
        vstd::utf8::char_u32_cast(head[i], c);
        assert(t[i] == bytes[i] as char);
        assert((bytes[i] as u32) as char == bytes[i] as char);
    }
    assert(t.take(head.len() as int) =~= head);
}

// ---------------------------------------------------------------------
// Cards
// ---------------------------------------------------------------------

/// Whether a result is one of sealing a card for a new event.
pub open spec fn sealed_or_not(
    r: Result<(Vec<u8>, Vec<u8>, String), ProtonError>,
    plain: Seq<u8>,
    cal_keys: Seq<Seq<Seq<u8>>>,
    addr_keys: Seq<Seq<Seq<u8>>>,
    at: u32,
) -> bool {
    match r {
        Ok((packet, data, signature)) => {
            &&& card_sealed(packet@, data@, plain, cal_keys)
            &&& signer_of(addr_keys) matches Some(pair) && signature_of(
                signature@,
                plain,
                pair,
                at,
            )
        },
        Err(e) => seal_card_error(e, cal_keys, addr_keys, at),
    }
}

/// Seals one card for a new event, with a fresh session key and a signature
/// of the clock's time: key packet, data and signature.
pub fn seal_card(plain: &str, cal_keys: &[UnlockedKey], addr_keys: &[UnlockedKey]) -> (r: Result<
    (Vec<u8>, Vec<u8>, String),
    ProtonError,
>)
    ensures
        exists|at: u32| #[trigger]
            sealed_or_not(
                r,
                vstd::utf8::encode_utf8(plain@),
                crypto::unlocked_view(cal_keys@),
                crypto::unlocked_view(addr_keys@),
                at,
            ),
{
    let at: u32 = policy_time(unix_now());
    seal_card_at(at, plain, cal_keys, addr_keys)
}

/// Seals one card for a new event, with a fresh session key and a signature
/// of a time.
pub fn seal_card_at(
    at: u32,
    plain: &str,
    cal_keys: &[UnlockedKey],
    addr_keys: &[UnlockedKey],
) -> (r: Result<(Vec<u8>, Vec<u8>, String), ProtonError>)
    ensures
        sealed_or_not(
            r,
            vstd::utf8::encode_utf8(plain@),
            crypto::unlocked_view(cal_keys@),
            crypto::unlocked_view(addr_keys@),
            at,
        ),
{
    let key: CipherKey = fresh_session_key()?;
    let r: Result<(Vec<u8>, Vec<u8>, String), ProtonError> = seal_card_with(
        at,
        &key,
        plain,
        cal_keys,
        addr_keys,
    );
    assert(r matches Ok((packet, data, _)) ==> card_sealed_with(
        packet@,
        data@,
        vstd::utf8::encode_utf8(plain@),
        crypto::unlocked_view(cal_keys@),
        key@,
    ));
    r
}

/// Seals one card for a new event, with a given session key and a signature
/// of a time.
pub fn seal_card_with(
    at: u32,
    session_key: &CipherKey,
    plain: &str,
    cal_keys: &[UnlockedKey],
    addr_keys: &[UnlockedKey],
) -> (r: Result<(Vec<u8>, Vec<u8>, String), ProtonError>)
    requires
        session_key@.len() == 32,
    ensures
        match r {
            Ok((packet, data, signature)) => {
                &&& card_sealed_with(
                    packet@,
                    data@,
                    vstd::utf8::encode_utf8(plain@),
                    crypto::unlocked_view(cal_keys@),
                    session_key@,
                )
                &&& signer_of(crypto::unlocked_view(addr_keys@)) matches Some(pair)
                    && signature_of(signature@, vstd::utf8::encode_utf8(plain@), pair, at)
            },
            Err(e) => seal_card_error(
                e,
                crypto::unlocked_view(cal_keys@),
                crypto::unlocked_view(addr_keys@),
                at,
            ),
        },
{
    let data: Vec<u8> = encrypt_with_session_key(plain.as_bytes(), SEAL_CIPHER, session_key)?;
    let packet: Vec<u8> = match fresh_key_packet(session_key, cal_keys) {
        Ok(p) => p,
        Err(e) => return Err(e),
    };
    let signature: String = match first_pair(addr_keys) {
        Some(pair) => match detached_sign_at(at, plain.as_bytes(), pair) {
            Ok(s) => s,
            Err(e) => return Err(e),
        },
        None => return Err(ProtonError::Crypto(copy_text("seal: address key has no pairs"))),
    };
    Ok((packet, data, signature))
}

/// Whether key packet and data were sealed with a session key to the first
/// pair that takes one.
pub open spec fn card_sealed_with(
    packet: Seq<u8>,
    data: Seq<u8>,
    plain: Seq<u8>,
    keys: Seq<Seq<Seq<u8>>>,
    key: Seq<u8>,
) -> bool {
    &&& key.len() == 32
    &&& holds_plain(data, plain, SEAL_CIPHER, key)
    &&& key_packet_recipient(keys, 32) matches Ok(pair) && sealed_for(packet, key, pair)
}

/// Whether key packet and data seal `plain` to the first pair that takes a
/// session key.
pub open spec fn card_sealed(
    packet: Seq<u8>,
    data: Seq<u8>,
    plain: Seq<u8>,
    keys: Seq<Seq<Seq<u8>>>,
) -> bool {
    exists|key: Seq<u8>| #[trigger] card_sealed_with(packet, data, plain, keys, key)
}

/// Whether an error is one of sealing a card: no pair takes the session key,
/// there is no pair to sign with, or signing failed.
pub open spec fn seal_card_error(
    e: ProtonError,
    cal_keys: Seq<Seq<Seq<u8>>>,
    addr_keys: Seq<Seq<Seq<u8>>>,
    at: u32,
) -> bool {
    match key_packet_recipient(cal_keys, 32) {
        Err(m) => crypto::is_crypto(e, m),
        Ok(_) => match signer_of(addr_keys) {
            None => crypto::is_crypto(e, "seal: address key has no pairs"@),
            Some(pair) => sign_error(e, pair, at),
        },
    }
}

/// Whether a result is one of sealing a card of a stored event again.
pub open spec fn resealed_or_not(
    r: Result<(Vec<u8>, String), ProtonError>,
    plain: Seq<u8>,
    key: Seq<u8>,
    algo: u8,
    addr_key: Seq<Seq<u8>>,
    at: u32,
) -> bool {
    match r {
        Ok((data, signature)) => {
            &&& openpgp::container_refusal(algo, key.len()) is None
            &&& openpgp::stays_accepted(algo) ==> holds_plain(data@, plain, algo, key)
            &&& addr_key.len() > 0 && signature_of(
                signature@,
                plain,
                addr_key[0],
                at,
            )
        },
        Err(e) => match openpgp::container_refusal(algo, key.len()) {
            Some(fault) => crypto::is_crypto(e, seal_message(fault)),
            None => if addr_key.len() == 0 {
                crypto::is_crypto(e, "reseal: address key has no pairs"@)
            } else {
                sign_error(e, addr_key[0], at)
            },
        },
    }
}

/// Seals one card of a stored event again, with the session key that it has
/// and a signature of the clock's time.
pub fn reseal_card(
    plain: &str,
    session_key: &CipherKey,
    algo: u8,
    addr_key: &UnlockedKey,
) -> (r: Result<(Vec<u8>, String), ProtonError>)
    ensures
        exists|at: u32| #[trigger]
            resealed_or_not(
                r,
                vstd::utf8::encode_utf8(plain@),
                session_key@,
                algo,
                addr_key@,
                at,
            ),
{
    let at: u32 = policy_time(unix_now());
    reseal_card_at(at, plain, session_key, algo, addr_key)
}

/// Seals one card of a stored event again, with the session key that it has
/// and a signature of a time.
pub fn reseal_card_at(
    at: u32,
    plain: &str,
    session_key: &CipherKey,
    algo: u8,
    addr_key: &UnlockedKey,
) -> (r: Result<(Vec<u8>, String), ProtonError>)
    ensures
        resealed_or_not(
            r,
            vstd::utf8::encode_utf8(plain@),
            session_key@,
            algo,
            addr_key@,
            at,
        ),
{
    let data: Vec<u8> = match encrypt_with_session_key(plain.as_bytes(), algo, session_key) {
        Ok(d) => d,
        Err(e) => return Err(e),
    };
    if addr_key.keypairs.len() == 0 {
        return Err(ProtonError::Crypto(copy_text("reseal: address key has no pairs")));
    }
    match detached_sign_at(at, plain.as_bytes(), &addr_key.keypairs[0]) {
        Ok(signature) => Ok((data, signature)),
        Err(e) => Err(e),
    }
}

// ---------------------------------------------------------------------
// Reading back
// ---------------------------------------------------------------------

proof fn lemma_all_pairs_first(keys: Seq<Seq<Seq<u8>>>)
    requires
        keys.len() > 0,
    ensures
        all_pairs(keys) == keys[0] + all_pairs(keys.skip(1)),
    decreases keys.len(),
{
    let rest = keys.skip(1);
    if keys.len() == 1 {
        assert(keys.drop_last() =~= seq![]);
        assert(rest =~= seq![]);
        assert(all_pairs(keys) =~= keys[0] + all_pairs(rest));
    } else {
        lemma_all_pairs_first(keys.drop_last());
        assert(keys.drop_last().skip(1) =~= rest.drop_last());
        assert(all_pairs(keys) =~= keys[0] + all_pairs(rest));
    }
}

proof fn lemma_opened_by_either(packet: Seq<u8>, a: Seq<Seq<u8>>, b: Seq<Seq<u8>>, hint: Option<u8>)
    ensures
        crypto::opened_by_any(packet, a + b, hint) == (match crypto::opened_by_any(
            packet,
            a,
            hint,
        ) {
            Some(k) => Some(k),
            None => crypto::opened_by_any(packet, b, hint),
        }),
    decreases a.len(),
{
    if a.len() == 0 {
        assert(a + b =~= b);
    } else {
        lemma_opened_by_either(packet, a.skip(1), b, hint);
        assert((a + b).skip(1) =~= a.skip(1) + b);
    }
}

/// A message with one key packet opens with the first key of which a pair
/// opens the packet.
pub proof fn lemma_message_opens(
    at: u32,
    message: Seq<u8>,
    packet: Seq<u8>,
    keys: Seq<Seq<Seq<u8>>>,
    key: (u8, Seq<u8>),
    content: Seq<u8>,
    plain: Seq<char>,
)
    requires
        openpgp::message_step(at, message, seq![]) == (openpgp::StepModel::Asks {
            packets: seq![packet],
            hint: None,
        }),
        openpgp::message_step(at, message, seq![key]) == openpgp::StepModel::Holds(content),
        utf8::utf8_text(content) == Some(plain),
        crypto::opened_by_any(packet, all_pairs(keys), None) == Some(key),
    ensures
        crypto::first_opened(at, message, keys) == Some(plain),
    decreases keys.len(),
{
    if keys.len() > 0 {
        lemma_all_pairs_first(keys);
        lemma_opened_by_either(packet, keys[0], all_pairs(keys.skip(1)), None);
        let packets = seq![packet];
        assert(packets.skip(1) =~= seq![]);
        assert(crypto::session_of(packets.skip(1), keys[0], None) is None);
        assert(crypto::session_of(packets, keys[0], None) == crypto::opened_by_any(
            packet,
            keys[0],
            None,
        ));
        let none = Seq::<(u8, Seq<u8>)>::empty();
        assert(none =~= seq![]);
        assert(none.push(key) =~= seq![key]);
        if crypto::opened_by_any(packet, keys[0], None) is None {
            lemma_message_opens(at, message, packet, keys.skip(1), key, content, plain);
        } else {
            assert(crypto::opened(at, message, keys[0], none.push(key), 16) == Some(content));
        }
    }
}

/// A card that was sealed with a session key reads back through the key
/// packet that holds this key: the text is the one that was sealed.
pub proof fn law_sealed_card_reads_back(
    at: u32,
    packet: Seq<u8>,
    data: Seq<u8>,
    plain: Seq<char>,
    algo: u8,
    key: Seq<u8>,
    cal_keys: Seq<Seq<Seq<u8>>>,
    addr_keys: Seq<Seq<Seq<u8>>>,
)
    requires
        packet.len() > 0,
        openpgp::pile(packet) == Ok::<Seq<Option<Seq<u8>>>, Seq<char>>(seq![Some(packet)]),
        holds_plain(data, vstd::utf8::encode_utf8(plain), algo, key),
        crypto::opened_by_any(packet, all_pairs(cal_keys), None) == Some((algo, key)),
    ensures
        calendar_cards::card_text(
            at,
            3,
            encoding::base64_text(data),
            Some(encoding::base64_text(packet)),
            cal_keys,
            addr_keys,
        ) == Some(plain),
{
    encoding::law_base64_round_trip(packet);
    encoding::law_base64_round_trip(data);
    encoding::lemma_sextets(packet);
    encoding::lemma_sextets(data);
    utf8::law_utf8_round_trip(plain);
    lemma_message_opens(
        at,
        packet + data,
        packet,
        cal_keys,
        (algo, key),
        vstd::utf8::encode_utf8(plain),
        plain,
    );
}

/// A freshly sealed card reads back with the keys that it was sealed to:
/// where the halves of the pair match, and no pair before it opens the key
/// packet to something else.
pub proof fn law_fresh_card_reads_back(
    at: u32,
    packet: Seq<u8>,
    data: Seq<u8>,
    plain: Seq<char>,
    cal_keys: Seq<Seq<Seq<u8>>>,
    addr_keys: Seq<Seq<Seq<u8>>>,
)
    requires
        card_sealed(packet, data, vstd::utf8::encode_utf8(plain), cal_keys),
        key_packet_recipient(cal_keys, 32) matches Ok(pair) && openpgp::halves_match(pair)
            && crypto::opened_by_any(packet, all_pairs(cal_keys), None) == crypto::packet_opened(
            packet,
            pair,
            None,
        ),
    ensures
        calendar_cards::card_text(
            at,
            3,
            encoding::base64_text(data),
            Some(encoding::base64_text(packet)),
            cal_keys,
            addr_keys,
        ) == Some(plain),
{
    let key = choose|key: Seq<u8>| #[trigger]
        card_sealed_with(packet, data, vstd::utf8::encode_utf8(plain), cal_keys, key);
    law_sealed_card_reads_back(at, packet, data, plain, SEAL_CIPHER, key, cal_keys, addr_keys);
}

proof fn lemma_trim_nothing(s: Seq<char>)
    requires
        forall|i: int| 0 <= i < s.len() ==> !text::is_white(#[trigger] s[i]),
    ensures
        text::trim(s) == s,
{
    reveal_with_fuel(text::trim_start, 2);
    reveal_with_fuel(text::trim_end, 2);
    if s.len() > 0 {
        assert(!text::is_white(s[0]));
        assert(!text::is_white(s[s.len() - 1]));
    }
}

/// Base64 text has no white space.
pub proof fn lemma_base64_trimmed(b: Seq<u8>)
    ensures
        text::trim(encoding::base64_text(b)) == encoding::base64_text(b),
{
    let s = encoding::base64_text(b);
    encoding::lemma_sextets(b);
    assert forall|i: int| 0 <= i < s.len() implies !text::is_white(#[trigger] s[i]) by {
        let n = encoding::sextets(b).len();
        if i < n {
            let v = encoding::sextets(b)[i];
            assert(0 <= v < 64);
            assert(s[i] == encoding::standard_char(v));
        } else {
            assert(s[i] == encoding::padding(b.len() as int)[i - n]);
            assert(s[i] == '=');
        }
    }
    lemma_trim_nothing(s);
}

/// The session key of a single key packet is what a pair opens it to.
pub proof fn lemma_stored_session(packet: Seq<u8>, cal_keys: Seq<Seq<Seq<u8>>>)
    requires
        openpgp::pile(packet) == Ok::<Seq<Option<Seq<u8>>>, Seq<char>>(seq![Some(packet)]),
    ensures
        stored_session(encoding::base64_text(packet), cal_keys) == (match crypto::opened_by_any(
            packet,
            all_pairs(cal_keys),
            None,
        ) {
            Some(k) => Ok::<(u8, Seq<u8>), Seq<char>>(k),
            None => Err("key packet: no pair could decrypt"@),
        }),
{
    lemma_base64_trimmed(packet);
    encoding::law_base64_round_trip(packet);
    let pile = seq![Some(packet)];
    assert(pile.drop_last() =~= seq![]);
    assert(key_packets(pile.drop_last()) =~= seq![]);
    assert(key_packets(pile) =~= seq![packet]);
    let packets = seq![packet];
    assert(packets.skip(1) =~= seq![]);
    assert(crypto::session_of(packets.skip(1), all_pairs(cal_keys), None) is None);
}

/// The session key of a fresh key packet is the one that an update gets from
/// the stored packet.
pub proof fn law_stored_session_is_sealed_one(
    packet: Seq<u8>,
    key: Seq<u8>,
    pair: Seq<u8>,
    cal_keys: Seq<Seq<Seq<u8>>>,
)
    requires
        key.len() == 32,
        sealed_for(packet, key, pair),
        openpgp::halves_match(pair),
        crypto::opened_by_any(packet, all_pairs(cal_keys), None) == crypto::packet_opened(
            packet,
            pair,
            None,
        ),
    ensures
        stored_session(encoding::base64_text(packet), cal_keys) == Ok::<(u8, Seq<u8>), Seq<char>>(
            (SEAL_CIPHER, key),
        ),
{
    lemma_stored_session(packet, cal_keys);
}

/// The pair that signs is the first of the first key, and where that key has
/// none there is none, whatever the others have.
pub proof fn law_first_pair_signs(keys: Seq<Seq<Seq<u8>>>)
    ensures
        keys.len() > 0 && keys[0].len() > 0 ==> signer_of(keys) == Some(keys[0][0]),
        keys.len() == 0 || keys[0].len() == 0 ==> signer_of(keys) is None,
{
}

/// The pairs of keys are those of each key, one key after the other.
pub proof fn law_pairs_keep_their_order(keys: Seq<Seq<Seq<u8>>>, key: Seq<Seq<u8>>)
    ensures
        all_pairs(keys.push(key)) == all_pairs(keys) + key,
        all_pairs(seq![]) == Seq::<Seq<u8>>::empty(),
{
    assert(keys.push(key).drop_last() =~= keys);
}

/// A session key goes to the first pair that takes it, where no pair before
/// fails in a way that ends the search.
pub proof fn law_first_taker_receives(
    pairs: Seq<Seq<u8>>,
    len: nat,
    otherwise: Seq<char>,
    k: int,
)
    requires
        0 <= k < pairs.len(),
        openpgp::recipient_refusal(pairs[k], SEAL_CIPHER, len) is None,
        forall|i: int|
            0 <= i < k ==> (openpgp::recipient_refusal(#[trigger] pairs[i], SEAL_CIPHER, len)
                matches Some((stage, _)) && !(stage is Write)),
    ensures
        recipient_of(pairs, len, otherwise) == Ok::<Seq<u8>, Seq<char>>(pairs[k]),
    decreases k,
{
    if k > 0 {
        let rest = pairs.skip(1);
        assert forall|i: int| 0 <= i < k - 1 implies (openpgp::recipient_refusal(
            #[trigger] rest[i],
            SEAL_CIPHER,
            len,
        ) matches Some((stage, _)) && !(stage is Write)) by {
            assert(rest[i] == pairs[i + 1]);
        }
        assert(openpgp::recipient_refusal(pairs[0], SEAL_CIPHER, len) is Some);
        assert(rest[k - 1] == pairs[k]);
        let refused = openpgp::recipient_refusal(pairs[0], SEAL_CIPHER, len)->Some_0;
        law_first_taker_receives(rest, len, "seal key packet: "@ + refused.1, k - 1);
    }
}

} // verus!
