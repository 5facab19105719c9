//! Sealing contacts: a signed card and an encrypted one.
use vstd::prelude::*;

use crate::crypto;
use crate::crypto::{decrypt_contact_card_at, policy_time, UnlockedKey};
use crate::dates::unix_now;
use crate::error;
use crate::error::ProtonError;
use crate::keygroups;
use crate::keygroups::{
    append_vcard_lines, extract_key_groups, render_key_groups, unknown_vcard_props,
    unknown_vcard_props_except_keys, Group, KeyGroup,
};
use crate::lines;
use crate::lists::extend_texts;
use crate::models::ContactCard;
use crate::numbers;
use crate::numbers::decimal_text;
use crate::openpgp;
use crate::openpgp::{write_message, KeyPair, Stage};
use crate::ordered;
use crate::ordered::{sort_unique, TextMap};
use crate::sealing;
use crate::sealing::{
    collect_pairs, detached_sign_at, seal_error, sign_with, Fault, SignFault,
};
use crate::text;
use crate::text::{concat2, copy_text, join_texts};
use crate::utf8;
use crate::utf8::text_of_bytes;
use crate::vcard;
use crate::vcard::{build_vcard, parse_vcard, with_photos, Contact, ParsedContact, Typed};
use crate::vcard_back;

verus! {

broadcast use crate::text::lemma_texts_push;

// ---------------------------------------------------------------------
// Sealing one card
// ---------------------------------------------------------------------

/// Whether a text is an armored message that asks for a session key once,
/// and that gives `plain` with the one which its key packet holds for the
/// pair, where the halves of the pair match.
pub open spec fn message_for(message: Seq<char>, plain: Seq<u8>, pair: Seq<u8>) -> bool {
    let bytes = vstd::utf8::encode_utf8(message);
    &&& text::starts_with(message, "-----BEGIN PGP MESSAGE-----"@)
    &&& openpgp::halves_match(pair) ==> exists|packet: Seq<u8>, key: (u8, Seq<u8>)|
        #[trigger] openpgp::opens_once(bytes, packet, key, plain) && crypto::packet_opened(
            packet,
            pair,
            None,
        ) == Some(key)
}

/// The message for a fault while the signature of a contact card is made.
pub open spec fn card_sign_message(fault: Fault) -> Seq<char> {
    (match fault.0 {
        Stage::Armor => "seal sig armorer: "@,
        Stage::Write => "seal sign write: "@,
        Stage::Finalize => "seal sign finalize: "@,
        _ => "seal signer: "@,
    }) + fault.1
}

/// Whether a card can surely be sealed with two pairs: the one takes messages,
/// and the other makes signatures of the time.
pub open spec fn surely_seals(enc: Seq<u8>, sign: Seq<u8>, at: u32) -> bool {
    openpgp::message_refusal(enc) is None && sealing::surely_signs(sign, at)
}

/// Whether an error is one of sealing a card with two pairs.
pub open spec fn pair_error(e: ProtonError, enc: Seq<u8>, sign: Seq<u8>, at: u32) -> bool {
    &&& !surely_seals(enc, sign, at)
    &&& match openpgp::message_refusal(enc) {
        Some(fault) => crypto::is_crypto(e, sealing::seal_message(fault)),
        None => if openpgp::unusable(sign) {
            crypto::is_crypto(e, "seal signer: unusable key"@)
        } else {
            match openpgp::pair_facts(sign) {
                Err(m) => crypto::is_crypto(e, card_sign_message((Stage::Key, m))),
                Ok(_) => exists|fault: Fault|
                    fault.0 != Stage::Key && crypto::is_crypto(
                        e,
                        #[trigger] card_sign_message(fault),
                    ),
            }
        },
    }
}

/// Whether data and signature seal a card with two pairs.
pub open spec fn sealed_by(
    data: Seq<char>,
    signature: Seq<char>,
    plain: Seq<u8>,
    enc: Seq<u8>,
    sign: Seq<u8>,
    at: u32,
) -> bool {
    &&& openpgp::message_refusal(enc) is None
    &&& !openpgp::only_signs(enc)
    &&& message_for(data, plain, enc)
    &&& sealing::signature_of(signature, plain, sign, at)
}

/// Seals a card: encrypted to one pair and signed by the other, with a
/// signature of a time.
pub fn seal_with_pair(at: u32, plain: &str, enc_pair: &KeyPair, sign_pair: &KeyPair) -> (r: Result<
    (String, String),
    ProtonError,
>)
    ensures
        match r {
            Ok((data, signature)) => sealed_by(
                data@,
                signature@,
                vstd::utf8::encode_utf8(plain@),
                enc_pair@,
                sign_pair@,
                at,
            ),
            Err(e) => pair_error(e, enc_pair@, sign_pair@, at),
        },
{
    let bytes: &[u8] = plain.as_bytes();
    let message: Vec<u8> = match write_message(bytes, enc_pair) {
        Ok(m) => m,
        Err((stage, text)) => return Err(seal_error(stage, text.as_str())),
    };
    let signature: String = match sign_with(at, bytes, sign_pair) {
        Ok(s) => s,
        Err(SignFault::Unusable) => {
            return Err(ProtonError::Crypto(copy_text("seal signer: unusable key")));
        },
        Err(SignFault::At(stage, text)) => {
            let prefix: &str = match stage {
                Stage::Armor => "seal sig armorer: ",
                Stage::Write => "seal sign write: ",
                Stage::Finalize => "seal sign finalize: ",
                _ => "seal signer: ",
            };
            let e: ProtonError = ProtonError::Crypto(concat2(prefix, text.as_str()));
            assert(crypto::is_crypto(e, card_sign_message((stage, text@))));
            return Err(e);
        },
    };
    proof {
        utf8::lemma_ascii_text(message@);
        reveal_strlit("-----BEGIN PGP MESSAGE-----");
        sealing::lemma_prefix_text("-----BEGIN PGP MESSAGE-----"@, message@);
        if openpgp::halves_match(enc_pair@) {
            let (packet, key) = choose|packet: Seq<u8>, key: (u8, Seq<u8>)|
                {
                    &&& #[trigger] openpgp::opens_once(message@, packet, key, bytes@)
                    &&& (openpgp::wrapped_len(packet) matches Some(n) ==> n >= 16)
                    &&& openpgp::payload_len(packet, enc_pair@) != Some(0nat)
                    &&& openpgp::packet_key(packet, enc_pair@, None) == Some(key)
                };
            assert(crypto::packet_opened(packet, enc_pair@, None) == Some(key));
        }
    }
    match text_of_bytes(message) {
        Some(data) => Ok((data, signature)),
        None => Err(ProtonError::Crypto(copy_text("seal UTF-8"))),
    }
}

/// Whether one combination of pairs comes before another: by the pair that
/// is encrypted to, then by the one that signs.
pub open spec fn comes_before(a: int, b: int, i: int, j: int) -> bool {
    a < i || (a == i && b < j)
}

/// Whether no combination of pairs before this one can surely seal a card.
pub open spec fn none_before(pairs: Seq<Seq<u8>>, i: int, j: int, at: u32) -> bool {
    forall|a: int, b: int|
        0 <= a < pairs.len() && 0 <= b < pairs.len() && comes_before(a, b, i, j)
            ==> !#[trigger] surely_seals(pairs[a], pairs[b], at)
}

/// Whether an error is one of sealing a card with any two of the pairs: none
/// of the combinations can surely do it, and it is that of the last attempt.
pub open spec fn seal_contact_error(e: ProtonError, pairs: Seq<Seq<u8>>, at: u32) -> bool {
    if pairs.len() == 0 {
        crypto::is_crypto(e, "seal: user key has no pairs"@)
    } else {
        &&& none_before(pairs, pairs.len() as int, 0, at)
        &&& exists|last: ProtonError|
            pair_error(last, pairs.last(), pairs.last(), at) && crypto::is_crypto(
                e,
                "seal: "@ + #[trigger] error::error_text(last),
            )
    }
}

/// Whether data and signature seal a card with two of the pairs, the first in
/// order that work.
pub open spec fn sealed_by_any(
    data: Seq<char>,
    signature: Seq<char>,
    plain: Seq<u8>,
    pairs: Seq<Seq<u8>>,
    at: u32,
) -> bool {
    exists|i: int, j: int|
        0 <= i < pairs.len() && 0 <= j < pairs.len() && #[trigger] sealed_by(
            data,
            signature,
            plain,
            pairs[i],
            pairs[j],
            at,
        ) && none_before(pairs, i, j, at)
}

/// What follows an attempt to seal a card with two of the pairs.
#[derive(Debug)]
pub enum PairAttempt {
    /// It worked: message and signature.
    Done(String, String),
    /// Try the pair at the first index with the one at the second.
    Next(usize, usize),
    /// All were tried.
    Failed(ProtonError),
}

/// What follows the attempt to encrypt to the pair at `enc` and to sign with
/// the one at `sign`, of `count` pairs: the first that works is taken, and
/// after the last one its error counts.
pub fn next_pair_attempt(
    outcome: Result<(String, String), ProtonError>,
    enc: usize,
    sign: usize,
    count: usize,
) -> (r: PairAttempt)
    requires
        enc < count,
        sign < count,
    ensures
        match outcome {
            Ok((data, signature)) => r == PairAttempt::Done(data, signature),
            Err(e) => if sign + 1 < count {
                r == PairAttempt::Next(enc, (sign + 1) as usize)
            } else if enc + 1 < count {
                r == PairAttempt::Next((enc + 1) as usize, 0)
            } else {
                r matches PairAttempt::Failed(f) && crypto::is_crypto(
                    f,
                    "seal: "@ + error::error_text(e),
                )
            },
        },
{
    match outcome {
        Ok((data, signature)) => PairAttempt::Done(data, signature),
        Err(e) => {
            if sign + 1 < count {
                PairAttempt::Next(enc, sign + 1)
            } else if enc + 1 < count {
                PairAttempt::Next(enc + 1, 0)
            } else {
                let message: String = e.message();
                PairAttempt::Failed(ProtonError::Crypto(concat2("seal: ", message.as_str())))
            }
        },
    }
}

/// Whether a result is one of sealing a card with any two of the pairs.
pub open spec fn card_sealed_or_not(
    r: Result<(String, String), ProtonError>,
    plain: Seq<u8>,
    pairs: Seq<Seq<u8>>,
    at: u32,
) -> bool {
    match r {
        Ok((data, signature)) => sealed_by_any(data@, signature@, plain, pairs, at),
        Err(e) => seal_contact_error(e, pairs, at),
    }
}

/// Seals a contact card: the armored message and the armored signature, of
/// the clock's time. Encrypting and signing take different pairs of a key, so
/// every combination is tried until one works.
pub fn seal_contact_card(plain: &str, user_keys: &[UnlockedKey]) -> (r: Result<
    (String, String),
    ProtonError,
>)
    ensures
        exists|at: u32| #[trigger]
            card_sealed_or_not(
                r,
                vstd::utf8::encode_utf8(plain@),
                sealing::all_pairs(crypto::unlocked_view(user_keys@)),
                at,
            ),
{
    let at: u32 = policy_time(unix_now());
    seal_contact_card_at(at, plain, user_keys)
}

/// Seals a contact card, with a signature of a time.
pub fn seal_contact_card_at(at: u32, plain: &str, user_keys: &[UnlockedKey]) -> (r: Result<
    (String, String),
    ProtonError,
>)
    ensures
        card_sealed_or_not(
            r,
            vstd::utf8::encode_utf8(plain@),
            sealing::all_pairs(crypto::unlocked_view(user_keys@)),
            at,
        ),
{
    let pairs: Vec<KeyPair> = collect_pairs(user_keys);
    let ghost ps = openpgp::pairs_view(pairs@);
    if pairs.len() == 0 {
        return Err(ProtonError::Crypto(copy_text("seal: user key has no pairs")));
    }
    let (mut i, mut j): (usize, usize) = (0, 0);
    loop
        invariant
            i < pairs@.len(),
            j < pairs@.len(),
            ps == openpgp::pairs_view(pairs@),
            ps == sealing::all_pairs(crypto::unlocked_view(user_keys@)),
            none_before(ps, i as int, j as int, at),
        decreases pairs@.len() - i, pairs@.len() - j,
    {
        assert(ps[i as int] == pairs@[i as int]@);
        assert(ps[j as int] == pairs@[j as int]@);
        let outcome: Result<(String, String), ProtonError> = seal_with_pair(
            at,
            plain,
            &pairs[i],
            &pairs[j],
        );
        let ghost tried = outcome;
        let ghost (a, b) = (i as int, j as int);
        match next_pair_attempt(outcome, i, j, pairs.len()) {
            PairAttempt::Done(data, signature) => {
                assert(sealed_by(
                    data@,
                    signature@,
                    vstd::utf8::encode_utf8(plain@),
                    ps[i as int],
                    ps[j as int],
                    at,
                ));
                return Ok((data, signature));
            },
            PairAttempt::Next(enc, sign) => {
                i = enc;
                j = sign;
                assert(!surely_seals(ps[a], ps[b], at));
            },
            PairAttempt::Failed(e) => {
                assert(pair_error(tried->Err_0, ps.last(), ps.last(), at));
                assert(none_before(ps, ps.len() as int, 0, at)) by {
                    assert(!surely_seals(ps[a], ps[b], at));
                }
                return Err(e);
            },
        }
    }
}

// ---------------------------------------------------------------------
// Signing one card
// ---------------------------------------------------------------------

/// Whether a text is a signature by one of the pairs, the first in order that
/// works.
pub open spec fn signed_by_any(
    signature: Seq<char>,
    plain: Seq<u8>,
    pairs: Seq<Seq<u8>>,
    at: u32,
) -> bool {
    exists|i: int|
        0 <= i < pairs.len() && #[trigger] sealing::signature_of(
            signature,
            plain,
            pairs[i],
            at,
        ) && no_signer_before(pairs, i, at)
}

/// Whether no pair before this one surely makes signatures.
pub open spec fn no_signer_before(pairs: Seq<Seq<u8>>, i: int, at: u32) -> bool {
    forall|k: int| 0 <= k < pairs.len() && k < i ==> !sealing::surely_signs(#[trigger] pairs[k], at)
}

/// Whether an error is one of signing with any of the pairs: none of them
/// surely makes signatures, and it is that of the last one.
pub open spec fn sign_any_error(e: ProtonError, pairs: Seq<Seq<u8>>, at: u32) -> bool {
    if pairs.len() == 0 {
        crypto::is_crypto(e, "seal: user key has no pairs"@)
    } else {
        &&& no_signer_before(pairs, pairs.len() as int, at)
        &&& exists|last: ProtonError|
            sealing::sign_error(last, pairs.last(), at) && crypto::is_crypto(
                e,
                "seal sign: "@ + #[trigger] error::error_text(last),
            )
    }
}

/// What follows an attempt to sign with one of the pairs.
#[derive(Debug)]
pub enum Attempt {
    /// It worked: the signature.
    Done(String),
    /// Try the pair at the index.
    Next(usize),
    /// All were tried.
    Failed(ProtonError),
}

/// What follows the attempt to sign with the pair at `at`, of `count` pairs:
/// the first that works is taken, and after the last one its error counts.
pub fn next_attempt(outcome: Result<String, ProtonError>, at: usize, count: usize) -> (r: Attempt)
    requires
        at < count,
    ensures
        match outcome {
            Ok(signature) => r == Attempt::Done(signature),
            Err(e) => if at + 1 < count {
                r == Attempt::Next((at + 1) as usize)
            } else {
                r matches Attempt::Failed(f) && crypto::is_crypto(
                    f,
                    "seal sign: "@ + error::error_text(e),
                )
            },
        },
{
    match outcome {
        Ok(signature) => Attempt::Done(signature),
        Err(e) => {
            if at + 1 < count {
                Attempt::Next(at + 1)
            } else {
                let message: String = e.message();
                Attempt::Failed(ProtonError::Crypto(concat2("seal sign: ", message.as_str())))
            }
        },
    }
}

/// Signs with the first pair that can, with a signature of a time.
pub fn detached_sign_any(at: u32, plain: &str, user_keys: &[UnlockedKey]) -> (r: Result<
    String,
    ProtonError,
>)
    ensures
        match r {
            Ok(signature) => signed_by_any(
                signature@,
                vstd::utf8::encode_utf8(plain@),
                sealing::all_pairs(crypto::unlocked_view(user_keys@)),
                at,
            ),
            Err(e) => sign_any_error(
                e,
                sealing::all_pairs(crypto::unlocked_view(user_keys@)),
                at,
            ),
        },
{
    let pairs: Vec<KeyPair> = collect_pairs(user_keys);
    let ghost ps = openpgp::pairs_view(pairs@);
    if pairs.len() == 0 {
        return Err(ProtonError::Crypto(copy_text("seal: user key has no pairs")));
    }
    let mut i: usize = 0;
    loop
        invariant
            i < pairs@.len(),
            ps == openpgp::pairs_view(pairs@),
            ps == sealing::all_pairs(crypto::unlocked_view(user_keys@)),
            no_signer_before(ps, i as int, at),
        decreases pairs@.len() - i,
    {
        assert(ps[i as int] == pairs@[i as int]@);
        let outcome: Result<String, ProtonError> = detached_sign_at(
            at,
            plain.as_bytes(),
            &pairs[i],
        );
        let ghost tried = outcome;
        match next_attempt(outcome, i, pairs.len()) {
            Attempt::Done(signature) => {
                assert(sealing::signature_of(
                    signature@,
                    vstd::utf8::encode_utf8(plain@),
                    ps[i as int],
                    at,
                ));
                return Ok(signature);
            },
            Attempt::Next(k) => {
                i = k;
            },
            Attempt::Failed(e) => {
                assert(sealing::sign_error(tried->Err_0, ps.last(), at));
                return Err(e);
            },
        }
    }
}

// ---------------------------------------------------------------------
// Reading the cards of the server
// ---------------------------------------------------------------------

/// Of each card its type and its data.
pub open spec fn cards_view(s: Seq<ContactCard>) -> Seq<(int, Seq<char>)> {
    Seq::new(s.len(), |i: int| (s[i].Type as int, s[i].Data@))
}

/// The texts of the signed and of the encrypted cards; none where there is a
/// clear card, or one that does not open.
pub open spec fn server_plains(
    at: u32,
    cards: Seq<(int, Seq<char>)>,
    keys: Seq<Seq<Seq<u8>>>,
) -> Option<(Seq<Seq<char>>, Seq<Seq<char>>)>
    decreases cards.len(),
{
    if cards.len() == 0 {
        Some((seq![], seq![]))
    } else {
        let (kind, data) = cards.last();
        match server_plains(at, cards.drop_last(), keys) {
            None => None,
            Some((signed, decrypted)) => if kind == 0 {
                None
            } else if kind == 2 {
                Some((signed.push(data), decrypted))
            } else {
                match crypto::first_opened(at, vstd::utf8::encode_utf8(data), keys) {
                    Some(t) => Some((signed, decrypted.push(t))),
                    None => None,
                }
            },
        }
    }
}

proof fn lemma_plains_prefix(
    at: u32,
    cards: Seq<(int, Seq<char>)>,
    keys: Seq<Seq<Seq<u8>>>,
    k: int,
)
    requires
        0 <= k <= cards.len(),
        server_plains(at, cards.take(k), keys) is None,
    ensures
        server_plains(at, cards, keys) is None,
    decreases cards.len() - k,
{
    if k < cards.len() {
        assert(cards.take(k + 1).drop_last() =~= cards.take(k));
        lemma_plains_prefix(at, cards, keys, k + 1);
    } else {
        assert(cards.take(k) =~= cards);
    }
}

/// Whether texts, or that there are none, are those of the server's cards.
pub open spec fn plains_read(
    plains: Option<(Seq<Seq<char>>, Seq<Seq<char>>)>,
    r: Option<(Vec<String>, Vec<String>)>,
) -> bool {
    match r {
        Some((signed, decrypted)) => plains == Some(
            (text::texts(signed@), text::texts(decrypted@)),
        ),
        None => plains is None,
    }
}

/// Decrypts the cards of the server, apart by what protects them, under the
/// policy of the clock's time.
pub fn split_server_plains(cards: &[ContactCard], user_keys: &[UnlockedKey]) -> (r: Option<
    (Vec<String>, Vec<String>),
>)
    ensures
        exists|at: u32|
            plains_read(
                #[trigger] server_plains(
                    at,
                    cards_view(cards@),
                    crypto::unlocked_view(user_keys@),
                ),
                r,
            ),
{
    let at: u32 = policy_time(unix_now());
    split_server_plains_at(at, cards, user_keys)
}

/// Decrypts the cards of the server, apart by what protects them, under the
/// policy of a time.
pub fn split_server_plains_at(at: u32, cards: &[ContactCard], user_keys: &[UnlockedKey]) -> (r:
    Option<(Vec<String>, Vec<String>)>)
    ensures
        plains_read(
            server_plains(at, cards_view(cards@), crypto::unlocked_view(user_keys@)),
            r,
        ),
{
    let mut signed: Vec<String> = Vec::new();
    let mut decrypted: Vec<String> = Vec::new();
    let ghost all = cards_view(cards@);
    let ghost keys = crypto::unlocked_view(user_keys@);
    let mut i: usize = 0;
    assert(all.take(0) =~= seq![]);
    assert(text::texts(signed@) =~= seq![]);
    while i < cards.len()
        invariant
            i <= cards@.len(),
            all == cards_view(cards@),
            keys == crypto::unlocked_view(user_keys@),
            server_plains(at, all.take(i as int), keys) == Some(
                (text::texts(signed@), text::texts(decrypted@)),
            ),
        decreases cards@.len() - i,
    {
        assert(all.take(i + 1).drop_last() =~= all.take(i as int));
        assert(all.take(i + 1).last() == (cards@[i as int].Type as int, cards@[i as int].Data@));
        if cards[i].Type == 0 {
            proof {
                lemma_plains_prefix(at, all, keys, i + 1);
            }
            return None;
        } else if cards[i].Type == 2 {
            signed.push(copy_text(cards[i].Data.as_str()));
        } else {
            match decrypt_contact_card_at(at, cards[i].Data.as_str(), user_keys) {
                Ok(t) => {
                    decrypted.push(t);
                },
                Err(_) => {
                    proof {
                        lemma_plains_prefix(at, all, keys, i + 1);
                    }
                    return None;
                },
            }
        }
        i = i + 1;
    }
    assert(all.take(all.len() as int) =~= all);
    Some((signed, decrypted))
}

/// The unknown properties that keep a contact from being rebuilt: of signed
/// cards those that are not crypto settings which can be carried, of
/// encrypted cards all.
pub open spec fn blocking(signed: Seq<Seq<char>>, decrypted: Seq<Seq<char>>) -> Seq<Seq<char>> {
    ordered::sorted_unique(
        ordered::sorted_unique(keygroups::all_uncarried(signed)) + ordered::sorted_unique(
            keygroups::all_names(decrypted),
        ),
    )
}

/// The unknown properties that keep a contact from being rebuilt.
pub fn blocking_unknowns(signed: &Vec<String>, decrypted: &Vec<String>) -> (r: Vec<String>)
    ensures
        text::texts(r@) == blocking(text::texts(signed@), text::texts(decrypted@)),
{
    let mut out: Vec<String> = unknown_vcard_props_except_keys(signed.as_slice());
    let more: Vec<String> = unknown_vcard_props(decrypted.as_slice());
    extend_texts(&mut out, &more);
    sort_unique(&out)
}

/// The contacts of cards; none where one is no card.
pub open spec fn parsed_all(cards: Seq<Seq<char>>) -> Option<Seq<Contact>>
    decreases cards.len(),
{
    if cards.len() == 0 {
        Some(seq![])
    } else {
        match (parsed_all(cards.drop_last()), vcard::content_lines_of(cards.last())) {
            (Some(init), Ok(l)) => Some(init.push(vcard::contact_of(l))),
            _ => None,
        }
    }
}

pub open spec fn contacts_view(v: Seq<ParsedContact>) -> Seq<Contact> {
    Seq::new(v.len(), |i: int| v[i]@)
}

proof fn lemma_parsed_prefix(cards: Seq<Seq<char>>, k: int)
    requires
        0 <= k <= cards.len(),
        parsed_all(cards.take(k)) is None,
    ensures
        parsed_all(cards) is None,
    decreases cards.len() - k,
{
    if k < cards.len() {
        assert(cards.take(k + 1).drop_last() =~= cards.take(k));
        lemma_parsed_prefix(cards, k + 1);
    } else {
        assert(cards.take(k) =~= cards);
    }
}

/// Whether a text is a card that was built, and reads back as a contact.
pub open spec fn reads_as(card: Seq<char>, c: Contact) -> bool {
    ||| exists|d: Contact, uid: Seq<char>|
        card == lines::card_of(vcard::card_content(#[trigger] vcard::signed_body(d, uid)))
            && vcard_back::signs_plainly(d, uid) && c == vcard_back::signed_part(d)
    ||| exists|d: Contact|
        card == lines::card_of(vcard::card_content(#[trigger] vcard::encrypted_body(d)))
            && vcard_back::encrypts_plainly(d) && c == vcard_back::encrypted_part(d)
}

pub open spec fn all_read_as(cards: Seq<Seq<char>>, contacts: Seq<Contact>) -> bool {
    &&& cards.len() == contacts.len()
    &&& forall|i: int| 0 <= i < cards.len() ==> reads_as(#[trigger] cards[i], contacts[i])
}

fn parse_all(cards: &Vec<String>) -> (r: Option<Vec<ParsedContact>>)
    ensures
        match r {
            Some(c) => parsed_all(text::texts(cards@)) == Some(contacts_view(c@)),
            None => parsed_all(text::texts(cards@)) is None,
        },
        forall|want: Seq<Contact>| #[trigger]
            all_read_as(text::texts(cards@), want) ==> r is Some && contacts_view(r->Some_0@)
                == want,
{
    let mut out: Vec<ParsedContact> = Vec::new();
    let ghost all = text::texts(cards@);
    let mut i: usize = 0;
    assert(all.take(0) =~= seq![]);
    assert(contacts_view(out@) =~= seq![]);
    while i < cards.len()
        invariant
            i <= cards@.len(),
            all == text::texts(cards@),
            parsed_all(all.take(i as int)) == Some(contacts_view(out@)),
            out@.len() == i,
            forall|want: Seq<Contact>| #[trigger]
                all_read_as(all, want) ==> contacts_view(out@) =~= want.take(i as int),
        decreases cards@.len() - i,
    {
        let ghost before = out@;
        assert(all.take(i + 1).drop_last() =~= all.take(i as int));
        assert(all.take(i + 1).last() == cards@[i as int]@);
        let parsed: Result<ParsedContact, String> = parse_vcard(cards[i].as_str());
        assert forall|want: Seq<Contact>| #[trigger] all_read_as(all, want) implies parsed is Ok
            && parsed->Ok_0@ == want[i as int] by {
            assert(reads_as(all[i as int], want[i as int]));
        }
        match parsed {
            Ok(c) => {
                out.push(c);
                assert(contacts_view(out@) =~= contacts_view(before).push(c@));
                assert forall|want: Seq<Contact>| #[trigger] all_read_as(
                    all,
                    want,
                ) implies contacts_view(out@) =~= want.take(i + 1) by {
                    assert(want.take(i + 1) =~= want.take(i as int).push(want[i as int]));
                }
            },
            Err(_) => {
                proof {
                    lemma_parsed_prefix(all, i + 1);
                }
                return None;
            },
        }
        i = i + 1;
    }
    assert(all.take(all.len() as int) =~= all);
    assert forall|want: Seq<Contact>| #[trigger] all_read_as(all, want) implies contacts_view(out@)
        == want by {
        assert(want.take(want.len() as int) =~= want);
    }
    Some(out)
}

/// The crypto settings of signed cards, in their order.
pub open spec fn all_groups(signed: Seq<Seq<char>>) -> Seq<Group>
    decreases signed.len(),
{
    if signed.len() == 0 {
        seq![]
    } else {
        all_groups(signed.drop_last()) + keygroups::key_groups(signed.last())
    }
}

fn collect_groups(signed: &Vec<String>) -> (r: Vec<KeyGroup>)
    ensures
        keygroups::groups_view(r@) == all_groups(text::texts(signed@)),
{
    let mut out: Vec<KeyGroup> = Vec::new();
    let ghost all = text::texts(signed@);
    let mut i: usize = 0;
    assert(all.take(0) =~= seq![]);
    assert(keygroups::groups_view(out@) =~= seq![]);
    while i < signed.len()
        invariant
            i <= signed@.len(),
            all == text::texts(signed@),
            keygroups::groups_view(out@) == all_groups(all.take(i as int)),
        decreases signed@.len() - i,
    {
        let ghost before = out@;
        assert(all.take(i + 1).drop_last() =~= all.take(i as int));
        assert(all.take(i + 1).last() == signed@[i as int]@);
        let mut more: Vec<KeyGroup> = extract_key_groups(signed[i].as_str());
        let ghost added = more@;
        out.append(&mut more);
        assert(keygroups::groups_view(out@) =~= keygroups::groups_view(before)
            + keygroups::groups_view(added));
        i = i + 1;
    }
    assert(all.take(all.len() as int) =~= all);
    out
}

/// What an update takes over from the server: the contacts of its cards and
/// the crypto settings; none where the contact cannot be rebuilt.
pub open spec fn server_base(
    at: u32,
    cards: Seq<(int, Seq<char>)>,
    keys: Seq<Seq<Seq<u8>>>,
) -> Option<(Seq<Contact>, Seq<Group>)> {
    match server_plains(at, cards, keys) {
        None => None,
        Some((signed, decrypted)) => if blocking(signed, decrypted).len() > 0 {
            None
        } else {
            match parsed_all(signed + decrypted) {
                Some(contacts) => Some((contacts, all_groups(signed))),
                None => None,
            }
        },
    }
}

/// The texts of the cards of a contact that was written.
pub open spec fn written_plains(c: Contact, uid: Seq<char>) -> (Seq<Seq<char>>, Seq<Seq<char>>) {
    (
        seq![signed_card(c, uid, seq![])],
        match encrypted_card(c) {
            Some(e) => seq![e],
            None => seq![],
        },
    )
}

/// What the cards of a contact that was written are read as.
pub open spec fn written_contacts(c: Contact) -> Seq<Contact> {
    seq![vcard_back::signed_part(c)] + (match encrypted_card(c) {
        Some(_) => seq![vcard_back::encrypted_part(c)],
        None => seq![],
    })
}

/// The cards of a contact that was written never keep it from being updated,
/// whatever the contact says, and they hold no crypto settings: no text of
/// the contact has a carriage return, and the UID and the types have no line
/// end.
pub proof fn law_written_cards_never_block(c: Contact, uid: Seq<char>)
    requires
        vcard_back::contact_no_return(c, uid),
    ensures
        ({
            let (signed, decrypted) = written_plains(c, uid);
            &&& blocking(signed, decrypted).len() == 0
            &&& all_groups(signed) == Seq::<Group>::empty()
        }),
{
    vcard_back::lemma_no_return_one_line(c, uid);
    lemma_whole_cards(c, uid);
}

proof fn lemma_whole_cards(c: Contact, uid: Seq<char>)
    requires
        vcard_back::are_one_line(vcard::signed_body(c, uid)),
        vcard_back::are_one_line(vcard::encrypted_body(c)),
    ensures
        ({
            let (signed, decrypted) = written_plains(c, uid);
            &&& blocking(signed, decrypted).len() == 0
            &&& all_groups(signed) == Seq::<Group>::empty()
        }),
{
    let (signed, decrypted) = written_plains(c, uid);
    let none = Seq::<Seq<char>>::empty();
    vcard_back::lemma_signed_card_whole(c, uid);
    vcard_back::lemma_encrypted_card_whole(c);
    assert(signed.drop_last() =~= none);
    assert(keygroups::all_uncarried(signed.drop_last()) =~= none);
    assert(keygroups::all_uncarried(signed) =~= none);
    if encrypted_card(c) is Some {
        assert(decrypted.drop_last() =~= none);
        assert(keygroups::all_names(decrypted.drop_last()) =~= none);
    }
    assert(keygroups::all_names(decrypted) =~= none);
    assert(ordered::sorted_unique(none) =~= none);
    assert(none + none =~= none);
    assert(all_groups(signed.drop_last()) =~= Seq::<Group>::empty());
    assert(all_groups(signed) =~= Seq::<Group>::empty());
}

proof fn lemma_written(c: Contact, uid: Seq<char>)
    requires
        vcard_back::signs_plainly(c, uid),
        vcard_back::encrypts_plainly(c),
    ensures
        ({
            let (signed, decrypted) = written_plains(c, uid);
            &&& blocking(signed, decrypted).len() == 0
            &&& all_groups(signed) == Seq::<Group>::empty()
            &&& all_read_as(signed + decrypted, written_contacts(c))
        }),
{
    vcard_back::lemma_plain_one_line(c, uid);
    lemma_whole_cards(c, uid);
    let (signed, decrypted) = written_plains(c, uid);
    let all = signed + decrypted;
    let want = written_contacts(c);
    assert forall|i: int| 0 <= i < all.len() implies reads_as(#[trigger] all[i], want[i]) by {
        if i == 0 {
            let body = vcard::signed_body(c, uid);
            assert(all[0] == lines::card_of(vcard::card_content(body)));
            assert(want[0] == vcard_back::signed_part(c));
        } else {
            let body = vcard::encrypted_body(c);
            assert(all[1] == lines::card_of(vcard::card_content(body)));
            assert(want[1] == vcard_back::encrypted_part(c));
        }
    }
}

/// Whether contacts and settings, or that there are none, are what an update
/// takes over.
pub open spec fn base_read(
    base: Option<(Seq<Contact>, Seq<Group>)>,
    r: Option<(Vec<ParsedContact>, Vec<KeyGroup>)>,
) -> bool {
    match r {
        Some((contacts, groups)) => base == Some(
            (contacts_view(contacts@), keygroups::groups_view(groups@)),
        ),
        None => base is None,
    }
}

/// Decrypts and parses the cards of the server for a rebuild, under the
/// policy of the clock's time. A contact that was written reads back where
/// its cards open at any time.
pub fn decrypt_server_cards(cards: &[ContactCard], user_keys: &[UnlockedKey]) -> (r: Option<
    (Vec<ParsedContact>, Vec<KeyGroup>),
>)
    ensures
        exists|at: u32|
            base_read(
                #[trigger] server_base(
                    at,
                    cards_view(cards@),
                    crypto::unlocked_view(user_keys@),
                ),
                r,
            ),
        forall|c: Contact, uid: Seq<char>|
            (forall|at: u32| #[trigger]
                server_plains(at, cards_view(cards@), crypto::unlocked_view(user_keys@)) == Some(
                    written_plains(c, uid),
                )) && #[trigger] vcard_back::signs_plainly(c, uid)
                && vcard_back::encrypts_plainly(c) ==> (r matches Some((contacts, groups))
                && contacts_view(contacts@) == written_contacts(c) && groups@.len() == 0),
{
    let at: u32 = policy_time(unix_now());
    let r: Option<(Vec<ParsedContact>, Vec<KeyGroup>)> = decrypt_server_cards_at(
        at,
        cards,
        user_keys,
    );
    proof {
        let plains = server_plains(at, cards_view(cards@), crypto::unlocked_view(user_keys@));
        assert forall|c: Contact, uid: Seq<char>|
            plains == Some(written_plains(c, uid)) && #[trigger] vcard_back::signs_plainly(
                c,
                uid,
            ) && vcard_back::encrypts_plainly(c) implies (r matches Some((contacts, groups))
            && contacts_view(contacts@) == written_contacts(c) && groups@.len() == 0) by {
            assert(written_plains(c, uid) == written_plains(c, uid));
        }
    }
    r
}

/// Decrypts and parses the cards of the server for a rebuild, under the
/// policy of a time. A contact that was written reads back.
pub fn decrypt_server_cards_at(at: u32, cards: &[ContactCard], user_keys: &[UnlockedKey]) -> (r:
    Option<(Vec<ParsedContact>, Vec<KeyGroup>)>)
    ensures
        base_read(server_base(at, cards_view(cards@), crypto::unlocked_view(user_keys@)), r),
        forall|c: Contact, uid: Seq<char>|
            server_plains(at, cards_view(cards@), crypto::unlocked_view(user_keys@)) == Some(
                #[trigger] written_plains(c, uid),
            ) && vcard_back::signs_plainly(c, uid) && vcard_back::encrypts_plainly(c) ==> (
            r matches Some((contacts, groups)) && contacts_view(contacts@) == written_contacts(c)
                && groups@.len() == 0),
{
    let (signed, decrypted): (Vec<String>, Vec<String>) = match split_server_plains_at(
        at,
        cards,
        user_keys,
    ) {
        Some(p) => p,
        None => return None,
    };
    let unknown: Vec<String> = blocking_unknowns(&signed, &decrypted);
    assert(text::texts(unknown@).len() == unknown@.len());
    proof {
        let all = text::texts(signed@) + text::texts(decrypted@);
        assert forall|c: Contact, uid: Seq<char>|
            (text::texts(signed@), text::texts(decrypted@)) == #[trigger] written_plains(c, uid)
                && vcard_back::signs_plainly(c, uid) && vcard_back::encrypts_plainly(
                c,
            ) implies unknown@.len() == 0 && all_groups(text::texts(signed@)).len() == 0
            && all_read_as(all, written_contacts(c)) by {
            lemma_written(c, uid);
        }
    }
    if unknown.len() > 0 {
        return None;
    }
    let mut plains: Vec<String> = Vec::new();
    assert(text::texts(plains@) =~= seq![]);
    extend_texts(&mut plains, &signed);
    extend_texts(&mut plains, &decrypted);
    assert(text::texts(plains@) =~= text::texts(signed@) + text::texts(decrypted@));
    match parse_all(&plains) {
        Some(contacts) => {
            let groups: Vec<KeyGroup> = collect_groups(&signed);
            assert(keygroups::groups_view(groups@).len() == groups@.len());
            Some((contacts, groups))
        },
        None => None,
    }
}

// ---------------------------------------------------------------------
// Why an update is put off
// ---------------------------------------------------------------------

pub open spec fn has_clear_card(cards: Seq<(int, Seq<char>)>) -> bool {
    exists|i: int| 0 <= i < cards.len() && (#[trigger] cards[i]).0 == 0
}

/// Why a contact cannot be rebuilt, the first reason that holds.
pub open spec fn diagnosis(
    at: u32,
    cards: Seq<(int, Seq<char>)>,
    keys: Seq<Seq<Seq<u8>>>,
) -> Seq<char> {
    if has_clear_card(cards) {
        "cleartext-card"@
    } else {
        match server_plains(at, cards, keys) {
            None => "undecryptable-card"@,
            Some((signed, decrypted)) => if parsed_all(signed + decrypted) is None {
                "unparsable-card"@
            } else if blocking(signed, decrypted).len() > 0 {
                "unknown-props:"@ + text::join(blocking(signed, decrypted), ","@)
            } else {
                "sealable"@
            },
        }
    }
}

fn clear_card(cards: &[ContactCard]) -> (r: bool)
    ensures
        r == has_clear_card(cards_view(cards@)),
{
    let mut i: usize = 0;
    let ghost all = cards_view(cards@);
    while i < cards.len()
        invariant
            i <= cards@.len(),
            all == cards_view(cards@),
            forall|j: int| 0 <= j < i ==> (#[trigger] all[j]).0 != 0,
        decreases cards@.len() - i,
    {
        assert(all[i as int].0 == cards@[i as int].Type as int);
        if cards[i].Type == 0 {
            return true;
        }
        i = i + 1;
    }
    false
}

/// Says why an update is put off, without a word of what the cards hold,
/// under the policy of the clock's time.
pub fn diagnose_update_block(cards: &[ContactCard], user_keys: &[UnlockedKey]) -> (r: String)
    ensures
        exists|at: u32|
            r@ == #[trigger] diagnosis(at, cards_view(cards@), crypto::unlocked_view(user_keys@)),
{
    let at: u32 = policy_time(unix_now());
    diagnose_update_block_at(at, cards, user_keys)
}

/// Says why an update is put off, under the policy of a time.
pub fn diagnose_update_block_at(at: u32, cards: &[ContactCard], user_keys: &[UnlockedKey]) -> (r:
    String)
    ensures
        r@ == diagnosis(at, cards_view(cards@), crypto::unlocked_view(user_keys@)),
{
    if clear_card(cards) {
        return copy_text("cleartext-card");
    }
    let (signed, decrypted): (Vec<String>, Vec<String>) = match split_server_plains_at(
        at,
        cards,
        user_keys,
    ) {
        Some(p) => p,
        None => return copy_text("undecryptable-card"),
    };
    let mut plains: Vec<String> = Vec::new();
    assert(text::texts(plains@) =~= seq![]);
    extend_texts(&mut plains, &signed);
    extend_texts(&mut plains, &decrypted);
    assert(text::texts(plains@) =~= text::texts(signed@) + text::texts(decrypted@));
    if parse_all(&plains).is_none() {
        return copy_text("unparsable-card");
    }
    let unknown: Vec<String> = blocking_unknowns(&signed, &decrypted);
    assert(text::texts(unknown@).len() == unknown@.len());
    if unknown.len() > 0 {
        let names: String = join_texts(&unknown, ",");
        return concat2("unknown-props:", names.as_str());
    }
    copy_text("sealable")
}

proof fn lemma_clear_card_blocks(
    at: u32,
    cards: Seq<(int, Seq<char>)>,
    keys: Seq<Seq<Seq<u8>>>,
)
    requires
        has_clear_card(cards),
    ensures
        server_plains(at, cards, keys) is None,
{
    let i = choose|i: int| 0 <= i < cards.len() && (#[trigger] cards[i]).0 == 0;
    assert(cards.take(i + 1).last() == cards[i]);
    lemma_plains_prefix(at, cards, keys, i + 1);
}

/// The diagnosis is that the contact can be sealed exactly when an update is
/// not put off.
pub proof fn law_diagnosis_agrees(
    at: u32,
    cards: Seq<(int, Seq<char>)>,
    keys: Seq<Seq<Seq<u8>>>,
)
    ensures
        diagnosis(at, cards, keys) == "sealable"@ <==> server_base(at, cards, keys) is Some,
{
    reveal_strlit("sealable");
    reveal_strlit("cleartext-card");
    reveal_strlit("undecryptable-card");
    reveal_strlit("unparsable-card");
    reveal_strlit("unknown-props:");
    if has_clear_card(cards) {
        lemma_clear_card_blocks(at, cards, keys);
        assert("cleartext-card"@[0] != "sealable"@[0]);
    } else {
        assert("undecryptable-card"@[0] != "sealable"@[0]);
        assert("unparsable-card"@[0] != "sealable"@[0]);
        if let Some((signed, decrypted)) = server_plains(at, cards, keys) {
            let s = "unknown-props:"@ + text::join(blocking(signed, decrypted), ","@);
            assert(s[0] == 'u');
            assert("sealable"@[0] == 's');
        }
    }
}

// ---------------------------------------------------------------------
// The cards of a contact
// ---------------------------------------------------------------------

/// The photos of contacts, in their order.
pub open spec fn all_photos(contacts: Seq<Contact>) -> Seq<Seq<char>>
    decreases contacts.len(),
{
    if contacts.len() == 0 {
        seq![]
    } else {
        all_photos(contacts.drop_last()) + contacts.last().photos
    }
}

/// The group of each address: `item1` for the first, and so on. An address
/// that comes twice has the later one.
pub open spec fn email_groups(emails: Seq<Typed>) -> Seq<(Seq<char>, Seq<char>)>
    decreases emails.len(),
{
    if emails.len() == 0 {
        seq![]
    } else {
        ordered::with_entry(
            email_groups(emails.drop_last()),
            emails.last().value,
            "item"@ + numbers::decimal(emails.len()),
        )
    }
}

/// The signed card of a contact, with crypto settings carried over.
pub open spec fn signed_card(c: Contact, uid: Seq<char>, groups: Seq<Group>) -> Seq<char> {
    let card = lines::card_of(vcard::card_content(vcard::signed_body(c, uid)));
    if groups.len() == 0 {
        card
    } else {
        keygroups::with_lines(
            card,
            keygroups::rendered(groups, keygroups::lower_entries(email_groups(c.emails))),
        )
    }
}

/// The encrypted card of a contact; none when there is nothing for it.
pub open spec fn encrypted_card(c: Contact) -> Option<Seq<char>> {
    if vcard::encrypted_body(c).len() == 0 {
        None
    } else {
        Some(lines::card_of(vcard::card_content(vcard::encrypted_body(c))))
    }
}

/// Whether cards are the signed card and, where there is one, the encrypted
/// card of a contact, each sealed with the pairs.
pub open spec fn cards_sealed(
    cards: Seq<ContactCard>,
    signed: Seq<char>,
    encrypted: Option<Seq<char>>,
    pairs: Seq<Seq<u8>>,
    at: u32,
) -> bool {
    &&& cards.len() == (if encrypted is Some {
        2nat
    } else {
        1nat
    })
    &&& cards[0].Type == 2
    &&& cards[0].Data@ == signed
    &&& signed_by_any(cards[0].Signature@, vstd::utf8::encode_utf8(signed), pairs, at)
    &&& encrypted matches Some(plain) ==> {
        &&& cards[1].Type == 3
        &&& sealed_by_any(
            cards[1].Data@,
            cards[1].Signature@,
            vstd::utf8::encode_utf8(plain),
            pairs,
            at,
        )
    }
}

/// Whether an error is one of sealing the cards of a contact.
pub open spec fn cards_error(
    e: ProtonError,
    encrypted: Option<Seq<char>>,
    pairs: Seq<Seq<u8>>,
    at: u32,
) -> bool {
    sign_any_error(e, pairs, at) || (encrypted is Some && seal_contact_error(e, pairs, at))
}

/// The cards of a contact from the signature of the signed card and, where
/// there is an encrypted card, message and signature of it: the first error
/// counts.
pub fn contact_cards_of(
    signed: String,
    signature: Result<String, ProtonError>,
    sealed: Option<Result<(String, String), ProtonError>>,
) -> (r: Result<Vec<ContactCard>, ProtonError>)
    ensures
        match signature {
            Err(e) => r == Err::<Vec<ContactCard>, ProtonError>(e),
            Ok(sig) => match sealed {
                Some(Err(e)) => r == Err::<Vec<ContactCard>, ProtonError>(e),
                None => r matches Ok(cards) && cards@ == seq![
                    (ContactCard { Type: 2, Data: signed, Signature: sig }),
                ],
                Some(Ok((data, data_sig))) => r matches Ok(cards) && cards@ == seq![
                    (ContactCard { Type: 2, Data: signed, Signature: sig }),
                    (ContactCard { Type: 3, Data: data, Signature: data_sig }),
                ],
            },
        },
{
    let mut cards: Vec<ContactCard> = Vec::new();
    match signature {
        Ok(s) => {
            cards.push(ContactCard { Type: 2, Data: signed, Signature: s });
        },
        Err(e) => return Err(e),
    }
    match sealed {
        None => {},
        Some(Ok((data, sig))) => {
            cards.push(ContactCard { Type: 3, Data: data, Signature: sig });
        },
        Some(Err(e)) => return Err(e),
    }
    Ok(cards)
}

fn seal_cards(
    at: u32,
    signed: String,
    encrypted: Option<String>,
    user_keys: &[UnlockedKey],
) -> (r: Result<Vec<ContactCard>, ProtonError>)
    ensures
        match r {
            Ok(cards) => cards_sealed(
                cards@,
                signed@,
                text::option_text(encrypted),
                sealing::all_pairs(crypto::unlocked_view(user_keys@)),
                at,
            ),
            Err(e) => cards_error(
                e,
                text::option_text(encrypted),
                sealing::all_pairs(crypto::unlocked_view(user_keys@)),
                at,
            ),
        },
{
    let signature: Result<String, ProtonError> = detached_sign_any(
        at,
        signed.as_str(),
        user_keys,
    );
    let sealed: Option<Result<(String, String), ProtonError>> = match &encrypted {
        Some(plain) => Some(seal_contact_card_at(at, plain.as_str(), user_keys)),
        None => None,
    };
    contact_cards_of(signed, signature, sealed)
}

fn collect_photos(contacts: &Vec<ParsedContact>) -> (r: Vec<String>)
    ensures
        text::texts(r@) == all_photos(contacts_view(contacts@)),
{
    let mut out: Vec<String> = Vec::new();
    let ghost all = contacts_view(contacts@);
    let mut i: usize = 0;
    assert(all.take(0) =~= seq![]);
    assert(text::texts(out@) =~= seq![]);
    while i < contacts.len()
        invariant
            i <= contacts@.len(),
            all == contacts_view(contacts@),
            text::texts(out@) == all_photos(all.take(i as int)),
        decreases contacts@.len() - i,
    {
        assert(all.take(i + 1).drop_last() =~= all.take(i as int));
        assert(all.take(i + 1).last() == contacts@[i as int]@);
        extend_texts(&mut out, &contacts[i].photos);
        i = i + 1;
    }
    assert(all.take(all.len() as int) =~= all);
    out
}

fn group_emails(c: &ParsedContact) -> (r: TextMap)
    ensures
        r@ == email_groups(c@.emails),
{
    let mut out: TextMap = TextMap::new();
    let ghost all = c@.emails;
    let mut i: usize = 0;
    assert(all.take(0) =~= seq![]);
    while i < c.emails.len()
        invariant
            i <= c.emails@.len(),
            all == c@.emails,
            out@ == email_groups(all.take(i as int)),
        decreases c.emails@.len() - i,
    {
        assert(all.take(i + 1).drop_last() =~= all.take(i as int));
        assert(all.take(i + 1).last() == c.emails@[i as int]@);
        let number: String = decimal_text(i as u64 + 1);
        out.insert(copy_text(c.emails[i].email.as_str()), concat2("item", number.as_str()));
        i = i + 1;
    }
    assert(all.take(all.len() as int) =~= all);
    out
}

/// The contact that an update writes: the fields of the device, with the
/// photos of the server.
pub open spec fn updated(phone: Contact, contacts: Seq<Contact>) -> Contact {
    Contact { photos: all_photos(contacts), ..phone }
}

/// Whether a result is one of writing a contact over what an update takes
/// over from the server: none where there is no base.
pub open spec fn update_written(
    base: Option<(Seq<Contact>, Seq<Group>)>,
    phone: Contact,
    uid: Seq<char>,
    pairs: Seq<Seq<u8>>,
    at: u32,
    r: Result<Option<Vec<ContactCard>>, ProtonError>,
) -> bool {
    match base {
        None => r matches Ok(None),
        Some((contacts, groups)) => match r {
            Ok(Some(cards)) => cards_sealed(
                cards@,
                signed_card(updated(phone, contacts), uid, groups),
                encrypted_card(updated(phone, contacts)),
                pairs,
                at,
            ),
            Ok(None) => false,
            Err(e) => cards_error(e, encrypted_card(updated(phone, contacts)), pairs, at),
        },
    }
}

/// Builds the sealed cards of an update from the cards of the server and the
/// contact on the device. None puts the update off. Photos, the UID and the
/// crypto settings of addresses that are still there are kept, for all other
/// fields the device counts. Messages are read under the policy of the clock's time.
pub fn build_contact_update_cards(
    server_cards: &[ContactCard],
    phone: &ParsedContact,
    contact_uid: &str,
    user_keys: &[UnlockedKey],
) -> (r: Result<Option<Vec<ContactCard>>, ProtonError>)
    ensures
        exists|at: u32|
            update_written(
                #[trigger] server_base(
                    at,
                    cards_view(server_cards@),
                    crypto::unlocked_view(user_keys@),
                ),
                phone@,
                contact_uid@,
                sealing::all_pairs(crypto::unlocked_view(user_keys@)),
                at,
                r,
            ),
{
    let at: u32 = policy_time(unix_now());
    build_contact_update_cards_at(at, server_cards, phone, contact_uid, user_keys)
}

/// Builds the sealed cards of an update, the messages of the server read
/// under the policy of a time and the signatures of that time.
pub fn build_contact_update_cards_at(
    at: u32,
    server_cards: &[ContactCard],
    phone: &ParsedContact,
    contact_uid: &str,
    user_keys: &[UnlockedKey],
) -> (r: Result<Option<Vec<ContactCard>>, ProtonError>)
    ensures
        update_written(
            server_base(at, cards_view(server_cards@), crypto::unlocked_view(user_keys@)),
            phone@,
            contact_uid@,
            sealing::all_pairs(crypto::unlocked_view(user_keys@)),
            at,
            r,
        ),
{
    let (contacts, groups): (Vec<ParsedContact>, Vec<KeyGroup>) = match decrypt_server_cards_at(
        at,
        server_cards,
        user_keys,
    ) {
        Some(b) => b,
        None => return Ok(None),
    };
    let photos: Vec<String> = collect_photos(&contacts);
    let merged: ParsedContact = with_photos(phone, photos);
    let (signed, encrypted): (String, Option<String>) = build_vcard(&merged, contact_uid);
    assert(keygroups::groups_view(groups@).len() == groups@.len());
    let signed: String = if groups.len() == 0 {
        signed
    } else {
        let by_email: TextMap = group_emails(&merged);
        let carried: Vec<String> = render_key_groups(groups.as_slice(), &by_email);
        append_vcard_lines(signed.as_str(), carried.as_slice())
    };
    match seal_cards(at, signed, encrypted, user_keys) {
        Ok(cards) => Ok(Some(cards)),
        Err(e) => Err(e),
    }
}

/// The contact that a creation writes: the fields of the device, without
/// photos.
pub open spec fn created(phone: Contact) -> Contact {
    Contact { photos: seq![], ..phone }
}

/// Whether a result is one of writing a new contact.
pub open spec fn create_written(
    phone: Contact,
    uid: Seq<char>,
    pairs: Seq<Seq<u8>>,
    at: u32,
    r: Result<Option<Vec<ContactCard>>, ProtonError>,
) -> bool {
    match r {
        Ok(Some(cards)) => cards_sealed(
            cards@,
            signed_card(created(phone), uid, seq![]),
            encrypted_card(created(phone)),
            pairs,
            at,
        ),
        Ok(None) => false,
        Err(e) => cards_error(e, encrypted_card(created(phone)), pairs, at),
    }
}

/// Builds the sealed cards of a new contact, with signatures of the clock's
/// time.
pub fn build_contact_create_cards(
    phone: &ParsedContact,
    uid: &str,
    user_keys: &[UnlockedKey],
) -> (r: Result<Option<Vec<ContactCard>>, ProtonError>)
    ensures
        exists|at: u32| #[trigger]
            create_written(
                phone@,
                uid@,
                sealing::all_pairs(crypto::unlocked_view(user_keys@)),
                at,
                r,
            ),
{
    let at: u32 = policy_time(unix_now());
    build_contact_create_cards_at(at, phone, uid, user_keys)
}

/// Builds the sealed cards of a new contact, with signatures of a time.
pub fn build_contact_create_cards_at(
    at: u32,
    phone: &ParsedContact,
    uid: &str,
    user_keys: &[UnlockedKey],
) -> (r: Result<Option<Vec<ContactCard>>, ProtonError>)
    ensures
        create_written(
            phone@,
            uid@,
            sealing::all_pairs(crypto::unlocked_view(user_keys@)),
            at,
            r,
        ),
{
    let none: Vec<String> = Vec::new();
    assert(text::texts(none@) =~= seq![]);
    let merged: ParsedContact = with_photos(phone, none);
    assert(merged@ =~= created(phone@));
    let (signed, encrypted): (String, Option<String>) = build_vcard(&merged, uid);
    match seal_cards(at, signed, encrypted, user_keys) {
        Ok(cards) => Ok(Some(cards)),
        Err(e) => Err(e),
    }
}

/// A sealed contact card reads back with the keys that it was sealed with,
/// under the policy of any time: where the halves of the pair match, and no
/// pair before it opens the key packet to something else.
pub proof fn law_sealed_contact_card_reads_back(
    at: u32,
    data: Seq<char>,
    plain: Seq<char>,
    pair: Seq<u8>,
    keys: Seq<Seq<Seq<u8>>>,
)
    requires
        message_for(data, vstd::utf8::encode_utf8(plain), pair),
        openpgp::halves_match(pair),
        openpgp::message_step(
            at,
            vstd::utf8::encode_utf8(data),
            seq![],
        ) matches openpgp::StepModel::Asks { packets, hint } ==> packets.len() == 1
            && crypto::opened_by_any(packets[0], sealing::all_pairs(keys), None)
            == crypto::packet_opened(packets[0], pair, None),
    ensures
        crypto::first_opened(at, vstd::utf8::encode_utf8(data), keys) == Some(plain),
{
    let bytes = vstd::utf8::encode_utf8(data);
    let content = vstd::utf8::encode_utf8(plain);
    let (packet, key) = choose|packet: Seq<u8>, key: (u8, Seq<u8>)|
        #[trigger] openpgp::opens_once(bytes, packet, key, content) && crypto::packet_opened(
            packet,
            pair,
            None,
        ) == Some(key);
    let packets = seq![packet];
    assert(packets[0] == packet);
    utf8::law_utf8_round_trip(plain);
    assert(openpgp::message_step(at, bytes, seq![]) == (openpgp::StepModel::Asks {
        packets: seq![packet],
        hint: None,
    }));
    assert(openpgp::message_step(at, bytes, seq![key]) == openpgp::StepModel::Holds(content));
    sealing::lemma_message_opens(at, bytes, packet, keys, key, content, plain);
}

/// What one of several pairs gets from a key packet is what the first that
/// opens it gets, where they all agree.
proof fn lemma_opened_by_one(packet: Seq<u8>, pairs: Seq<Seq<u8>>, i: int)
    requires
        0 <= i < pairs.len(),
        crypto::packet_opened(packet, pairs[i], None) is Some,
        forall|k: int|
            0 <= k < pairs.len() ==> crypto::packet_opened(packet, #[trigger] pairs[k], None)
                is None || crypto::packet_opened(packet, pairs[k], None)
                == crypto::packet_opened(packet, pairs[i], None),
    ensures
        crypto::opened_by_any(packet, pairs, None) == crypto::packet_opened(
            packet,
            pairs[i],
            None,
        ),
    decreases pairs.len(),
{
    assert(crypto::packet_opened(packet, pairs[0], None) is None || crypto::packet_opened(
        packet,
        pairs[0],
        None,
    ) == crypto::packet_opened(packet, pairs[i], None));
    if crypto::packet_opened(packet, pairs[0], None) is None {
        let rest = pairs.skip(1);
        assert(rest[i - 1] == pairs[i]);
        assert forall|k: int| 0 <= k < rest.len() implies crypto::packet_opened(
            packet,
            #[trigger] rest[k],
            None,
        ) is None || crypto::packet_opened(packet, rest[k], None) == crypto::packet_opened(
            packet,
            rest[i - 1],
            None,
        ) by {
            assert(rest[k] == pairs[k + 1]);
        }
        lemma_opened_by_one(packet, rest, i - 1);
    }
}

/// Whether the pairs that open the key packet of a message agree on what it
/// holds.
pub open spec fn openers_agree(at: u32, data: Seq<char>, pairs: Seq<Seq<u8>>) -> bool {
    openpgp::message_step(
        at,
        vstd::utf8::encode_utf8(data),
        seq![],
    ) matches openpgp::StepModel::Asks { packets, hint } ==> forall|packet: Seq<u8>, i: int, k: int|
        #![trigger packets.contains(packet), pairs[i], pairs[k]]
        packets.contains(packet) && 0 <= i < pairs.len() && 0 <= k < pairs.len() ==> (
        crypto::packet_opened(packet, pairs[i], None) is None || crypto::packet_opened(
            packet,
            pairs[k],
            None,
        ) is None || crypto::packet_opened(packet, pairs[i], None) == crypto::packet_opened(
            packet,
            pairs[k],
            None,
        ))
}

/// The cards of a contact that was sealed open to the texts that were sealed,
/// under the policy of any time: where the halves of the pairs match that
/// messages can be sealed to, and the pairs that open the key packet agree.
pub proof fn law_sealed_contact_opens(
    at: u32,
    signed_at: u32,
    cards: Seq<ContactCard>,
    c: Contact,
    uid: Seq<char>,
    keys: Seq<Seq<Seq<u8>>>,
)
    requires
        cards_sealed(
            cards,
            signed_card(c, uid, seq![]),
            encrypted_card(c),
            sealing::all_pairs(keys),
            signed_at,
        ),
        forall|i: int|
            0 <= i < sealing::all_pairs(keys).len() ==> openpgp::halves_match(
                #[trigger] sealing::all_pairs(keys)[i],
            ) || openpgp::only_signs(sealing::all_pairs(keys)[i]),
        cards.len() > 1 ==> openers_agree(at, cards[1].Data@, sealing::all_pairs(keys)),
    ensures
        server_plains(at, cards_view(cards), keys) == Some(written_plains(c, uid)),
{
    let pairs = sealing::all_pairs(keys);
    let view = cards_view(cards);
    let signed = signed_card(c, uid, seq![]);
    let none = Seq::<Seq<char>>::empty();
    let first = view.take(1);
    assert(first.drop_last() =~= Seq::<(int, Seq<char>)>::empty());
    assert(first.last() == (2int, signed));
    assert(server_plains(at, first.drop_last(), keys) == Some((none, none)));
    assert(none.push(signed) =~= seq![signed]);
    assert(server_plains(at, first, keys) == Some((seq![signed], none)));
    match encrypted_card(c) {
        None => {
            assert(view =~= first);
        },
        Some(plain) => {
            let data = cards[1].Data@;
            let content = vstd::utf8::encode_utf8(plain);
            let (i, j) = choose|i: int, j: int|
                0 <= i < pairs.len() && 0 <= j < pairs.len() && #[trigger] sealed_by(
                    data,
                    cards[1].Signature@,
                    content,
                    pairs[i],
                    pairs[j],
                    signed_at,
                );
            let bytes = vstd::utf8::encode_utf8(data);
            let (packet, key) = choose|packet: Seq<u8>, key: (u8, Seq<u8>)|
                #[trigger] openpgp::opens_once(bytes, packet, key, content)
                    && crypto::packet_opened(packet, pairs[i], None) == Some(key);
            assert(openpgp::message_step(at, bytes, seq![]) == (openpgp::StepModel::Asks {
                packets: seq![packet],
                hint: None,
            }));
            let packets = seq![packet];
            assert(packets[0] == packet);
            assert(packets.contains(packet));
            lemma_opened_by_one(packet, pairs, i);
            law_sealed_contact_card_reads_back(at, data, plain, pairs[i], keys);
            assert(view.drop_last() =~= first);
            assert(view.last() == (3int, data));
            assert(none.push(plain) =~= seq![plain]);
        },
    }
}

} // verus!
