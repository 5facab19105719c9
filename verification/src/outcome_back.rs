//! What callers get back: what was read, sealed or gathered, and the error in
//! its place.
use vstd::arithmetic::div_mod;
use vstd::arithmetic::power;
use vstd::prelude::*;

use crate::auth;
use crate::bridge;
use crate::calendar;
use crate::calendar_cards;
use crate::calendar_seal;
use crate::calendar_write::SyncContentPart;
use crate::contact_seal;
use crate::contacts;
use crate::crypto;
use crate::crypto::UnlockedKey;
use crate::encoding;
use crate::error::ProtonError;
use crate::json;
use crate::json::JsonModel;
use crate::keygroups;
use crate::keygroups::{Group, KeyGroup};
use crate::keys;
use crate::listing;
use crate::models::{CalendarSettings, EventModel};
use crate::naturals;
use crate::numbers;
use crate::openpgp;
use crate::sealing;
use crate::srp;
use crate::text;
use crate::vcard::{Contact, ParsedContact};

verus! {

// ---------------------------------------------------------------------
// What is read
// ---------------------------------------------------------------------

/// A text that a key reads is handed out as it is; where no key reads the
/// message there is an error, never a text.
pub proof fn law_read_text_is_handed_out(t: Seq<char>, r: Result<String, ProtonError>)
    ensures
        crypto::reads_to(Some(t), r) ==> r is Ok && r->Ok_0@ == t,
        crypto::reads_to(None, r) ==> r is Err && r->Err_0 is Crypto,
        calendar_cards::card_read(Some(t), r) ==> r is Ok && r->Ok_0@ == t,
        calendar_cards::card_read(None, r) ==> r is Err && r->Err_0 is Crypto,
{
}

/// The keys of a calendar are handed out all together, or none of them with
/// the reason.
pub proof fn law_unlocked_keys_are_handed_out(
    keys: Seq<Seq<Seq<u8>>>,
    m: Seq<char>,
    r: Result<Vec<UnlockedKey>, ProtonError>,
)
    ensures
        calendar_cards::keys_read(Ok(keys), r) ==> r is Ok && crypto::unlocked_view(r->Ok_0@)
            == keys,
        calendar_cards::keys_read(Err(m), r) ==> (r matches Err(ProtonError::Crypto(e)) && e@ == m),
{
}

/// The cards of a contact or of a group of an event are handed out where all
/// of them were read, and nothing is where one was not.
pub proof fn law_read_cards_are_handed_out(
    cards: Seq<(bool, Seq<char>)>,
    g: Option<Vec<(bool, String)>>,
    signed: Seq<Seq<char>>,
    opened: Seq<Seq<char>>,
    p: Option<(Vec<String>, Vec<String>)>,
)
    ensures
        calendar_seal::group_read(Some(cards), g) ==> g is Some && calendar_seal::group_view(
            g->Some_0@,
        ) == cards,
        calendar_seal::group_read(None, g) ==> g is None,
        contact_seal::plains_read(Some((signed, opened)), p) ==> p is Some && text::texts(
            p->Some_0.0@,
        ) == signed && text::texts(p->Some_0.1@) == opened,
        contact_seal::plains_read(None, p) ==> p is None,
{
}

/// The contacts and key settings that were read of a server's cards are
/// handed out, and nothing is where a card was not read.
pub proof fn law_read_contacts_are_handed_out(
    contacts: Seq<Contact>,
    groups: Seq<Group>,
    r: Option<(Vec<ParsedContact>, Vec<KeyGroup>)>,
)
    ensures
        contact_seal::base_read(Some((contacts, groups)), r) ==> r is Some
            && contact_seal::contacts_view(r->Some_0.0@) == contacts && keygroups::groups_view(
            r->Some_0.1@,
        ) == groups,
        contact_seal::base_read(None, r) ==> r is None,
{
}

// ---------------------------------------------------------------------
// What is sealed
// ---------------------------------------------------------------------

/// A card sealed again holds its text under the session key that was given,
/// and the first pair of the address signs that text; without a pair nothing
/// is handed out.
pub proof fn law_resealed_card_is_signed(
    r: Result<(Vec<u8>, String), ProtonError>,
    plain: Seq<u8>,
    key: Seq<u8>,
    algo: u8,
    addr_key: Seq<Seq<u8>>,
    at: u32,
)
    requires
        sealing::resealed_or_not(r, plain, key, algo, addr_key, at),
    ensures
        addr_key.len() == 0 ==> r is Err,
        openpgp::container_refusal(algo, key.len()) is Some ==> r is Err,
        r is Ok ==> sealing::signature_of(r->Ok_0.1@, plain, addr_key[0], at),
        r is Ok && openpgp::stays_accepted(algo) ==> sealing::holds_plain(
            r->Ok_0.0@,
            plain,
            algo,
            key,
        ),
{
}

/// A card sealed for the first time holds its text under a fresh session key
/// for the calendar's keys, signed by the first pair of the first address key;
/// where no key takes the session key or no pair signs, nothing is handed
/// out.
pub proof fn law_sealed_card_is_signed(
    r: Result<(Vec<u8>, Vec<u8>, String), ProtonError>,
    plain: Seq<u8>,
    cal_keys: Seq<Seq<Seq<u8>>>,
    addr_keys: Seq<Seq<Seq<u8>>>,
    at: u32,
)
    requires
        sealing::sealed_or_not(r, plain, cal_keys, addr_keys, at),
    ensures
        addr_keys.len() == 0 || addr_keys[0].len() == 0 ==> r is Err,
        sealing::key_packet_recipient(cal_keys, 32) is Err ==> r is Err,
        r is Ok ==> sealing::card_sealed(r->Ok_0.0@, r->Ok_0.1@, plain, cal_keys),
        r is Ok ==> sealing::signature_of(r->Ok_0.2@, plain, addr_keys[0][0], at),
{
}

/// A detached signature is one of the text by the pair, and a pair that is
/// sure to sign gives one.
pub proof fn law_detached_signature(
    r: Result<String, ProtonError>,
    plain: Seq<u8>,
    pair: Seq<u8>,
    at: u32,
)
    requires
        sealing::signed_or_not(r, plain, pair, at),
    ensures
        r is Ok ==> sealing::signature_of(r->Ok_0@, plain, pair, at),
        sealing::surely_signs(pair, at) ==> r is Ok,
{
}

/// A card of a contact is never handed out unsealed: without a pair there is
/// an error, and what is handed out two of the pairs sealed.
pub proof fn law_contact_card_is_sealed(
    r: Result<(String, String), ProtonError>,
    plain: Seq<u8>,
    pairs: Seq<Seq<u8>>,
    at: u32,
)
    requires
        contact_seal::card_sealed_or_not(r, plain, pairs, at),
    ensures
        pairs.len() == 0 ==> r is Err,
        r is Ok ==> contact_seal::sealed_by_any(r->Ok_0.0@, r->Ok_0.1@, plain, pairs, at),
{
}

/// A group of cards is sealed again card by card, in the order of the cards,
/// an encrypted one as an encrypted part and a clear one as a clear part with
/// the text itself; without a pair to sign with, or without a session key for
/// an encrypted card, nothing is handed out.
pub proof fn law_group_is_sealed_card_by_card(
    r: Result<Vec<SyncContentPart>, ProtonError>,
    cards: Seq<(bool, Seq<char>)>,
    key: Option<(u8, Seq<u8>)>,
    signer: Option<Seq<u8>>,
    at: u32,
    i: int,
)
    requires
        calendar_seal::group_outcome(r, cards, key, signer, at),
        0 <= i < cards.len(),
    ensures
        signer is None ==> r is Err,
        cards[i].0 && key is None ==> r is Err,
        r is Ok ==> {
            let part = r->Ok_0@[i];
            &&& r->Ok_0@.len() == cards.len()
            &&& sealing::signature_of(
                part.Signature@,
                vstd::utf8::encode_utf8(cards[i].1),
                signer->Some_0,
                at,
            )
            &&& cards[i].0 ==> part.Type == 3
            &&& !cards[i].0 ==> part.Type == 2 && part.Data@ == cards[i].1
        },
{
    if r is Ok {
        assert(calendar_seal::part_sealed(r->Ok_0@[i], cards[i], key, signer->Some_0, at));
    }
}

/// One card is sealed again as the group would seal it.
pub proof fn law_part_is_sealed(
    r: Result<SyncContentPart, ProtonError>,
    card: (bool, Seq<char>),
    key: Option<(u8, Seq<u8>)>,
    signer: Seq<u8>,
    at: u32,
)
    requires
        calendar_seal::part_outcome(r, card, key, signer, at),
    ensures
        card.0 && key is None ==> r is Err,
        r is Ok && card.0 ==> r->Ok_0.Type == 3,
        r is Ok && !card.0 ==> r->Ok_0.Type == 2 && r->Ok_0.Data@ == card.1,
        !card.0 && sealing::surely_signs(signer, at) ==> r is Ok,
{
}

/// Of several parts the first that failed counts: all before it were made.
pub proof fn law_first_failed_part_counts(
    parts: Seq<Result<SyncContentPart, ProtonError>>,
    k: int,
)
    requires
        0 <= k <= parts.len(),
        forall|i: int| 0 <= i < k ==> (#[trigger] parts[i]) is Ok,
        k < parts.len() ==> parts[k] is Err,
    ensures
        calendar_seal::first_unmade(parts) == k,
    decreases parts.len(),
{
    if k > 0 {
        let rest = parts.skip(1);
        assert(parts[0] is Ok);
        assert forall|i: int| 0 <= i < k - 1 implies (#[trigger] rest[i]) is Ok by {
            assert(parts[i + 1] is Ok);
        }
        law_first_failed_part_counts(rest, k - 1);
    }
}

/// A new event goes out as a signed clear part with the clear card, and an
/// encrypted part with the data; the session key goes beside them. Key packet
/// and data are in base64.
pub proof fn law_new_event_has_two_parts(
    parts: Seq<SyncContentPart>,
    key_packet: Option<String>,
    clear: Seq<char>,
    signature: String,
    sealed: (Vec<u8>, Vec<u8>, String),
)
    requires
        calendar_seal::pair_of_parts(parts, key_packet, clear, signature, sealed),
    ensures
        parts.len() == 2,
        parts[0].Type == 2 && parts[0].Data@ == clear && parts[0].Signature@ == signature@,
        parts[1].Type == 3 && parts[1].Signature@ == sealed.2@,
        parts[1].Data@ == encoding::base64_text(sealed.1@),
        key_packet is Some && key_packet->Some_0@ == encoding::base64_text(sealed.0@),
{
}

// ---------------------------------------------------------------------
// What is gathered
// ---------------------------------------------------------------------

/// The rows of answers stand in the order of the answers: those of one answer
/// are its own, one that did not come has none, and those of more answers go
/// behind.
pub proof fn law_answers_keep_their_order(
    before: Seq<Option<JsonModel>>,
    v: JsonModel,
)
    ensures
        listing::answers_rows(seq![]) == Seq::<EventModel>::empty(),
        listing::answers_rows(before.push(None)) == listing::answers_rows(before),
        listing::answers_rows(before.push(Some(v))) == listing::answers_rows(before)
            + calendar::envelope_events(v),
{
    assert(before.push(None).drop_last() =~= before);
    assert(before.push(Some(v)).drop_last() =~= before);
    assert(listing::answers_rows(before.push(None)) =~= listing::answers_rows(before));
}

/// A refused query of untyped rows is told with the status and the start of
/// the answer, no more than two hundred characters of it; one that was
/// answered fails only where the answer is no JSON.
pub proof fn law_untyped_query_fails(status: u16, body: Seq<char>, e: ProtonError)
    requires
        calendar::untyped_error(status, body, e),
    ensures
        status != 200 && body.len() <= 200 ==> (e matches ProtonError::Auth(m) && m@
            == "Untyped events query failed "@ + numbers::decimal(status as nat) + ": "@ + body),
        status != 200 && body.len() > 200 ==> (e matches ProtonError::Auth(m) && m@
            == "Untyped events query failed "@ + numbers::decimal(status as nat) + ": "@
            + body.take(200)),
        status == 200 ==> e is Serde && json::json_of_text(body) is Err,
{
}

/// Settings count where they have a default reminder of either kind.
pub proof fn law_settings_are_usable(s: CalendarSettings)
    ensures
        s.DefaultPartDayNotifications matches Some(l) && l@.len() > 0 ==> calendar::usable(Some(s)),
        s.DefaultFullDayNotifications matches Some(l) && l@.len() > 0 ==> calendar::usable(Some(s)),
        calendar::usable(Some(s)) ==> (s.DefaultPartDayNotifications is Some
            && s.DefaultPartDayNotifications->Some_0@.len() > 0
            || s.DefaultFullDayNotifications is Some
            && s.DefaultFullDayNotifications->Some_0@.len() > 0),
        !calendar::usable(None),
{
}

// ---------------------------------------------------------------------
// Logins
// ---------------------------------------------------------------------

/// Tokens are handed out as they are, under their status, with no error and
/// no challenge.
pub proof fn law_tokens_are_handed_out(status: int, t: (Seq<char>, Seq<char>, Seq<char>))
    ensures
        bridge::tokens_outcome(status, t).status == status,
        bridge::tokens_outcome(status, t).tokens == Some(t),
        bridge::tokens_outcome(status, t).error is None,
        bridge::tokens_outcome(status, t).captcha is None,
{
}

/// An empty text of a configuration is one that was not given.
pub proof fn law_empty_text_is_not_given(s: Seq<char>)
    ensures
        s.len() == 0 ==> bridge::given_text(s) is None,
        s.len() > 0 ==> bridge::given_text(s) == Some(s),
{
}

/// The scopes of a login are those of the answer; one without a list has
/// none.
pub proof fn law_scopes(s: Seq<Seq<char>>)
    ensures
        auth::scopes_or_none(Some(s)) == s,
        auth::scopes_or_none(None).len() == 0,
{
}

/// A login that only a security key would finish is refused, with the way
/// out.
pub proof fn law_security_key_is_refused(e: ProtonError)
    requires
        srp::is_auth(e, auth::fido2_message()),
    ensures
        e matches ProtonError::Auth(m) && m@
            == "FIDO2 two-factor authentication is required but not supported by this client. Please enable TOTP two-factor authentication in your Proton account settings (it can be used alongside your security key), then try again."@,
{
}

/// A salt that can be decoded is used where it has the bytes that the hash
/// takes of it: sixteen for a mailbox password, ten for a login.
pub proof fn law_short_salts(salt: Seq<char>, b: Seq<u8>)
    requires
        encoding::base64_bytes(salt) == Some(b),
    ensures
        crypto::salt_fits(salt) == (b.len() >= 16),
        srp::salt_reaches(salt) == (b.len() >= 10),
        keys::salt_works(Some(salt)) == (salt.len() == 0 || b.len() >= 16),
        keys::salt_works(None),
{
}

// ---------------------------------------------------------------------
// Identifiers without a random source
// ---------------------------------------------------------------------

proof fn lemma_digit(n: nat, len: nat, i: nat)
    requires
        i < len,
    ensures
        naturals::le_bytes(n, len).len() == len,
        naturals::le_bytes(n, len)[i as int] == (n as int / power::pow(256, i)) % 256,
    decreases len,
{
    power::lemma_pow0(256);
    let rest = naturals::le_bytes(n / 256, (len - 1) as nat);
    if i > 0 {
        let j = (i - 1) as nat;
        lemma_digit(n / 256, (len - 1) as nat, j);
        power::lemma_pow_positive(256, j);
        assert(power::pow(256, i) == 256 * power::pow(256, j)) by {
            reveal(power::pow);
        }
        div_mod::lemma_div_denominator(n as int, 256, power::pow(256, j));
        assert(naturals::le_bytes(n, len)[i as int] == rest[j as int]);
    } else {
        if len > 1 {
            lemma_digit(n / 256, (len - 1) as nat, 0);
        } else {
            assert(rest.len() == 0);
        }
        div_mod::lemma_div_by_self(1);
        assert(n as int / 1 == n as int);
    }
}

/// Without a random source the bytes of an identifier are those of the time
/// and of the process, the low ones first, each over again and added up
/// modulo 256.
pub proof fn law_fallback_bytes(nanos: nat, pid: nat, i: nat)
    requires
        i < 16,
    ensures
        contacts::fallback(nanos, pid).len() == 16,
        contacts::fallback(nanos, pid)[i as int] == ((nanos as int / power::pow(256, i % 8)) % 256
            + (pid as int / power::pow(256, i % 4)) % 256) % 256,
{
    lemma_digit(nanos, 8, i % 8);
    lemma_digit(pid, 4, i % 4);
}

} // verus!
