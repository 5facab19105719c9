//! Reading the cards and the keys of a calendar.
use vstd::prelude::*;

use crate::crypto;
use crate::crypto::{
    decrypt_bytes_with_any, decrypt_contact_card_at, policy_time, UnlockedKey,
};
use crate::dates::unix_now;
use crate::encoding;
use crate::encoding::decode_base64;
use crate::error;
use crate::error::ProtonError;
use crate::models::{CalendarEventPart, CalendarKey, CalendarPassphrase, MemberPassphrase};
use crate::text;
use crate::text::{concat2, copy_text, is_empty, text_eq};

verus! {

/// Whether a signature is there to be looked at. A card is never refused for
/// its signature.
pub fn verify_signature(
    data: &str,
    signature: &str,
    calendar_keys: &[UnlockedKey],
    address_keys: &[UnlockedKey],
) -> (r: Result<bool, ProtonError>)
    ensures
        r matches Ok(present) && present == (signature@.len() > 0),
{
    Ok(!is_empty(signature))
}

// ---------------------------------------------------------------------
// Cards
// ---------------------------------------------------------------------

/// Cards of an odd type are encrypted.
pub open spec fn is_encrypted(kind: int) -> bool {
    kind % 2 == 1
}

pub fn encrypted_type(kind: i64) -> (r: bool)
    ensures
        r == is_encrypted(kind as int),
{
    kind % 2 != 0
}

/// The text of a card whose key packet is kept beside it, both in base64.
pub open spec fn split_card_text(
    at: u32,
    data: Seq<char>,
    key_packet: Seq<char>,
    calendar_keys: Seq<Seq<Seq<u8>>>,
) -> Option<Seq<char>> {
    if key_packet.len() == 0 || data.len() == 0 {
        None
    } else {
        match (encoding::base64_bytes(key_packet), encoding::base64_bytes(data)) {
            (Some(k), Some(d)) => crypto::first_opened(at, k + d, calendar_keys),
            _ => None,
        }
    }
}

/// The text of an armored card, by the keys of the calendar, or else by
/// those of the addresses.
pub open spec fn armored_card_text(
    at: u32,
    data: Seq<char>,
    calendar_keys: Seq<Seq<Seq<u8>>>,
    address_keys: Seq<Seq<Seq<u8>>>,
) -> Option<Seq<char>> {
    let message = vstd::utf8::encode_utf8(data);
    match crypto::first_opened(at, message, calendar_keys) {
        Some(t) => Some(t),
        None => crypto::first_opened(at, message, address_keys),
    }
}

/// The text of a card: its data where it is not encrypted; else what the key
/// packet beside it opens, or what the data opens to by itself.
pub open spec fn card_text(
    at: u32,
    kind: int,
    data: Seq<char>,
    key_packet: Option<Seq<char>>,
    calendar_keys: Seq<Seq<Seq<u8>>>,
    address_keys: Seq<Seq<Seq<u8>>>,
) -> Option<Seq<char>> {
    if !is_encrypted(kind) {
        Some(data)
    } else {
        let split = match key_packet {
            Some(k) => split_card_text(at, data, k, calendar_keys),
            None => None,
        };
        match split {
            Some(t) => Some(t),
            None => armored_card_text(at, data, calendar_keys, address_keys),
        }
    }
}

pub open spec fn option_str(s: Option<&str>) -> Option<Seq<char>> {
    match s {
        Some(s) => Some(s@),
        None => None,
    }
}

fn decrypt_split(at: u32, data: &str, key_packet: &str, calendar_keys: &[UnlockedKey]) -> (r:
    Option<String>)
    ensures
        text::option_text(r) == split_card_text(
            at,
            data@,
            key_packet@,
            crypto::unlocked_view(calendar_keys@),
        ),
{
    if is_empty(key_packet) || is_empty(data) {
        return None;
    }
    match (decode_base64(key_packet), decode_base64(data)) {
        (Ok(mut k), Ok(mut d)) => {
            let ghost joined = k@ + d@;
            k.append(&mut d);
            assert(k@ =~= joined);
            decrypt_bytes_with_any(at, k.as_slice(), calendar_keys)
        },
        _ => None,
    }
}

/// Whether a text, or the error that there is none, is that of a card.
pub open spec fn card_read(text: Option<Seq<char>>, r: Result<String, ProtonError>) -> bool {
    match r {
        Ok(t) => text == Some(t@),
        Err(e) => text is None && crypto::is_crypto(e, "calendar decrypt failed: no key"@),
    }
}

/// Decrypts one card of an event, under the policy of a time.
pub fn decrypt_calendar_part_at(
    at: u32,
    part: &CalendarEventPart,
    calendar_keys: &[UnlockedKey],
    address_keys: &[UnlockedKey],
    key_packet: Option<&str>,
) -> (r: Result<String, ProtonError>)
    ensures
        card_read(
            card_text(
                at,
                part.Type as int,
                part.Data@,
                option_str(key_packet),
                crypto::unlocked_view(calendar_keys@),
                crypto::unlocked_view(address_keys@),
            ),
            r,
        ),
{
    if !encrypted_type(part.Type) {
        return Ok(copy_text(part.Data.as_str()));
    }
    if let Some(k) = key_packet {
        if let Some(t) = decrypt_split(at, part.Data.as_str(), k, calendar_keys) {
            return Ok(t);
        }
    }
    let message: &[u8] = part.Data.as_str().as_bytes();
    if let Some(t) = decrypt_bytes_with_any(at, message, calendar_keys) {
        return Ok(t);
    }
    match decrypt_bytes_with_any(at, message, address_keys) {
        Some(t) => Ok(t),
        None => Err(ProtonError::Crypto(copy_text("calendar decrypt failed: no key"))),
    }
}

/// Decrypts one card of an event, under the policy of the clock's time.
pub fn decrypt_calendar_part(
    part: &CalendarEventPart,
    calendar_keys: &[UnlockedKey],
    address_keys: &[UnlockedKey],
    key_packet: Option<&str>,
) -> (r: Result<String, ProtonError>)
    ensures
        exists|at: u32|
            card_read(
                #[trigger] card_text(
                    at,
                    part.Type as int,
                    part.Data@,
                    option_str(key_packet),
                    crypto::unlocked_view(calendar_keys@),
                    crypto::unlocked_view(address_keys@),
                ),
                r,
            ),
{
    let at: u32 = policy_time(unix_now());
    decrypt_calendar_part_at(at, part, calendar_keys, address_keys, key_packet)
}

/// Decrypts one card that has no key packet beside it, under the policy of
/// the clock's time.
pub fn decrypt_calendar_event(
    part: &CalendarEventPart,
    calendar_keys: &[UnlockedKey],
    address_keys: &[UnlockedKey],
) -> (r: Result<String, ProtonError>)
    ensures
        exists|at: u32|
            card_read(
                #[trigger] card_text(
                    at,
                    part.Type as int,
                    part.Data@,
                    None,
                    crypto::unlocked_view(calendar_keys@),
                    crypto::unlocked_view(address_keys@),
                ),
                r,
            ),
{
    decrypt_calendar_part(part, calendar_keys, address_keys, None)
}

// ---------------------------------------------------------------------
// Keys
// ---------------------------------------------------------------------

/// The members of a passphrase, each with what is encrypted for it.
pub open spec fn members(s: Seq<MemberPassphrase>) -> Seq<(Seq<char>, Seq<char>)> {
    Seq::new(s.len(), |i: int| (s[i].MemberID@, s[i].Passphrase@))
}

/// What is encrypted for the first member of that id.
pub open spec fn passphrase_of(s: Seq<(Seq<char>, Seq<char>)>, id: Seq<char>) -> Option<Seq<char>>
    decreases s.len(),
{
    if s.len() == 0 {
        None
    } else if s[0].0 == id {
        Some(s[0].1)
    } else {
        passphrase_of(s.skip(1), id)
    }
}

pub open spec fn private_keys(s: Seq<CalendarKey>) -> Seq<Seq<char>> {
    Seq::new(s.len(), |i: int| s[i].PrivateKey@)
}

/// The armored keys that a passphrase unlocks, in their order.
pub open spec fn keys_unlocked_by(armored: Seq<Seq<char>>, passphrase: Seq<char>) -> Seq<
    Seq<Seq<u8>>,
>
    decreases armored.len(),
{
    if armored.len() == 0 {
        seq![]
    } else {
        let init = keys_unlocked_by(armored.drop_last(), passphrase);
        if armored.last().len() == 0 {
            init
        } else {
            match crypto::unlocked_key(
                vstd::utf8::encode_utf8(armored.last()),
                vstd::utf8::encode_utf8(passphrase),
            ) {
                Ok(k) => init.push(k),
                Err(_) => init,
            }
        }
    }
}

/// The keys of a calendar for a member, or the message why there are none.
pub open spec fn calendar_keys_of(
    at: u32,
    armored: Seq<Seq<char>>,
    passphrases: Seq<(Seq<char>, Seq<char>)>,
    address_keys: Seq<Seq<Seq<u8>>>,
    member: Seq<char>,
) -> Result<Seq<Seq<Seq<u8>>>, Seq<char>> {
    match passphrase_of(passphrases, member) {
        None => Err("No passphrase for member"@),
        Some(p) => match crypto::first_opened(at, vstd::utf8::encode_utf8(p), address_keys) {
            None => Err(
                "Calendar passphrase decrypt failed: "@ + ("Crypto error: "@
                    + "No key could decrypt the message"@),
            ),
            Some(t) => if keys_unlocked_by(armored, t).len() == 0 {
                Err("No calendar keys could be unlocked"@)
            } else {
                Ok(keys_unlocked_by(armored, t))
            },
        },
    }
}

fn find_member<'a>(list: &'a Vec<MemberPassphrase>, id: &str) -> (r: Option<&'a MemberPassphrase>)
    ensures
        match r {
            Some(m) => passphrase_of(members(list@), id@) == Some(m.Passphrase@),
            None => passphrase_of(members(list@), id@) is None,
        },
{
    let mut i: usize = 0;
    let ghost all = members(list@);
    assert(all.skip(0) =~= all);
    while i < list.len()
        invariant
            i <= list@.len(),
            all == members(list@),
            passphrase_of(all, id@) == passphrase_of(all.skip(i as int), id@),
        decreases list@.len() - i,
    {
        assert(all.skip(i as int)[0] == all[i as int]);
        assert(all.skip(i as int).skip(1) =~= all.skip(i + 1));
        if text_eq(list[i].MemberID.as_str(), id) {
            return Some(&list[i]);
        }
        i = i + 1;
    }
    None
}

fn unlock_each(keys: &[CalendarKey], passphrase: &str) -> (r: Vec<UnlockedKey>)
    ensures
        crypto::unlocked_view(r@) == keys_unlocked_by(private_keys(keys@), passphrase@),
{
    let mut out: Vec<UnlockedKey> = Vec::new();
    let mut i: usize = 0;
    let ghost all = private_keys(keys@);
    assert(all.take(0) =~= seq![]);
    assert(crypto::unlocked_view(out@) =~= seq![]);
    while i < keys.len()
        invariant
            i <= keys@.len(),
            all == private_keys(keys@),
            crypto::unlocked_view(out@) == keys_unlocked_by(all.take(i as int), passphrase@),
        decreases keys@.len() - i,
    {
        let ghost before = out@;
        assert(all.take(i + 1).drop_last() =~= all.take(i as int));
        assert(all.take(i + 1).last() == keys@[i as int].PrivateKey@);
        if !is_empty(keys[i].PrivateKey.as_str()) {
            if let Ok(k) = UnlockedKey::from_armored(
                keys[i].PrivateKey.as_str(),
                passphrase.as_bytes(),
            ) {
                out.push(k);
                assert(crypto::unlocked_view(out@) =~= crypto::unlocked_view(before).push(k@));
            }
        }
        i = i + 1;
    }
    assert(all.take(all.len() as int) =~= all);
    out
}

/// Whether keys, or the error that there are none, are those of a calendar.
pub open spec fn keys_read(
    keys: Result<Seq<Seq<Seq<u8>>>, Seq<char>>,
    r: Result<Vec<UnlockedKey>, ProtonError>,
) -> bool {
    match r {
        Ok(k) => keys == Ok::<Seq<Seq<Seq<u8>>>, Seq<char>>(crypto::unlocked_view(k@)),
        Err(e) => keys matches Err(m) && crypto::is_crypto(e, m),
    }
}

/// Decrypts the passphrase of a member with any address key, and unlocks
/// every calendar key that opens with it, under the policy of a time.
pub fn decrypt_calendar_keys_at(
    at: u32,
    keys: &[CalendarKey],
    passphrase: &CalendarPassphrase,
    address_keys: &[UnlockedKey],
    member_id: &str,
) -> (r: Result<Vec<UnlockedKey>, ProtonError>)
    ensures
        keys_read(
            calendar_keys_of(
                at,
                private_keys(keys@),
                members(passphrase.MemberPassphrases@),
                crypto::unlocked_view(address_keys@),
                member_id@,
            ),
            r,
        ),
{
    let member: &MemberPassphrase = match find_member(&passphrase.MemberPassphrases, member_id) {
        Some(m) => m,
        None => return Err(ProtonError::Crypto(copy_text("No passphrase for member"))),
    };
    let plain: String = match decrypt_contact_card_at(at, member.Passphrase.as_str(), address_keys) {
        Ok(t) => t,
        Err(e) => {
            let message: String = e.message();
            assert(message@ == "Crypto error: "@ + "No key could decrypt the message"@);
            return Err(
                ProtonError::Crypto(
                    concat2("Calendar passphrase decrypt failed: ", message.as_str()),
                ),
            );
        },
    };
    let unlocked: Vec<UnlockedKey> = unlock_each(keys, plain.as_str());
    if unlocked.len() == 0 {
        return Err(ProtonError::Crypto(copy_text("No calendar keys could be unlocked")));
    }
    Ok(unlocked)
}

/// Decrypts the passphrase of a member with any address key, and unlocks
/// every calendar key that opens with it, under the policy of the clock's
/// time.
pub fn decrypt_calendar_keys(
    keys: &[CalendarKey],
    passphrase: &CalendarPassphrase,
    address_keys: &[UnlockedKey],
    member_id: &str,
) -> (r: Result<Vec<UnlockedKey>, ProtonError>)
    ensures
        exists|at: u32|
            keys_read(
                #[trigger] calendar_keys_of(
                    at,
                    private_keys(keys@),
                    members(passphrase.MemberPassphrases@),
                    crypto::unlocked_view(address_keys@),
                    member_id@,
                ),
                r,
            ),
{
    let at: u32 = policy_time(unix_now());
    decrypt_calendar_keys_at(at, keys, passphrase, address_keys, member_id)
}

} // verus!
