//! Sealing events: the bodies of new and of changed events.
use vstd::prelude::*;

pub use crate::sealing::{
    detached_sign, detached_sign_at, encrypt_with_session_key, extract_session_key,
    fresh_key_packet, fresh_session_key, reseal_card, seal_card, seal_card_at, SEAL_CIPHER,
};

use crate::calendar_cards;
use crate::calendar_cards::{decrypt_calendar_part_at, encrypted_type};
use crate::calendar_write;
use crate::calendar_write::{
    marshal_attendees, marshal_color, marshal_notifications, next_sequence, patch_card, CardPatch,
    FieldsModel, LocalFields, SyncContentPart, SyncEventBody, UpdateOverrides,
};
use crate::crypto;
use crate::crypto::{policy_time, UnlockedKey};
use crate::dates;
use crate::dates::{format_ical_date_end_exclusive, format_ical_dt, unix_now};
use crate::encoding;
use crate::encoding::encode_base64;
use crate::error::ProtonError;
use crate::escape;
use crate::escape::escape_ical_text;
use crate::ical;
use crate::ical::parse_ical;
use crate::json;
use crate::json::{Json, JsonModel};
use crate::lines;
use crate::models;
use crate::models::{AttendeeToken, CalendarEvent, CalendarEventPart, EventModel, PartModel};
use crate::numbers;
use crate::numbers::{parse_i64, signed_decimal_text};
use crate::openpgp;
use crate::openpgp::{CipherKey, KeyPair};
use crate::ordered;
use crate::sealing;
use crate::sealing::first_pair;
use crate::text;
use crate::text::{concat2, copy_text, is_empty, join_texts, text_eq, trimmed};

verus! {

broadcast use crate::text::lemma_texts_push;

// ---------------------------------------------------------------------
// The sequence number of decrypted cards
// ---------------------------------------------------------------------

/// The sequence number of a card, where it has one.
pub open spec fn sequence_of(card: Seq<char>) -> Option<int> {
    numbers::within(
        numbers::signed_value(text::trim(ical::event_of(card).sequence)),
        i64::MIN as int,
        i64::MAX as int,
    )
}

/// The largest sequence number of cards.
pub open spec fn largest_sequence(cards: Seq<Seq<char>>) -> Option<int>
    decreases cards.len(),
{
    if cards.len() == 0 {
        None
    } else {
        match (largest_sequence(cards.drop_last()), sequence_of(cards.last())) {
            (Some(a), Some(b)) => Some(if a < b {
                b
            } else {
                a
            }),
            (Some(a), None) => Some(a),
            (None, b) => b,
        }
    }
}

/// The largest sequence number of cards, 0 when none has one.
pub open spec fn max_sequence_of(cards: Seq<Seq<char>>) -> int {
    match largest_sequence(cards) {
        Some(n) => n,
        None => 0,
    }
}

/// A decrypted group: of each card whether it was encrypted, and its text.
pub open spec fn group_view(s: Seq<(bool, String)>) -> Seq<(bool, Seq<char>)> {
    Seq::new(s.len(), |i: int| (s[i].0, s[i].1@))
}

pub open spec fn group_plains(s: Seq<(bool, Seq<char>)>) -> Seq<Seq<char>> {
    Seq::new(s.len(), |i: int| s[i].1)
}

/// The largest sequence number of the cards of a group.
pub fn max_sequence(cards: &Vec<(bool, String)>) -> (r: i64)
    ensures
        r == max_sequence_of(group_plains(group_view(cards@))),
{
    let mut best: Option<i64> = None;
    let mut i: usize = 0;
    let ghost all = group_plains(group_view(cards@));
    assert(all.take(0) =~= seq![]);
    while i < cards.len()
        invariant
            i <= cards@.len(),
            all == group_plains(group_view(cards@)),
            match best {
                Some(n) => largest_sequence(all.take(i as int)) == Some(n as int),
                None => largest_sequence(all.take(i as int)) is None,
            },
        decreases cards@.len() - i,
    {
        assert(all.take(i + 1).drop_last() =~= all.take(i as int));
        assert(all.take(i + 1).last() == cards@[i as int].1@);
        if let Ok(ev) = parse_ical(cards[i].1.as_str()) {
            let number: String = trimmed(ev.sequence.as_str());
            if let Some(n) = parse_i64(number.as_str()) {
                best = match best {
                    Some(b) => if b < n {
                        Some(n)
                    } else {
                        Some(b)
                    },
                    None => Some(n),
                };
            }
        }
        i = i + 1;
    }
    assert(all.take(all.len() as int) =~= all);
    match best {
        Some(n) => n,
        None => 0,
    }
}

// ---------------------------------------------------------------------
// Reading a group of cards
// ---------------------------------------------------------------------

/// The text of a card of a group; none for an encrypted card without a key
/// packet, or that does not open.
pub open spec fn part_text(
    at: u32,
    part: PartModel,
    key_packet: Seq<char>,
    cal_keys: Seq<Seq<Seq<u8>>>,
    addr_keys: Seq<Seq<Seq<u8>>>,
) -> Option<Seq<char>> {
    if !calendar_cards::is_encrypted(part.kind) {
        Some(part.data)
    } else if key_packet.len() == 0 {
        None
    } else {
        calendar_cards::card_text(at, part.kind, part.data, Some(key_packet), cal_keys, addr_keys)
    }
}

/// The cards of a group decrypted; none when one of them does not open.
pub open spec fn group_texts(
    at: u32,
    parts: Seq<PartModel>,
    key_packet: Seq<char>,
    cal_keys: Seq<Seq<Seq<u8>>>,
    addr_keys: Seq<Seq<Seq<u8>>>,
) -> Option<Seq<(bool, Seq<char>)>>
    decreases parts.len(),
{
    if parts.len() == 0 {
        Some(seq![])
    } else {
        match (
            group_texts(at, parts.drop_last(), key_packet, cal_keys, addr_keys),
            part_text(at, parts.last(), key_packet, cal_keys, addr_keys),
        ) {
            (Some(init), Some(t)) => Some(
                init.push((calendar_cards::is_encrypted(parts.last().kind), t)),
            ),
            _ => None,
        }
    }
}

proof fn lemma_group_prefix(
    at: u32,
    parts: Seq<PartModel>,
    key_packet: Seq<char>,
    cal_keys: Seq<Seq<Seq<u8>>>,
    addr_keys: Seq<Seq<Seq<u8>>>,
    k: int,
)
    requires
        0 <= k <= parts.len(),
        group_texts(at, parts.take(k), key_packet, cal_keys, addr_keys) is None,
    ensures
        group_texts(at, parts, key_packet, cal_keys, addr_keys) is None,
    decreases parts.len() - k,
{
    if k < parts.len() {
        assert(parts.take(k + 1).drop_last() =~= parts.take(k));
        lemma_group_prefix(at, parts, key_packet, cal_keys, addr_keys, k + 1);
    } else {
        assert(parts.take(k) =~= parts);
    }
}

/// Whether cards, or that there are none, are those of a group.
pub open spec fn group_read(
    cards: Option<Seq<(bool, Seq<char>)>>,
    r: Option<Vec<(bool, String)>>,
) -> bool {
    match r {
        Some(g) => cards == Some(group_view(g@)),
        None => cards is None,
    }
}

/// Decrypts the cards of a group, under the policy of the clock's time.
pub fn decrypt_group(
    parts: &Vec<CalendarEventPart>,
    key_packet_b64: &str,
    cal_keys: &[UnlockedKey],
    addr_keys: &[UnlockedKey],
) -> (r: Option<Vec<(bool, String)>>)
    ensures
        exists|at: u32|
            group_read(
                #[trigger] group_texts(
                    at,
                    models::parts_view(parts@),
                    key_packet_b64@,
                    crypto::unlocked_view(cal_keys@),
                    crypto::unlocked_view(addr_keys@),
                ),
                r,
            ),
{
    let at: u32 = policy_time(unix_now());
    decrypt_group_at(at, parts, key_packet_b64, cal_keys, addr_keys)
}

/// Decrypts the cards of a group, under the policy of a time.
pub fn decrypt_group_at(
    at: u32,
    parts: &Vec<CalendarEventPart>,
    key_packet_b64: &str,
    cal_keys: &[UnlockedKey],
    addr_keys: &[UnlockedKey],
) -> (r: Option<Vec<(bool, String)>>)
    ensures
        group_read(
            group_texts(
                at,
                models::parts_view(parts@),
                key_packet_b64@,
                crypto::unlocked_view(cal_keys@),
                crypto::unlocked_view(addr_keys@),
            ),
            r,
        ),
{
    let mut out: Vec<(bool, String)> = Vec::new();
    let mut i: usize = 0;
    let ghost all = models::parts_view(parts@);
    let ghost ck = crypto::unlocked_view(cal_keys@);
    let ghost ak = crypto::unlocked_view(addr_keys@);
    assert(all.take(0) =~= seq![]);
    assert(group_view(out@) =~= seq![]);
    while i < parts.len()
        invariant
            i <= parts@.len(),
            all == models::parts_view(parts@),
            ck == crypto::unlocked_view(cal_keys@),
            ak == crypto::unlocked_view(addr_keys@),
            group_texts(at, all.take(i as int), key_packet_b64@, ck, ak) == Some(group_view(out@)),
        decreases parts@.len() - i,
    {
        let ghost before = out@;
        assert(all.take(i + 1).drop_last() =~= all.take(i as int));
        assert(all.take(i + 1).last() == parts@[i as int]@);
        let encrypted: bool = encrypted_type(parts[i].Type);
        let plain: Option<String> = if !encrypted {
            Some(copy_text(parts[i].Data.as_str()))
        } else if is_empty(key_packet_b64) {
            None
        } else {
            match decrypt_calendar_part_at(at, &parts[i], cal_keys, addr_keys, Some(key_packet_b64)) {
                Ok(t) => Some(t),
                Err(_) => None,
            }
        };
        match plain {
            Some(t) => {
                out.push((encrypted, t));
                assert(group_view(out@) =~= group_view(before).push((encrypted, t@)));
            },
            None => {
                proof {
                    lemma_group_prefix(at, all, key_packet_b64@, ck, ak, i + 1);
                }
                return None;
            },
        }
        i = i + 1;
    }
    assert(all.take(all.len() as int) =~= all);
    Some(out)
}

// ---------------------------------------------------------------------
// Sealing a group of cards again
// ---------------------------------------------------------------------

/// What a [`CardPatch`] holds.
#[verifier::ext_equal]
pub struct PatchModel {
    pub set: Seq<(Seq<char>, Seq<char>)>,
    pub delete: Seq<Seq<char>>,
    pub append: Seq<Seq<char>>,
}

impl View for CardPatch {
    type V = PatchModel;

    open spec fn view(&self) -> PatchModel {
        PatchModel {
            set: self.set@,
            delete: self.delete@,
            append: text::texts(self.append@),
        }
    }
}

/// A card after a patch.
pub open spec fn patched_text(plain: Seq<char>, patch: PatchModel) -> Seq<char> {
    lines::card_of(
        calendar_write::patched_lines(plain, patch.set, patch.delete, patch.append),
    )
}

/// The cards of a group after a patch for the signed and one for the
/// encrypted cards.
pub open spec fn patched_group(
    group: Seq<(bool, Seq<char>)>,
    signed: PatchModel,
    encrypted: PatchModel,
) -> Seq<(bool, Seq<char>)> {
    Seq::new(
        group.len(),
        |i: int|
            (
                group[i].0,
                patched_text(
                    group[i].1,
                    if group[i].0 {
                        encrypted
                    } else {
                        signed
                    },
                ),
            ),
    )
}

/// Whether data in base64 was encrypted with a session key: it opens behind
/// any key packet that holds this key, where the cipher stays accepted.
pub open spec fn encrypted_with(data: Seq<char>, plain: Seq<char>, key: (u8, Seq<u8>)) -> bool {
    exists|d: Seq<u8>|
        {
            &&& data == #[trigger] encoding::base64_text(d)
            &&& openpgp::stays_accepted(key.0) ==> sealing::holds_plain(
                d,
                vstd::utf8::encode_utf8(plain),
                key.0,
                key.1,
            )
        }
}

/// Whether a part is a card sealed with a session key and signed: of type 2
/// and clear, or of type 3 and encrypted.
pub open spec fn part_sealed(
    part: SyncContentPart,
    card: (bool, Seq<char>),
    key: Option<(u8, Seq<u8>)>,
    signer: Seq<u8>,
    at: u32,
) -> bool {
    &&& sealing::signature_of(part.Signature@, vstd::utf8::encode_utf8(card.1), signer, at)
    &&& if card.0 {
        &&& part.Type == 3
        &&& key matches Some(k) && encrypted_with(part.Data@, card.1, k)
    } else {
        &&& part.Type == 2
        &&& part.Data@ == card.1
    }
}

/// Whether parts are the cards of a group, each sealed.
pub open spec fn group_sealed(
    parts: Seq<SyncContentPart>,
    cards: Seq<(bool, Seq<char>)>,
    key: Option<(u8, Seq<u8>)>,
    signer: Option<Seq<u8>>,
    at: u32,
) -> bool {
    &&& parts.len() == cards.len()
    &&& signer is Some
    &&& forall|i: int|
        0 <= i < parts.len() ==> part_sealed(#[trigger] parts[i], cards[i], key, signer->0, at)
}

/// Whether an error is one of sealing a card again.
pub open spec fn part_error(
    e: ProtonError,
    encrypted: bool,
    key: Option<(u8, Seq<u8>)>,
    signer: Seq<u8>,
    at: u32,
) -> bool {
    ||| sealing::sign_error(e, signer, at)
    ||| encrypted && match key {
        None => crypto::is_crypto(e, "reseal: encrypted part without session key"@),
        Some(k) => openpgp::container_refusal(k.0, k.1.len()) matches Some(fault)
            && crypto::is_crypto(e, sealing::seal_message(fault)),
    }
}

/// Whether an error is one of sealing a group again: there is no pair to sign
/// with, or a card of the group failed.
pub open spec fn group_error(
    e: ProtonError,
    cards: Seq<(bool, Seq<char>)>,
    key: Option<(u8, Seq<u8>)>,
    signer: Option<Seq<u8>>,
    at: u32,
) -> bool {
    match signer {
        None => crypto::is_crypto(e, "reseal: address key has no pairs"@),
        Some(pair) => exists|i: int|
            0 <= i < cards.len() && part_error(e, (#[trigger] cards[i]).0, key, pair, at),
    }
}

pub open spec fn session_view(k: Option<&(u8, CipherKey)>) -> Option<(u8, Seq<u8>)> {
    match k {
        Some(k) => Some(openpgp::key_view(*k)),
        None => None,
    }
}

/// A part from the data of an encrypted card, where there is a session key
/// for it, and the signature: the signed text itself in a clear part.
pub fn resealed_part(
    encrypted: bool,
    plain: &str,
    data: Option<Vec<u8>>,
    signature: Result<String, ProtonError>,
) -> (r: Result<SyncContentPart, ProtonError>)
    ensures
        if encrypted && data is None {
            r matches Err(e) && crypto::is_crypto(
                e,
                "reseal: encrypted part without session key"@,
            )
        } else {
            match signature {
                Err(e) => r == Err::<SyncContentPart, ProtonError>(e),
                Ok(s) => r matches Ok(part) && part.Signature == s && (if encrypted {
                    part.Type == 3 && part.Data@ == encoding::base64_text(data->Some_0@)
                } else {
                    part.Type == 2 && part.Data@ == plain@
                }),
            }
        },
{
    if encrypted {
        match data {
            None => Err(
                ProtonError::Crypto(copy_text("reseal: encrypted part without session key")),
            ),
            Some(d) => match signature {
                Ok(s) => Ok(SyncContentPart { Type: 3, Data: encode_base64(&d), Signature: s }),
                Err(e) => Err(e),
            },
        }
    } else {
        match signature {
            Ok(s) => Ok(SyncContentPart { Type: 2, Data: copy_text(plain), Signature: s }),
            Err(e) => Err(e),
        }
    }
}

/// Where the first part stands that was not made, or the number of parts.
pub open spec fn first_unmade(parts: Seq<Result<SyncContentPart, ProtonError>>) -> int
    decreases parts.len(),
{
    if parts.len() == 0 || parts[0] is Err {
        0
    } else {
        1 + first_unmade(parts.skip(1))
    }
}

/// The parts of a group from the outcome for each card: all of them, or the
/// first error.
pub fn resealed_group(outcomes: Vec<Result<SyncContentPart, ProtonError>>) -> (r: Result<
    Vec<SyncContentPart>,
    ProtonError,
>)
    ensures
        match r {
            Ok(parts) => parts@.len() == outcomes@.len() && forall|i: int|
                0 <= i < parts@.len() ==> #[trigger] outcomes@[i] == Ok::<
                    SyncContentPart,
                    ProtonError,
                >(parts@[i]),
            Err(e) => first_unmade(outcomes@) < outcomes@.len() && outcomes@[first_unmade(
                outcomes@,
            )] == Err::<SyncContentPart, ProtonError>(e),
        },
{
    let ghost all = outcomes@;
    let mut rest: Vec<Result<SyncContentPart, ProtonError>> = outcomes;
    let mut out: Vec<SyncContentPart> = Vec::new();
    assert(all.skip(0) =~= all);
    while rest.len() > 0
        invariant
            all == outcomes@,
            out@.len() + rest@.len() == all.len(),
            rest@ == all.skip(out@.len() as int),
            first_unmade(all) == out@.len() + first_unmade(rest@),
            forall|i: int|
                0 <= i < out@.len() ==> #[trigger] all[i] == Ok::<SyncContentPart, ProtonError>(
                    out@[i],
                ),
        decreases rest@.len(),
    {
        let ghost before = rest@;
        let first: Result<SyncContentPart, ProtonError> = rest.remove(0);
        assert(rest@ =~= before.skip(1));
        assert(before[0] == all[out@.len() as int]);
        match first {
            Ok(part) => {
                out.push(part);
                assert(rest@ =~= all.skip(out@.len() as int));
            },
            Err(e) => return Err(e),
        }
    }
    Ok(out)
}

/// Seals one card again, with a signature of a time.
fn reseal_part(
    at: u32,
    encrypted: bool,
    plain: &str,
    session_key: Option<&(u8, CipherKey)>,
    signer: &KeyPair,
) -> (r: Result<SyncContentPart, ProtonError>)
    ensures
        part_outcome(r, (encrypted, plain@), session_view(session_key), signer@, at),
{
    let data: Option<Vec<u8>> = match session_key {
        Some(key) => {
            if encrypted {
                match encrypt_with_session_key(plain.as_bytes(), key.0, &key.1) {
                    Ok(d) => Some(d),
                    Err(e) => return Err(e),
                }
            } else {
                None
            }
        },
        None => None,
    };
    let signature: Result<String, ProtonError> = detached_sign_at(at, plain.as_bytes(), signer);
    resealed_part(encrypted, plain, data, signature)
}

/// Patches and seals the cards of a group again: encrypted cards with the
/// session key that they had, every card freshly signed, with a signature of
/// a time.
pub fn reseal_group(
    at: u32,
    decrypted: &Vec<(bool, String)>,
    signed_patch: &CardPatch,
    encrypted_patch: &CardPatch,
    session_key: Option<&(u8, CipherKey)>,
    addr_keys: &[UnlockedKey],
) -> (r: Result<Vec<SyncContentPart>, ProtonError>)
    ensures
        group_outcome(
            r,
            patched_group(group_view(decrypted@), signed_patch@, encrypted_patch@),
            session_view(session_key),
            sealing::signer_of(crypto::unlocked_view(addr_keys@)),
            at,
        ),
{
    let signer: &KeyPair = match first_pair(addr_keys) {
        Some(p) => p,
        None => return Err(ProtonError::Crypto(copy_text("reseal: address key has no pairs"))),
    };
    let ghost cards = patched_group(group_view(decrypted@), signed_patch@, encrypted_patch@);
    let ghost key = session_view(session_key);
    let mut outcomes: Vec<Result<SyncContentPart, ProtonError>> = Vec::new();
    let mut i: usize = 0;
    while i < decrypted.len()
        invariant
            i <= decrypted@.len(),
            outcomes@.len() == i,
            cards == patched_group(group_view(decrypted@), signed_patch@, encrypted_patch@),
            key == session_view(session_key),
            sealing::signer_of(crypto::unlocked_view(addr_keys@)) == Some(signer@),
            forall|j: int|
                0 <= j < outcomes@.len() ==> part_outcome(
                    #[trigger] outcomes@[j],
                    cards[j],
                    key,
                    signer@,
                    at,
                ),
        decreases decrypted@.len() - i,
    {
        let encrypted: bool = decrypted[i].0;
        let plain: String = if encrypted {
            patch_card(decrypted[i].1.as_str(), encrypted_patch)
        } else {
            patch_card(decrypted[i].1.as_str(), signed_patch)
        };
        assert(cards[i as int] == (encrypted, plain@));
        outcomes.push(reseal_part(at, encrypted, plain.as_str(), session_key, signer));
        i = i + 1;
    }
    let ghost made = outcomes@;
    let r: Result<Vec<SyncContentPart>, ProtonError> = resealed_group(outcomes);
    proof {
        lemma_first_unmade(made);
        match &r {
            Ok(parts) => {
                assert forall|j: int| 0 <= j < parts@.len() implies part_sealed(
                    #[trigger] parts@[j],
                    cards[j],
                    key,
                    signer@,
                    at,
                ) by {
                    assert(made[j] == Ok::<SyncContentPart, ProtonError>(parts@[j]));
                    assert(part_outcome(made[j], cards[j], key, signer@, at));
                }
            },
            Err(e) => {
                let j = first_unmade(made);
                assert(part_outcome(made[j], cards[j], key, signer@, at));
                assert(part_error(*e, cards[j].0, key, signer@, at));
            },
        }
    }
    r
}

proof fn lemma_first_unmade(parts: Seq<Result<SyncContentPart, ProtonError>>)
    ensures
        0 <= first_unmade(parts) <= parts.len(),
    decreases parts.len(),
{
    if parts.len() > 0 && parts[0] is Ok {
        lemma_first_unmade(parts.skip(1));
    }
}

/// Whether an outcome is one of sealing a card again.
pub open spec fn part_outcome(
    outcome: Result<SyncContentPart, ProtonError>,
    card: (bool, Seq<char>),
    key: Option<(u8, Seq<u8>)>,
    signer: Seq<u8>,
    at: u32,
) -> bool {
    match outcome {
        Ok(part) => part_sealed(part, card, key, signer, at),
        Err(e) => part_error(e, card.0, key, signer, at),
    }
}

/// Whether an outcome is one of sealing a group again.
pub open spec fn group_outcome(
    outcome: Result<Vec<SyncContentPart>, ProtonError>,
    cards: Seq<(bool, Seq<char>)>,
    key: Option<(u8, Seq<u8>)>,
    signer: Option<Seq<u8>>,
    at: u32,
) -> bool {
    match outcome {
        Ok(parts) => group_sealed(parts@, cards, key, signer, at),
        Err(e) => group_error(e, cards, key, signer, at),
    }
}

// ---------------------------------------------------------------------
// The patches of an update
// ---------------------------------------------------------------------

/// The patch that takes out the lines which no card of ours carries.
pub open spec fn strip_model() -> PatchModel {
    PatchModel {
        set: seq![],
        delete: ordered::with_text(ordered::with_text(seq![], "VERSION"@), "PRODID"@),
        append: seq![],
    }
}

/// A patch that also sets a property, where there is a value.
pub open spec fn set_in(
    patch: PatchModel,
    name: Seq<char>,
    value: Option<Seq<char>>,
) -> PatchModel {
    match value {
        Some(v) => PatchModel { set: ordered::with_entry(patch.set, name, v), ..patch },
        None => patch,
    }
}

/// A patch that also deletes a property.
pub open spec fn delete_in(patch: PatchModel, name: Seq<char>) -> PatchModel {
    PatchModel { delete: ordered::with_text(patch.delete, name), ..patch }
}

/// A patch with an edit of a text: untouched, deleted when empty, or set.
pub open spec fn text_in(
    patch: PatchModel,
    name: Seq<char>,
    value: Option<Seq<char>>,
) -> PatchModel {
    match value {
        None => patch,
        Some(v) => if v.len() == 0 {
            delete_in(patch, name)
        } else {
            set_in(patch, name, Some(":"@ + escape::escape(escape::without_cr(v))))
        },
    }
}

pub open spec fn is_all_day(row: EventModel, fields: FieldsModel) -> bool {
    match fields.all_day {
        Some(a) => a,
        None => row.full_day == Some(true),
    }
}

/// The body of the end of an event: the day behind the last one when it
/// takes whole days.
pub open spec fn end_body(end: int, all_day: bool) -> Option<Seq<char>> {
    if all_day {
        dates::ical_end_body(end)
    } else {
        dates::ical_dt_body(end, false)
    }
}

pub open spec fn plus_day(t: int) -> int {
    if t > i64::MAX - 86400 {
        i64::MAX as int
    } else {
        t + 86400
    }
}

/// Whether the edit moves the event.
pub open spec fn times_change(row: EventModel, fields: FieldsModel) -> bool {
    ||| fields.start matches Some(s) && s != row.start_time
    ||| fields.end matches Some(e) && (if is_all_day(row, fields) {
        plus_day(e as int)
    } else {
        e as int
    }) != row.end_time
    ||| fields.all_day matches Some(a) && a != (row.full_day == Some(true))
}

/// Whether the edit changes the recurrence.
pub open spec fn rule_changes(row: EventModel, fields: FieldsModel) -> bool {
    match fields.rrule {
        None => false,
        Some(None) => !fields.has_recurrence && (row.rrule matches Some(r) && r.len() > 0),
        Some(Some(r)) => row.rrule != Some(r),
    }
}

/// The patch of the signed cards: times, recurrence and, when either
/// changes, the next sequence number.
pub open spec fn signed_model(
    row: EventModel,
    fields: FieldsModel,
    shared: Seq<Seq<char>>,
) -> PatchModel {
    let all_day = is_all_day(row, fields);
    let started = match fields.start {
        Some(s) => set_in(strip_model(), "DTSTART"@, dates::ical_dt_body(s as int, all_day)),
        None => strip_model(),
    };
    let ended = match fields.end {
        Some(e) => set_in(started, "DTEND"@, end_body(e as int, all_day)),
        None => started,
    };
    let ruled = match fields.rrule {
        None => ended,
        Some(None) => if fields.has_recurrence {
            ended
        } else {
            delete_in(delete_in(ended, "RRULE"@), "EXDATE"@)
        },
        Some(Some(r)) => set_in(ended, "RRULE"@, Some(":"@ + r)),
    };
    if times_change(row, fields) || rule_changes(row, fields) {
        set_in(
            ruled,
            "SEQUENCE"@,
            Some(
                ":"@ + numbers::signed_decimal(
                    calendar_write::next_sequence_of(max_sequence_of(shared), true),
                ),
            ),
        )
    } else {
        ruled
    }
}

/// The patch of the encrypted cards: the texts.
pub open spec fn texts_model(fields: FieldsModel) -> PatchModel {
    text_in(
        text_in(
            text_in(strip_model(), "SUMMARY"@, fields.summary),
            "DESCRIPTION"@,
            fields.description,
        ),
        "LOCATION"@,
        fields.location,
    )
}

/// The edit of a text in a patch.
pub fn apply_text(patch: &mut CardPatch, name: &str, value: &Option<String>)
    ensures
        final(patch)@ == text_in(old(patch)@, name@, text::option_text(*value)),
{
    if let Some(v) = value {
        if is_empty(v.as_str()) {
            patch.delete.insert(copy_text(name));
        } else {
            let escaped: String = escape_ical_text(v.as_str());
            patch.set.insert(copy_text(name), concat2(":", escaped.as_str()));
        }
    }
}

fn strip_patch() -> (r: CardPatch)
    ensures
        r@ == strip_model(),
{
    let mut patch: CardPatch = CardPatch::default();
    patch.delete.insert(copy_text("VERSION"));
    patch.delete.insert(copy_text("PRODID"));
    assert(patch@ =~= strip_model());
    patch
}

fn set_some(patch: &mut CardPatch, name: &str, value: Option<String>)
    ensures
        final(patch)@ == set_in(old(patch)@, name@, text::option_text(value)),
{
    if let Some(v) = value {
        patch.set.insert(copy_text(name), v);
    }
}

fn all_day_of(row: &CalendarEvent, fields: &LocalFields) -> (r: bool)
    ensures
        r == is_all_day(row@, fields@),
{
    match fields.all_day {
        Some(a) => a,
        None => match row.FullDay {
            Some(a) => a,
            None => false,
        },
    }
}

fn format_end(end: i64, all_day: bool) -> (r: Option<String>)
    ensures
        text::option_text(r) == end_body(end as int, all_day),
{
    if all_day {
        format_ical_date_end_exclusive(end)
    } else {
        format_ical_dt(end, false)
    }
}

fn moves_event(row: &CalendarEvent, fields: &LocalFields, all_day: bool) -> (r: bool)
    requires
        all_day == is_all_day(row@, fields@),
    ensures
        r == times_change(row@, fields@),
{
    let start: bool = match fields.start_unix {
        Some(s) => s != row.StartTime,
        None => false,
    };
    let end: bool = match fields.end_unix {
        Some(e) => if all_day {
            let day: i64 = 86400;
            let behind: i64 = if e > i64::MAX - day {
                i64::MAX
            } else {
                e + day
            };
            behind != row.EndTime
        } else {
            e != row.EndTime
        },
        None => false,
    };
    let whole: bool = match fields.all_day {
        Some(a) => a != (match row.FullDay {
            Some(f) => f,
            None => false,
        }),
        None => false,
    };
    start || end || whole
}

/// The patch of the signed cards of an update.
fn signed_patch_of(row: &CalendarEvent, fields: &LocalFields, shared: &Vec<(bool, String)>) -> (r:
    CardPatch)
    ensures
        r@ == signed_model(row@, fields@, group_plains(group_view(shared@))),
{
    let mut patch: CardPatch = strip_patch();
    let all_day: bool = all_day_of(row, fields);
    if let Some(start) = fields.start_unix {
        set_some(&mut patch, "DTSTART", format_ical_dt(start, all_day));
    }
    if let Some(end) = fields.end_unix {
        set_some(&mut patch, "DTEND", format_end(end, all_day));
    }
    let moved: bool = moves_event(row, fields, all_day);
    let mut ruled: bool = false;
    match &fields.rrule {
        None => {},
        Some(None) => {
            if !fields.has_recurrence {
                patch.delete.insert(copy_text("RRULE"));
                patch.delete.insert(copy_text("EXDATE"));
                ruled = match &row.RRule {
                    Some(r) => !is_empty(r.as_str()),
                    None => false,
                };
            }
        },
        Some(Some(r)) => {
            set_some(&mut patch, "RRULE", Some(concat2(":", r.as_str())));
            ruled = match &row.RRule {
                Some(old_rule) => !text_eq(old_rule.as_str(), r.as_str()),
                None => true,
            };
        },
    }
    if moved || ruled {
        let next: String = signed_decimal_text(next_sequence(max_sequence(shared), true));
        set_some(&mut patch, "SEQUENCE", Some(concat2(":", next.as_str())));
    }
    patch
}

/// The patch of the encrypted cards of an update.
fn texts_patch_of(fields: &LocalFields) -> (r: CardPatch)
    ensures
        r@ == texts_model(fields@),
{
    let mut patch: CardPatch = strip_patch();
    apply_text(&mut patch, "SUMMARY", &fields.summary);
    apply_text(&mut patch, "DESCRIPTION", &fields.description);
    apply_text(&mut patch, "LOCATION", &fields.location);
    patch
}

// ---------------------------------------------------------------------
// The body of an update
// ---------------------------------------------------------------------

pub open spec fn any_encrypted(parts: Seq<PartModel>) -> bool {
    exists|i: int| 0 <= i < parts.len() && calendar_cards::is_encrypted((#[trigger] parts[i]).kind)
}

/// The session key that the encrypted cards of a group have: none where no
/// card is encrypted; and no answer where there is a card but no key.
pub open spec fn group_session(
    parts: Seq<PartModel>,
    key_packet: Seq<char>,
    cal_keys: Seq<Seq<Seq<u8>>>,
) -> Option<Option<(u8, Seq<u8>)>> {
    if !any_encrypted(parts) {
        Some(None)
    } else if key_packet.len() == 0 {
        None
    } else {
        match sealing::stored_session(key_packet, cal_keys) {
            Ok(k) => Some(Some(k)),
            Err(_) => None,
        }
    }
}

/// What an update seals: the cards of each group after the edit, and the
/// session keys of the row.
#[verifier::ext_equal]
pub struct UpdatePlan {
    pub shared: Seq<(bool, Seq<char>)>,
    pub calendar: Seq<(bool, Seq<char>)>,
    pub attendees: Seq<(bool, Seq<char>)>,
    pub shared_key: Option<(u8, Seq<u8>)>,
    pub calendar_key: Option<(u8, Seq<u8>)>,
}

/// The plan of an update; none where the row has cards of members, or a
/// group that cannot be read whole: what cannot be read must not be replaced.
pub open spec fn update_plan(
    at: u32,
    row: EventModel,
    fields: FieldsModel,
    cal_keys: Seq<Seq<Seq<u8>>>,
    addr_keys: Seq<Seq<Seq<u8>>>,
) -> Option<UpdatePlan> {
    if row.personal_events.len() > 0 {
        None
    } else {
        let shared_key = group_session(row.shared_events, row.shared_key_packet, cal_keys);
        let calendar_key = group_session(row.calendar_events, row.calendar_key_packet, cal_keys);
        let shared = group_texts(at, row.shared_events, row.shared_key_packet, cal_keys, addr_keys);
        let calendar = group_texts(
            at,
            row.calendar_events,
            row.calendar_key_packet,
            cal_keys,
            addr_keys,
        );
        let attendees = group_texts(
            at,
            row.attendees_events,
            row.shared_key_packet,
            cal_keys,
            addr_keys,
        );
        match (shared_key, calendar_key, shared, calendar, attendees) {
            (Some(sk), Some(ck), Some(s), Some(c), Some(a)) => Some(
                UpdatePlan {
                    shared: patched_group(
                        s,
                        signed_model(row, fields, group_plains(s)),
                        texts_model(fields),
                    ),
                    calendar: patched_group(c, strip_model(), strip_model()),
                    attendees: patched_group(a, strip_model(), strip_model()),
                    shared_key: sk,
                    calendar_key: ck,
                },
            ),
            _ => None,
        }
    }
}

/// The reminders of an update: those of the row, unless they are replaced.
pub open spec fn update_notifications(
    row: EventModel,
    overrides: Option<UpdateOverrides>,
) -> JsonModel {
    let replaced = match overrides {
        Some(o) => o.notifications,
        None => None,
    };
    match replaced {
        None => match row.notifications {
            Some(list) => JsonModel::Array(list),
            None => JsonModel::Null,
        },
        Some(None) => JsonModel::Null,
        Some(Some(list)) => JsonModel::Array(json::models(list@)),
    }
}

/// The color of an update: that of the row, unless it is replaced.
pub open spec fn update_color(row: EventModel, overrides: Option<UpdateOverrides>) -> JsonModel {
    let replaced = match overrides {
        Some(o) => text::option_text(o.color),
        None => None,
    };
    let color = match replaced {
        Some(c) => Some(c),
        None => row.color,
    };
    match color {
        Some(c) => if c.len() == 0 {
            JsonModel::Null
        } else {
            JsonModel::Text(c)
        },
        None => JsonModel::Null,
    }
}

/// The clear attendee rows of an update: those of the row.
pub open spec fn update_attendees(row: EventModel) -> JsonModel {
    JsonModel::Array(
        Seq::new(
            row.attendees.len(),
            |i: int| calendar_write::attendee_row(row.attendees[i].token, row.attendees[i].status),
        ),
    )
}

/// Whether a body carries out a plan.
pub open spec fn plan_sealed(
    body: SyncEventBody,
    plan: UpdatePlan,
    signer: Option<Seq<u8>>,
    at: u32,
) -> bool {
    &&& group_sealed(body.SharedEventContent@, plan.shared, plan.shared_key, signer, at)
    &&& group_sealed(body.CalendarEventContent@, plan.calendar, plan.calendar_key, signer, at)
    &&& group_sealed(body.AttendeesEventContent@, plan.attendees, plan.shared_key, signer, at)
}

/// Whether an error is one of carrying out a plan.
pub open spec fn plan_error(
    e: ProtonError,
    plan: UpdatePlan,
    signer: Option<Seq<u8>>,
    at: u32,
) -> bool {
    ||| group_error(e, plan.shared, plan.shared_key, signer, at)
    ||| group_error(e, plan.calendar, plan.calendar_key, signer, at)
    ||| group_error(e, plan.attendees, plan.shared_key, signer, at)
}

pub open spec fn option_key(k: Option<Option<(u8, CipherKey)>>) -> Option<Option<(u8, Seq<u8>)>> {
    match k {
        Some(k) => Some(openpgp::key_option(k)),
        None => None,
    }
}

fn has_encrypted(parts: &Vec<CalendarEventPart>) -> (r: bool)
    ensures
        r == any_encrypted(models::parts_view(parts@)),
{
    let mut i: usize = 0;
    let ghost all = models::parts_view(parts@);
    while i < parts.len()
        invariant
            i <= parts@.len(),
            all == models::parts_view(parts@),
            forall|j: int| 0 <= j < i ==> !calendar_cards::is_encrypted((#[trigger] all[j]).kind),
        decreases parts@.len() - i,
    {
        assert(all[i as int].kind == parts@[i as int].Type as int);
        if encrypted_type(parts[i].Type) {
            return true;
        }
        i = i + 1;
    }
    false
}

fn session_of_group(
    parts: &Vec<CalendarEventPart>,
    key_packet: &str,
    cal_keys: &[UnlockedKey],
) -> (r: Option<Option<(u8, CipherKey)>>)
    ensures
        option_key(r) == group_session(
            models::parts_view(parts@),
            key_packet@,
            crypto::unlocked_view(cal_keys@),
        ),
{
    if !has_encrypted(parts) {
        return Some(None);
    }
    if is_empty(key_packet) {
        return None;
    }
    match extract_session_key(key_packet, cal_keys) {
        Ok(k) => Some(Some(k)),
        Err(_) => None,
    }
}

fn attendee_rows(tokens: &Vec<AttendeeToken>) -> (r: Json)
    ensures
        r@ == JsonModel::Array(
            Seq::new(
                tokens@.len(),
                |i: int|
                    calendar_write::attendee_row(tokens@[i].Token@, tokens@[i].Status as int),
            ),
        ),
{
    let mut rows: Vec<(String, i64)> = Vec::new();
    let mut i: usize = 0;
    while i < tokens.len()
        invariant
            i <= tokens@.len(),
            rows@.len() == i,
            forall|j: int|
                0 <= j < i ==> (#[trigger] rows@[j]).0@ == tokens@[j].Token@ && rows@[j].1
                    == tokens@[j].Status,
        decreases tokens@.len() - i,
    {
        rows.push((copy_text(tokens[i].Token.as_str()), tokens[i].Status));
        i = i + 1;
    }
    let r: Json = marshal_attendees(rows.as_slice());
    assert(Seq::new(
        rows@.len(),
        |i: int| calendar_write::attendee_row(rows@[i].0@, rows@[i].1 as int),
    ) =~= Seq::new(
        tokens@.len(),
        |i: int| calendar_write::attendee_row(tokens@[i].Token@, tokens@[i].Status as int),
    ));
    r
}

fn notifications_of(row: &CalendarEvent, overrides: Option<&UpdateOverrides>) -> (r: Json)
    ensures
        r@ == update_notifications(row@, deref(overrides)),
{
    let replaced: &Option<Option<Vec<Json>>> = match overrides {
        Some(o) => &o.notifications,
        None => &None,
    };
    match replaced {
        None => match &row.Notifications {
            Some(list) => marshal_notifications(true, list),
            None => Json::Null,
        },
        Some(None) => Json::Null,
        Some(Some(list)) => marshal_notifications(true, list),
    }
}

pub open spec fn deref(o: Option<&UpdateOverrides>) -> Option<UpdateOverrides> {
    match o {
        Some(o) => Some(*o),
        None => None,
    }
}

fn color_of(row: &CalendarEvent, overrides: Option<&UpdateOverrides>) -> (r: Json)
    ensures
        r@ == update_color(row@, deref(overrides)),
{
    if let Some(o) = overrides {
        if let Some(hex) = &o.color {
            return marshal_color(hex.as_str());
        }
    }
    match &row.Color {
        Some(hex) => marshal_color(hex.as_str()),
        None => Json::Null,
    }
}

/// What a body of an update holds beside its parts.
pub open spec fn update_rest(
    body: SyncEventBody,
    row: EventModel,
    overrides: Option<UpdateOverrides>,
) -> bool {
    &&& body.Permissions == 1
    &&& body.SharedKeyPacket is None
    &&& body.CalendarKeyPacket is None
    &&& body.Attendees@ == update_attendees(row)
    &&& body.Notifications@ == update_notifications(row, overrides)
    &&& body.Color@ == update_color(row, overrides)
}

/// The body of an update from the outcome for each group: the first error
/// counts.
pub fn update_body_of(
    row: &CalendarEvent,
    overrides: Option<&UpdateOverrides>,
    shared: Result<Vec<SyncContentPart>, ProtonError>,
    calendar: Result<Vec<SyncContentPart>, ProtonError>,
    attendees: Result<Vec<SyncContentPart>, ProtonError>,
) -> (r: Result<SyncEventBody, ProtonError>)
    ensures
        match (shared, calendar, attendees) {
            (Err(e), _, _) => r == Err::<SyncEventBody, ProtonError>(e),
            (_, Err(e), _) => r == Err::<SyncEventBody, ProtonError>(e),
            (_, _, Err(e)) => r == Err::<SyncEventBody, ProtonError>(e),
            (Ok(s), Ok(c), Ok(a)) => {
                &&& r is Ok
                &&& r->Ok_0.SharedEventContent == s
                &&& r->Ok_0.CalendarEventContent == c
                &&& r->Ok_0.AttendeesEventContent == a
                &&& update_rest(r->Ok_0, row@, deref(overrides))
            },
        },
{
    let shared_parts: Vec<SyncContentPart> = match shared {
        Ok(p) => p,
        Err(e) => return Err(e),
    };
    let calendar_parts: Vec<SyncContentPart> = match calendar {
        Ok(p) => p,
        Err(e) => return Err(e),
    };
    let attendees_parts: Vec<SyncContentPart> = match attendees {
        Ok(p) => p,
        Err(e) => return Err(e),
    };
    let rows: Json = attendee_rows(&row.Attendees);
    assert(rows@ == update_attendees(row@)) by {
        assert(Seq::new(
            row.Attendees@.len(),
            |i: int|
                calendar_write::attendee_row(
                    row.Attendees@[i].Token@,
                    row.Attendees@[i].Status as int,
                ),
        ) =~= Seq::new(
            row@.attendees.len(),
            |i: int|
                calendar_write::attendee_row(row@.attendees[i].token, row@.attendees[i].status),
        ));
    }
    Ok(
        SyncEventBody {
            Permissions: 1,
            SharedKeyPacket: None,
            CalendarKeyPacket: None,
            SharedEventContent: shared_parts,
            CalendarEventContent: calendar_parts,
            AttendeesEventContent: attendees_parts,
            Attendees: rows,
            Notifications: notifications_of(row, overrides),
            Color: color_of(row, overrides),
        },
    )
}

/// Whether a result is one of carrying out the plan of an update, where there
/// is one.
pub open spec fn update_written(
    plan: Option<UpdatePlan>,
    row: EventModel,
    overrides: Option<UpdateOverrides>,
    signer: Option<Seq<u8>>,
    at: u32,
    r: Result<Option<SyncEventBody>, ProtonError>,
) -> bool {
    match plan {
        None => r matches Ok(None),
        Some(plan) => match r {
            Ok(Some(body)) => {
                &&& plan_sealed(body, plan, signer, at)
                &&& update_rest(body, row, overrides)
            },
            Ok(None) => false,
            Err(e) => plan_error(e, plan, signer, at),
        },
    }
}

/// Builds the sealed body of an update from a row as the server has it and
/// the edit. None puts the update off: the row has cards of members, or cards
/// that cannot be read. The body carries no key packets, the session keys are
/// those that the row has; reminders, color and attendee rows are sent again
/// as they were unless they are replaced.
/// The cards are read under the policy of the clock's time, and the signatures
/// are of that time.
pub fn build_update_body(
    row: &CalendarEvent,
    fields: &LocalFields,
    overrides: Option<&UpdateOverrides>,
    cal_keys: &[UnlockedKey],
    addr_keys: &[UnlockedKey],
) -> (r: Result<Option<SyncEventBody>, ProtonError>)
    ensures
        exists|at: u32|
            update_written(
                #[trigger] update_plan(
                    at,
                    row@,
                    fields@,
                    crypto::unlocked_view(cal_keys@),
                    crypto::unlocked_view(addr_keys@),
                ),
                row@,
                deref(overrides),
                sealing::signer_of(crypto::unlocked_view(addr_keys@)),
                at,
                r,
            ),
        (overrides is None || overrides->Some_0.color is None) && row.Color is Some
            && row.Color->Some_0@.len() > 0 ==> (r matches Ok(Some(body)) ==> body.Color@
            == JsonModel::Text(row.Color->Some_0@)),
{
    let at: u32 = policy_time(unix_now());
    build_update_body_at(at, row, fields, overrides, cal_keys, addr_keys)
}

/// Builds the sealed body of an update, the cards of the row read under the
/// policy of a time, with signatures of that time.
pub fn build_update_body_at(
    at: u32,
    row: &CalendarEvent,
    fields: &LocalFields,
    overrides: Option<&UpdateOverrides>,
    cal_keys: &[UnlockedKey],
    addr_keys: &[UnlockedKey],
) -> (r: Result<Option<SyncEventBody>, ProtonError>)
    ensures
        update_written(
            update_plan(
                at,
                row@,
                fields@,
                crypto::unlocked_view(cal_keys@),
                crypto::unlocked_view(addr_keys@),
            ),
            row@,
            deref(overrides),
            sealing::signer_of(crypto::unlocked_view(addr_keys@)),
            at,
            r,
        ),
        (overrides is None || overrides->Some_0.color is None) && row.Color is Some
            && row.Color->Some_0@.len() > 0 ==> (r matches Ok(Some(body)) ==> body.Color@
            == JsonModel::Text(row.Color->Some_0@)),
{
    if row.PersonalEvents.len() > 0 {
        return Ok(None);
    }
    let shared_key: Option<(u8, CipherKey)> = match session_of_group(
        &row.SharedEvents,
        row.SharedKeyPacket.as_str(),
        cal_keys,
    ) {
        Some(k) => k,
        None => return Ok(None),
    };
    let calendar_key: Option<(u8, CipherKey)> = match session_of_group(
        &row.CalendarEvents,
        row.CalendarKeyPacket.as_str(),
        cal_keys,
    ) {
        Some(k) => k,
        None => return Ok(None),
    };
    let shared: Vec<(bool, String)> = match decrypt_group_at(
        at,
        &row.SharedEvents,
        row.SharedKeyPacket.as_str(),
        cal_keys,
        addr_keys,
    ) {
        Some(g) => g,
        None => return Ok(None),
    };
    let calendar: Vec<(bool, String)> = match decrypt_group_at(
        at,
        &row.CalendarEvents,
        row.CalendarKeyPacket.as_str(),
        cal_keys,
        addr_keys,
    ) {
        Some(g) => g,
        None => return Ok(None),
    };
    let attendees: Vec<(bool, String)> = match decrypt_group_at(
        at,
        &row.AttendeesEvents,
        row.SharedKeyPacket.as_str(),
        cal_keys,
        addr_keys,
    ) {
        Some(g) => g,
        None => return Ok(None),
    };
    let signed_patch: CardPatch = signed_patch_of(row, fields, &shared);
    let texts_patch: CardPatch = texts_patch_of(fields);
    let strip: CardPatch = strip_patch();
    let shared_parts: Result<Vec<SyncContentPart>, ProtonError> = reseal_group(
        at,
        &shared,
        &signed_patch,
        &texts_patch,
        shared_key.as_ref(),
        addr_keys,
    );
    let calendar_parts: Result<Vec<SyncContentPart>, ProtonError> = reseal_group(
        at,
        &calendar,
        &strip,
        &strip,
        calendar_key.as_ref(),
        addr_keys,
    );
    let attendees_parts: Result<Vec<SyncContentPart>, ProtonError> = reseal_group(
        at,
        &attendees,
        &strip,
        &strip,
        shared_key.as_ref(),
        addr_keys,
    );
    match update_body_of(row, overrides, shared_parts, calendar_parts, attendees_parts) {
        Ok(body) => Ok(Some(body)),
        Err(e) => Err(e),
    }
}

// ---------------------------------------------------------------------
// The body of a new event
// ---------------------------------------------------------------------

/// The recurrence rule of a new event; no answer where the device has a rule
/// that could not be written down.
pub open spec fn create_rule(fields: FieldsModel) -> Option<Option<Seq<char>>> {
    match fields.rrule {
        Some(Some(r)) => Some(Some(r)),
        _ => if fields.has_recurrence {
            None
        } else {
            Some(None)
        },
    }
}

/// A line for a text, where it is there and not empty.
pub open spec fn text_line(name: Seq<char>, value: Option<Seq<char>>) -> Seq<Seq<char>> {
    match value {
        Some(v) => if v.len() == 0 {
            seq![]
        } else {
            seq![name + escape::escape(escape::without_cr(v))]
        },
        None => seq![],
    }
}

/// The four cards of a new event.
#[verifier::ext_equal]
pub struct NewCards {
    pub shared_signed: Seq<char>,
    pub shared_encrypted: Seq<char>,
    pub calendar_signed: Seq<char>,
    pub calendar_encrypted: Seq<char>,
}

/// Lines of an event as a card.
pub open spec fn fragment(inner: Seq<Seq<char>>) -> Seq<char> {
    patched_text(
        text::join(inner, "\n"@),
        PatchModel { set: seq![], delete: seq![], append: seq![] },
    )
}

/// The cards of a new event; none where a time is missing or has no date, or
/// where the recurrence could not be written down.
pub open spec fn new_cards(fields: FieldsModel, uid: Seq<char>, now: int) -> Option<NewCards> {
    let all_day = fields.all_day == Some(true);
    match (create_rule(fields), fields.start, fields.end) {
        (Some(rule), Some(start), Some(end)) => match (
            dates::ical_dt_body(now, false),
            dates::ical_dt_body(start as int, all_day),
            end_body(end as int, all_day),
        ) {
            (Some(stamp), Some(dtstart), Some(dtend)) => Some(
                NewCards {
                    shared_signed: fragment(
                        seq![
                            "UID:"@ + uid,
                            "DTSTAMP"@ + stamp,
                            "DTSTART"@ + dtstart,
                            "DTEND"@ + dtend,
                        ] + (match rule {
                            Some(r) => seq!["RRULE:"@ + r],
                            None => seq![],
                        }) + seq!["SEQUENCE:0"@],
                    ),
                    shared_encrypted: fragment(
                        seq!["UID:"@ + uid] + text_line("SUMMARY:"@, fields.summary) + text_line(
                            "DESCRIPTION:"@,
                            fields.description,
                        ) + text_line("LOCATION:"@, fields.location),
                    ),
                    calendar_signed: fragment(seq!["UID:"@ + uid, "DTSTAMP"@ + stamp]),
                    calendar_encrypted: fragment(seq!["UID:"@ + uid]),
                },
            ),
            _ => None,
        },
        _ => None,
    }
}

/// Whether key packet and part seal a card with a fresh session key.
pub open spec fn part_fresh(
    part: SyncContentPart,
    key_packet: Option<String>,
    plain: Seq<char>,
    cal_keys: Seq<Seq<Seq<u8>>>,
    signer: Seq<u8>,
    at: u32,
) -> bool {
    &&& part.Type == 3
    &&& sealing::signature_of(part.Signature@, vstd::utf8::encode_utf8(plain), signer, at)
    &&& exists|packet: Seq<u8>, data: Seq<u8>|
        {
            &&& text::option_text(key_packet) == Some(#[trigger] encoding::base64_text(packet))
            &&& part.Data@ == #[trigger] encoding::base64_text(data)
            &&& sealing::card_sealed(packet, data, vstd::utf8::encode_utf8(plain), cal_keys)
        }
}

/// Whether a body holds the four cards of a new event, sealed.
pub open spec fn new_sealed(
    body: SyncEventBody,
    cards: NewCards,
    cal_keys: Seq<Seq<Seq<u8>>>,
    signer: Option<Seq<u8>>,
    at: u32,
) -> bool {
    &&& signer is Some
    &&& body.SharedEventContent@.len() == 2
    &&& body.CalendarEventContent@.len() == 2
    &&& body.AttendeesEventContent@.len() == 0
    &&& part_sealed(
        body.SharedEventContent@[0],
        (false, cards.shared_signed),
        None,
        signer->0,
        at,
    )
    &&& part_fresh(
        body.SharedEventContent@[1],
        body.SharedKeyPacket,
        cards.shared_encrypted,
        cal_keys,
        signer->0,
        at,
    )
    &&& part_sealed(
        body.CalendarEventContent@[0],
        (false, cards.calendar_signed),
        None,
        signer->0,
        at,
    )
    &&& part_fresh(
        body.CalendarEventContent@[1],
        body.CalendarKeyPacket,
        cards.calendar_encrypted,
        cal_keys,
        signer->0,
        at,
    )
}

/// Whether an error is one of sealing a new event.
pub open spec fn new_error(
    e: ProtonError,
    cal_keys: Seq<Seq<Seq<u8>>>,
    addr_keys: Seq<Seq<Seq<u8>>>,
    at: u32,
) -> bool {
    match sealing::signer_of(addr_keys) {
        None => crypto::is_crypto(e, "create: address key has no pairs"@),
        Some(pair) => sealing::sign_error(e, pair, at) || sealing::seal_card_error(
            e,
            cal_keys,
            addr_keys,
            at,
        ),
    }
}

/// Lines of an event as a card.
pub fn wrap_fragment(inner_lines: &Vec<String>) -> (r: String)
    ensures
        r@ == fragment(text::texts(inner_lines@)),
{
    let joined: String = join_texts(inner_lines, "\n");
    let patch: CardPatch = CardPatch::default();
    assert(patch@ =~= PatchModel { set: seq![], delete: seq![], append: seq![] });
    patch_card(joined.as_str(), &patch)
}

fn push_text_line(out: &mut Vec<String>, name: &str, value: &Option<String>)
    ensures
        text::texts(final(out)@) == text::texts(old(out)@) + text_line(
            name@,
            text::option_text(*value),
        ),
{
    let ghost before = text::texts(out@);
    if let Some(v) = value {
        if !is_empty(v.as_str()) {
            let escaped: String = escape_ical_text(v.as_str());
            out.push(concat2(name, escaped.as_str()));
            assert(text::texts(out@) =~= before + text_line(name@, text::option_text(*value)));
            return;
        }
    }
    assert(before + Seq::<Seq<char>>::empty() =~= before);
}

/// The texts of the four cards of a new event.
pub struct NewTexts {
    pub shared_signed: String,
    pub shared_encrypted: String,
    pub calendar_signed: String,
    pub calendar_encrypted: String,
}

impl View for NewTexts {
    type V = NewCards;

    open spec fn view(&self) -> NewCards {
        NewCards {
            shared_signed: self.shared_signed@,
            shared_encrypted: self.shared_encrypted@,
            calendar_signed: self.calendar_signed@,
            calendar_encrypted: self.calendar_encrypted@,
        }
    }
}

#[verifier::rlimit(40)]
fn write_new_cards(fields: &LocalFields, uid: &str, now: i64) -> (r: Option<NewTexts>)
    ensures
        match r {
            Some(c) => new_cards(fields@, uid@, now as int) == Some(c@),
            None => new_cards(fields@, uid@, now as int) is None,
        },
{
    let rule: Option<&String> = match &fields.rrule {
        Some(Some(r)) => Some(r),
        _ => {
            if fields.has_recurrence {
                return None;
            }
            None
        },
    };
    let (start, end): (i64, i64) = match (fields.start_unix, fields.end_unix) {
        (Some(s), Some(e)) => (s, e),
        _ => return None,
    };
    let all_day: bool = match fields.all_day {
        Some(a) => a,
        None => false,
    };
    let stamp: String = match format_ical_dt(now, false) {
        Some(s) => s,
        None => return None,
    };
    let dtstart: String = match format_ical_dt(start, all_day) {
        Some(s) => s,
        None => return None,
    };
    let dtend: String = match format_end(end, all_day) {
        Some(s) => s,
        None => return None,
    };
    let mut signed: Vec<String> = Vec::new();
    signed.push(concat2("UID:", uid));
    signed.push(concat2("DTSTAMP", stamp.as_str()));
    signed.push(concat2("DTSTART", dtstart.as_str()));
    signed.push(concat2("DTEND", dtend.as_str()));
    if let Some(r) = rule {
        signed.push(concat2("RRULE:", r.as_str()));
    }
    signed.push(copy_text("SEQUENCE:0"));
    let mut encrypted: Vec<String> = Vec::new();
    encrypted.push(concat2("UID:", uid));
    assert(text::texts(encrypted@) =~= seq!["UID:"@ + uid@]);
    push_text_line(&mut encrypted, "SUMMARY:", &fields.summary);
    push_text_line(&mut encrypted, "DESCRIPTION:", &fields.description);
    push_text_line(&mut encrypted, "LOCATION:", &fields.location);
    let mut calendar_signed: Vec<String> = Vec::new();
    calendar_signed.push(concat2("UID:", uid));
    calendar_signed.push(concat2("DTSTAMP", stamp.as_str()));
    let mut calendar_encrypted: Vec<String> = Vec::new();
    calendar_encrypted.push(concat2("UID:", uid));
    proof {
        let rule_lines = match create_rule(fields@)->0 {
            Some(r) => seq!["RRULE:"@ + r],
            None => Seq::<Seq<char>>::empty(),
        };
        assert(text::texts(signed@) =~= seq![
            "UID:"@ + uid@,
            "DTSTAMP"@ + stamp@,
            "DTSTART"@ + dtstart@,
            "DTEND"@ + dtend@,
        ] + rule_lines + seq!["SEQUENCE:0"@]);
        assert(text::texts(calendar_signed@) =~= seq!["UID:"@ + uid@, "DTSTAMP"@ + stamp@]);
        assert(text::texts(calendar_encrypted@) =~= seq!["UID:"@ + uid@]);
    }
    Some(
        NewTexts {
            shared_signed: wrap_fragment(&signed),
            shared_encrypted: wrap_fragment(&encrypted),
            calendar_signed: wrap_fragment(&calendar_signed),
            calendar_encrypted: wrap_fragment(&calendar_encrypted),
        },
    )
}

/// What a body of a new event holds beside its parts and key packets.
pub open spec fn create_rest(body: SyncEventBody) -> bool {
    &&& body.Permissions == 1
    &&& body.AttendeesEventContent@.len() == 0
    &&& body.Attendees@ == JsonModel::Array(seq![])
    &&& body.Notifications@ == JsonModel::Null
    &&& body.Color@ == JsonModel::Null
}

/// Whether parts are a clear card with its signature, and an encrypted one
/// with its data and signature, and the key packet is that of the latter.
pub open spec fn pair_of_parts(
    parts: Seq<SyncContentPart>,
    key_packet: Option<String>,
    clear: Seq<char>,
    signature: String,
    sealed: (Vec<u8>, Vec<u8>, String),
) -> bool {
    &&& parts.len() == 2
    &&& parts[0].Type == 2
    &&& parts[0].Data@ == clear
    &&& parts[0].Signature == signature
    &&& parts[1].Type == 3
    &&& parts[1].Data@ == encoding::base64_text(sealed.1@)
    &&& parts[1].Signature == sealed.2
    &&& text::option_text(key_packet) == Some(encoding::base64_text(sealed.0@))
}

fn parts_of(clear: String, signature: String, sealed: (Vec<u8>, Vec<u8>, String)) -> (r: (
    Vec<SyncContentPart>,
    Option<String>,
))
    ensures
        pair_of_parts(r.0@, r.1, clear@, signature, sealed),
{
    let (packet, data, data_signature): (Vec<u8>, Vec<u8>, String) = sealed;
    let mut parts: Vec<SyncContentPart> = Vec::new();
    parts.push(SyncContentPart { Type: 2, Data: clear, Signature: signature });
    parts.push(
        SyncContentPart { Type: 3, Data: encode_base64(&data), Signature: data_signature },
    );
    (parts, Some(encode_base64(&packet)))
}

/// The body of a new event from its texts and the outcomes of signing the two
/// clear cards and of sealing the two encrypted ones, each of these key
/// packet, data and signature: the first error counts.
pub fn create_body_of(
    cards: NewTexts,
    shared_signature: Result<String, ProtonError>,
    calendar_signature: Result<String, ProtonError>,
    shared_sealed: Result<(Vec<u8>, Vec<u8>, String), ProtonError>,
    calendar_sealed: Result<(Vec<u8>, Vec<u8>, String), ProtonError>,
) -> (r: Result<SyncEventBody, ProtonError>)
    ensures
        match (shared_signature, calendar_signature, shared_sealed, calendar_sealed) {
            (Err(e), _, _, _) => r == Err::<SyncEventBody, ProtonError>(e),
            (_, Err(e), _, _) => r == Err::<SyncEventBody, ProtonError>(e),
            (_, _, Err(e), _) => r == Err::<SyncEventBody, ProtonError>(e),
            (_, _, _, Err(e)) => r == Err::<SyncEventBody, ProtonError>(e),
            (Ok(ss), Ok(cs), Ok(se), Ok(ce)) => {
                &&& r is Ok
                &&& create_rest(r->Ok_0)
                &&& pair_of_parts(
                    r->Ok_0.SharedEventContent@,
                    r->Ok_0.SharedKeyPacket,
                    cards@.shared_signed,
                    ss,
                    se,
                )
                &&& pair_of_parts(
                    r->Ok_0.CalendarEventContent@,
                    r->Ok_0.CalendarKeyPacket,
                    cards@.calendar_signed,
                    cs,
                    ce,
                )
            },
        },
{
    let shared_signature: String = match shared_signature {
        Ok(s) => s,
        Err(e) => return Err(e),
    };
    let calendar_signature: String = match calendar_signature {
        Ok(s) => s,
        Err(e) => return Err(e),
    };
    let shared_sealed: (Vec<u8>, Vec<u8>, String) = match shared_sealed {
        Ok(s) => s,
        Err(e) => return Err(e),
    };
    let calendar_sealed: (Vec<u8>, Vec<u8>, String) = match calendar_sealed {
        Ok(s) => s,
        Err(e) => return Err(e),
    };
    let (shared, shared_packet): (Vec<SyncContentPart>, Option<String>) = parts_of(
        cards.shared_signed,
        shared_signature,
        shared_sealed,
    );
    let (calendar, calendar_packet): (Vec<SyncContentPart>, Option<String>) = parts_of(
        cards.calendar_signed,
        calendar_signature,
        calendar_sealed,
    );
    let none: Vec<Json> = Vec::new();
    proof {
        json::lemma_array_model(none);
        assert(json::models(none@) =~= seq![]);
    }
    Ok(
        SyncEventBody {
            Permissions: 1,
            SharedKeyPacket: shared_packet,
            CalendarKeyPacket: calendar_packet,
            SharedEventContent: shared,
            CalendarEventContent: calendar,
            AttendeesEventContent: Vec::new(),
            Attendees: Json::Array(none),
            Notifications: Json::Null,
            Color: Json::Null,
        },
    )
}

/// Parts that hold what was signed and sealed are sealed cards.
proof fn lemma_pair_sealed(
    parts: Seq<SyncContentPart>,
    key_packet: Option<String>,
    clear: Seq<char>,
    encrypted: Seq<char>,
    signature: String,
    sealed: (Vec<u8>, Vec<u8>, String),
    cal_keys: Seq<Seq<Seq<u8>>>,
    signer: Seq<u8>,
    at: u32,
)
    requires
        pair_of_parts(parts, key_packet, clear, signature, sealed),
        sealing::signature_of(signature@, vstd::utf8::encode_utf8(clear), signer, at),
        sealing::signature_of(sealed.2@, vstd::utf8::encode_utf8(encrypted), signer, at),
        sealing::card_sealed(
            sealed.0@,
            sealed.1@,
            vstd::utf8::encode_utf8(encrypted),
            cal_keys,
        ),
    ensures
        part_sealed(parts[0], (false, clear), None, signer, at),
        part_fresh(parts[1], key_packet, encrypted, cal_keys, signer, at),
{
    assert(parts[1].Data@ == encoding::base64_text(sealed.1@));
}

/// Whether a result is one of writing a new event that is made at `now`, with
/// signatures of that time.
pub open spec fn create_written(
    cards: Option<NewCards>,
    cal_keys: Seq<Seq<Seq<u8>>>,
    addr_keys: Seq<Seq<Seq<u8>>>,
    at: u32,
    r: Result<Option<SyncEventBody>, ProtonError>,
) -> bool {
    match cards {
        None => r matches Ok(None),
        Some(cards) => match r {
            Ok(Some(body)) => {
                &&& new_sealed(body, cards, cal_keys, sealing::signer_of(addr_keys), at)
                &&& create_rest(body)
            },
            Ok(None) => false,
            Err(e) => new_error(e, cal_keys, addr_keys, at),
        },
    }
}

/// Builds the sealed body of a new event that is made at `now`.
pub fn build_create_body_at(
    fields: &LocalFields,
    uid: &str,
    now: i64,
    cal_keys: &[UnlockedKey],
    addr_keys: &[UnlockedKey],
) -> (r: Result<Option<SyncEventBody>, ProtonError>)
    ensures
        create_written(
            new_cards(fields@, uid@, now as int),
            crypto::unlocked_view(cal_keys@),
            crypto::unlocked_view(addr_keys@),
            crypto::policy_seconds(now as int) as u32,
            r,
        ),
{
    let at: u32 = policy_time(now);
    let cards: NewTexts = match write_new_cards(fields, uid, now) {
        Some(c) => c,
        None => return Ok(None),
    };
    let signer: &KeyPair = match first_pair(addr_keys) {
        Some(p) => p,
        None => return Err(ProtonError::Crypto(copy_text("create: address key has no pairs"))),
    };
    let shared_signature: Result<String, ProtonError> = detached_sign_at(
        at,
        cards.shared_signed.as_str().as_bytes(),
        signer,
    );
    let calendar_signature: Result<String, ProtonError> = detached_sign_at(
        at,
        cards.calendar_signed.as_str().as_bytes(),
        signer,
    );
    let shared_sealed: Result<(Vec<u8>, Vec<u8>, String), ProtonError> = seal_card_at(
        at,
        cards.shared_encrypted.as_str(),
        cal_keys,
        addr_keys,
    );
    let calendar_sealed: Result<(Vec<u8>, Vec<u8>, String), ProtonError> = seal_card_at(
        at,
        cards.calendar_encrypted.as_str(),
        cal_keys,
        addr_keys,
    );
    let ghost texts = cards@;
    let ghost outcomes = (shared_signature, calendar_signature, shared_sealed, calendar_sealed);
    match create_body_of(
        cards,
        shared_signature,
        calendar_signature,
        shared_sealed,
        calendar_sealed,
    ) {
        Ok(body) => {
            proof {
                lemma_pair_sealed(
                    body.SharedEventContent@,
                    body.SharedKeyPacket,
                    texts.shared_signed,
                    texts.shared_encrypted,
                    outcomes.0->Ok_0,
                    outcomes.2->Ok_0,
                    crypto::unlocked_view(cal_keys@),
                    signer@,
                    at,
                );
                lemma_pair_sealed(
                    body.CalendarEventContent@,
                    body.CalendarKeyPacket,
                    texts.calendar_signed,
                    texts.calendar_encrypted,
                    outcomes.1->Ok_0,
                    outcomes.3->Ok_0,
                    crypto::unlocked_view(cal_keys@),
                    signer@,
                    at,
                );
            }
            Ok(Some(body))
        },
        Err(e) => Err(e),
    }
}

/// Builds the sealed body of a new event. None puts it off: a time is missing
/// or has no date, or the recurrence could not be written down. A single
/// event must never stand in for a series.
pub fn build_create_body(
    fields: &LocalFields,
    uid: &str,
    cal_keys: &[UnlockedKey],
    addr_keys: &[UnlockedKey],
) -> (r: Result<Option<SyncEventBody>, ProtonError>)
    ensures
        exists|now: i64|
            create_written(
                #[trigger] new_cards(fields@, uid@, now as int),
                crypto::unlocked_view(cal_keys@),
                crypto::unlocked_view(addr_keys@),
                crypto::policy_seconds(now as int) as u32,
                r,
            ),
{
    let now: i64 = unix_now();
    build_create_body_at(fields, uid, now, cal_keys, addr_keys)
}

// ---------------------------------------------------------------------
// Reading back
// ---------------------------------------------------------------------

/// The cards of an update read back with the key packet that the row has:
/// each is the card of the row after the edit. The packet stands alone in its
/// pile, and the session key is one of a cipher that stays accepted.
pub proof fn law_resealed_group_reads_back(
    at: u32,
    signed_at: u32,
    parts: Seq<SyncContentPart>,
    cards: Seq<(bool, Seq<char>)>,
    packet: Seq<u8>,
    key: (u8, Seq<u8>),
    signer: Seq<u8>,
    cal_keys: Seq<Seq<Seq<u8>>>,
    addr_keys: Seq<Seq<Seq<u8>>>,
)
    requires
        packet.len() > 0,
        openpgp::pile(packet) == Ok::<Seq<Option<Seq<u8>>>, Seq<char>>(seq![Some(packet)]),
        sealing::stored_session(encoding::base64_text(packet), cal_keys) == Ok::<
            (u8, Seq<u8>),
            Seq<char>,
        >(key),
        openpgp::stays_accepted(key.0),
        group_sealed(parts, cards, Some(key), Some(signer), signed_at),
    ensures
        forall|i: int|
            0 <= i < parts.len() ==> calendar_cards::card_text(
                at,
                (#[trigger] parts[i]).Type as int,
                parts[i].Data@,
                Some(encoding::base64_text(packet)),
                cal_keys,
                addr_keys,
            ) == Some(cards[i].1),
{
    sealing::lemma_stored_session(packet, cal_keys);
    assert forall|i: int| 0 <= i < parts.len() implies calendar_cards::card_text(
        at,
        (#[trigger] parts[i]).Type as int,
        parts[i].Data@,
        Some(encoding::base64_text(packet)),
        cal_keys,
        addr_keys,
    ) == Some(cards[i].1) by {
        assert(part_sealed(parts[i], cards[i], Some(key), signer, signed_at));
        if cards[i].0 {
            let d = choose|d: Seq<u8>|
                {
                    &&& parts[i].Data@ == #[trigger] encoding::base64_text(d)
                    &&& openpgp::stays_accepted(key.0) ==> sealing::holds_plain(
                        d,
                        vstd::utf8::encode_utf8(cards[i].1),
                        key.0,
                        key.1,
                    )
                };
            sealing::law_sealed_card_reads_back(
                at,
                packet,
                d,
                cards[i].1,
                key.0,
                key.1,
                cal_keys,
                addr_keys,
            );
        }
    }
}

/// An encrypted card of a new event reads back with the key packet that is
/// sent with it: where the halves of the pair that it is sealed to match, and
/// no pair before it opens the packet to something else.
pub proof fn law_new_card_reads_back(
    at: u32,
    signed_at: u32,
    part: SyncContentPart,
    key_packet: Option<String>,
    plain: Seq<char>,
    pair: Seq<u8>,
    signer: Seq<u8>,
    cal_keys: Seq<Seq<Seq<u8>>>,
    addr_keys: Seq<Seq<Seq<u8>>>,
)
    requires
        part_fresh(part, key_packet, plain, cal_keys, signer, signed_at),
        sealing::key_packet_recipient(cal_keys, 32) == Ok::<Seq<u8>, Seq<char>>(pair),
        openpgp::halves_match(pair),
        forall|packet: Seq<u8>|
            text::option_text(key_packet) == Some(#[trigger] encoding::base64_text(packet))
                ==> crypto::opened_by_any(packet, sealing::all_pairs(cal_keys), None)
                == crypto::packet_opened(packet, pair, None),
    ensures
        calendar_cards::card_text(
            at,
            part.Type as int,
            part.Data@,
            text::option_text(key_packet),
            cal_keys,
            addr_keys,
        ) == Some(plain),
{
    let (packet, data) = choose|packet: Seq<u8>, data: Seq<u8>|
        {
            &&& text::option_text(key_packet) == Some(#[trigger] encoding::base64_text(packet))
            &&& part.Data@ == #[trigger] encoding::base64_text(data)
            &&& sealing::card_sealed(packet, data, vstd::utf8::encode_utf8(plain), cal_keys)
        };
    sealing::law_fresh_card_reads_back(at, packet, data, plain, cal_keys, addr_keys);
}

/// A recurrence that could not be written down puts a new event off, whatever
/// else is given: a single event never stands in for a series. So does a
/// missing time.
pub proof fn law_unwritten_series_waits(fields: FieldsModel, uid: Seq<char>, now: int)
    requires
        fields.start is None || fields.end is None || fields.has_recurrence && !(
        fields.rrule matches Some(Some(_))),
    ensures
        new_cards(fields, uid, now) is None,
{
}

} // verus!
