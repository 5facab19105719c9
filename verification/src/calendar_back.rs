//! What listings, keys and new events of a calendar come to.
use vstd::prelude::*;

use crate::calendar;
use crate::calendar_cards;
use crate::calendar_seal;
use crate::calendar_seal::NewCards;
use crate::calendar_write::SyncEventBody;
use crate::crypto;
use crate::encoding;
use crate::json;
use crate::json::{Json, JsonModel};
use crate::models;
use crate::models::EventModel;
use crate::rows_back::is_int;
use crate::text;

verus! {

// ---------------------------------------------------------------------
// Listings
// ---------------------------------------------------------------------

/// Whether more pages follow: as the answer says, and where it says nothing,
/// while the rows of the pages so far, a hundred on each, are fewer than the
/// total.
pub proof fn law_more_pages(v: JsonModel, page: int)
    ensures
        json::get(v, "More"@) matches Some(JsonModel::Bool(b)) ==> calendar::envelope_more(v, page)
            == b,
        forall|n: int|
            is_int(json::get(v, "More"@), n) ==> calendar::envelope_more(v, page) == (n != 0),
        json::get(v, "More"@) is None ==> (json::get(v, "Total"@) matches Some(
            JsonModel::Number(n),
        ) ==> n.uint matches Some(total) ==> calendar::envelope_more(v, page) == (page * 100
            < total)),
        json::get(v, "More"@) is None && json::get(v, "Total"@) is None ==> !calendar::envelope_more(
            v,
            page,
        ),
{
}

/// A page holds the rows of its list that can be read, in their order; a row
/// that cannot be read loses no other.
pub proof fn law_page_rows(a: Seq<JsonModel>, j: JsonModel)
    ensures
        ({
            let was = calendar::events_of_jsons(a);
            let is = calendar::events_of_jsons(a.push(j));
            &&& models::event_of_json(j) matches Some(e) ==> is == was.push(e)
            &&& models::event_of_json(j) is None ==> is == was
        }),
        calendar::events_of_jsons(seq![]) == Seq::<EventModel>::empty(),
        forall|v: JsonModel|
            json::get(v, "Events"@) == Some(JsonModel::Array(a)) ==> #[trigger] calendar::envelope_events(
                v,
            ) == calendar::events_of_jsons(a),
        forall|v: JsonModel|
            json::get(v, "Events"@) is None ==> (#[trigger] calendar::envelope_events(v)).len()
                == 0,
{
    assert(a.push(j).drop_last() =~= a);
}

/// A row belongs to a window where it recurs, or where it has a second in
/// common with it; one that ends before the window or starts behind it does
/// not.
pub proof fn law_common_second(e: EventModel, start: int, end: int, t: int)
    ensures
        e.rrule is Some && e.rrule->Some_0.len() > 0 ==> calendar::in_window(e, start, end),
        start <= t < end && e.start_time <= t < e.end_time ==> calendar::in_window(e, start, end),
        (e.rrule is None || e.rrule->Some_0.len() == 0) && (e.end_time <= start || e.start_time
            >= end) ==> !calendar::in_window(e, start, end),
{
}

/// The windows of a listing: each piece of the time asked for with a day more
/// on either side, and never more than 93 days; every second asked for lies in
/// one of them, a day from its ends.
pub proof fn law_windows_reach_round(start: int, end: int, t: int)
    requires
        i64::MIN + 86400 <= start <= t < end <= i64::MAX - 86400,
    ensures
        ({
            let w = calendar::padded(
                calendar::windows(start, end, calendar::CALENDAR_MAX_WINDOW_SECS - 2 * 86400),
            );
            &&& exists|i: int| 0 <= i < w.len() && (#[trigger] w[i]).0 + 86400 <= t < w[i].1 - 86400
            &&& forall|i: int| 0 <= i < w.len() ==> (#[trigger] w[i]).1 - w[i].0 <= 8035200
            &&& w.len() > 0 && w[0].0 == start - 86400 && w.last().1 == end + 86400
        }),
{
    let span = calendar::CALENDAR_MAX_WINDOW_SECS - 2 * 86400;
    let p = calendar::windows(start, end, span);
    let w = calendar::padded(p);
    calendar::law_windows_cover(start, end, span);
    calendar::law_padded_windows_within_cap(start, end);
    lemma_piece(start, end, span, t);
    let k = choose|k: int| 0 <= k < p.len() && (#[trigger] p[k]).0 <= t < p[k].1;
    lemma_pieces_within(start, end, span);
    assert(p[k].0 >= start && p[k].1 <= end);
    assert(w[k].0 == p[k].0 - 86400 && w[k].1 == p[k].1 + 86400);
    assert(p[p.len() - 1].1 == end && p[0].0 == start);
    assert(w.last() == w[p.len() - 1]);
}

proof fn lemma_piece(start: int, end: int, span: int, t: int)
    requires
        i64::MIN <= start <= t < end <= i64::MAX,
        0 < span,
    ensures
        exists|k: int|
            0 <= k < calendar::windows(start, end, span).len() && (#[trigger] calendar::windows(
                start,
                end,
                span,
            )[k]).0 <= t < calendar::windows(start, end, span)[k].1,
    decreases end - start,
{
    let next = calendar::smaller(start + span, end);
    let w = calendar::windows(start, end, span);
    if t < next {
        assert(w[0].0 <= t < w[0].1);
    } else {
        let rest = calendar::windows(next, end, span);
        lemma_piece(next, end, span, t);
        let k = choose|k: int| 0 <= k < rest.len() && (#[trigger] rest[k]).0 <= t < rest[k].1;
        assert(w[k + 1] == rest[k]);
    }
}

proof fn lemma_pieces_within(start: int, end: int, span: int)
    requires
        i64::MIN <= start <= end <= i64::MAX,
        0 < span,
    ensures
        forall|k: int|
            0 <= k < calendar::windows(start, end, span).len() ==> start <= (
            #[trigger] calendar::windows(start, end, span)[k]).0 && calendar::windows(
                start,
                end,
                span,
            )[k].1 <= end,
    decreases end - start,
{
    if start < end {
        let next = calendar::smaller(start + span, end);
        let w = calendar::windows(start, end, span);
        let rest = calendar::windows(next, end, span);
        lemma_pieces_within(next, end, span);
        assert forall|k: int| 0 <= k < w.len() implies start <= (#[trigger] w[k]).0 && w[k].1
            <= end by {
            if k > 0 {
                assert(w[k] == rest[k - 1]);
            }
        }
    }
}

/// Of the rows of one identifier the first stays, and the rows that stay keep
/// their order.
pub proof fn law_first_row_stays(evs: Seq<EventModel>, e: EventModel)
    ensures
        ({
            let was = calendar::unique_events(evs);
            let is = calendar::unique_events(evs.push(e));
            &&& (exists|i: int| 0 <= i < evs.len() && (#[trigger] evs[i]).id == e.id) ==> is == was
            &&& (forall|i: int| 0 <= i < evs.len() ==> (#[trigger] evs[i]).id != e.id) ==> is
                == was.push(e)
        }),
{
    assert(evs.push(e).drop_last() =~= evs);
    calendar::law_unique_events(evs);
    let was = calendar::unique_events(evs);
    if exists|i: int| 0 <= i < evs.len() && (#[trigger] evs[i]).id == e.id {
        let i = choose|i: int| 0 <= i < evs.len() && (#[trigger] evs[i]).id == e.id;
        assert(calendar::has_id(was, evs[i].id));
    }
    if calendar::has_id(was, e.id) {
        let k = choose|k: int| 0 <= k < was.len() && (#[trigger] was[k]).id == e.id;
        assert(evs.contains(was[k]));
        let i = choose|i: int| 0 <= i < evs.len() && evs[i] == was[k];
        assert(evs[i].id == e.id);
    }
}

/// The settings of the consolidated route count where they bring a default
/// reminder of either kind.
pub proof fn law_settings_with_reminders_count(v: JsonModel, j: JsonModel)
    requires
        json::get(v, "CalendarSettings"@) == Some(j),
    ensures
        ({
            let s = models::settings_of_json(j);
            let part = s.part_day is Some && s.part_day->Some_0.len() > 0;
            let full = s.full_day is Some && s.full_day->Some_0.len() > 0;
            &&& part || full ==> calendar::settings_in(v) == Some(s)
            &&& !part && !full ==> calendar::settings_in(v) is None
        }),
{
}

// ---------------------------------------------------------------------
// Keys and cards
// ---------------------------------------------------------------------

/// The passphrase of a member is the first under its identifier.
pub proof fn law_first_passphrase_counts(
    s: Seq<(Seq<char>, Seq<char>)>,
    k: int,
    id: Seq<char>,
)
    ensures
        0 <= k < s.len() && s[k].0 == id && (forall|i: int|
            0 <= i < k ==> (#[trigger] s[i]).0 != id) ==> calendar_cards::passphrase_of(s, id)
            == Some(s[k].1),
        (forall|i: int| 0 <= i < s.len() ==> (#[trigger] s[i]).0 != id)
            ==> calendar_cards::passphrase_of(s, id) is None,
    decreases s.len(),
{
    if s.len() > 0 {
        let rest = s.skip(1);
        law_first_passphrase_counts(rest, k - 1, id);
        if 0 < k < s.len() && (forall|i: int| 0 <= i < k ==> (#[trigger] s[i]).0 != id) {
            assert forall|i: int| 0 <= i < k - 1 implies (#[trigger] rest[i]).0 != id by {
                assert(rest[i] == s[i + 1]);
            }
            assert(s[0].0 != id);
            assert(rest[k - 1] == s[k]);
        }
        if forall|i: int| 0 <= i < s.len() ==> (#[trigger] s[i]).0 != id {
            assert forall|i: int| 0 <= i < rest.len() implies (#[trigger] rest[i]).0 != id by {
                assert(rest[i] == s[i + 1]);
            }
            assert(s[0].0 != id);
        }
    }
}

/// A calendar is unlocked with what the passphrase of the member opens to:
/// every key that it unlocks is there, in its order. Without a passphrase,
/// where it does not open, and where it unlocks no key, there is an error.
pub proof fn law_calendar_keys(
    at: u32,
    armored: Seq<Seq<char>>,
    key: Seq<char>,
    passphrases: Seq<(Seq<char>, Seq<char>)>,
    address_keys: Seq<Seq<Seq<u8>>>,
    member: Seq<char>,
    word: Seq<char>,
)
    ensures
        ({
            let was = calendar_cards::keys_unlocked_by(armored, word);
            let is = calendar_cards::keys_unlocked_by(armored.push(key), word);
            let opened = crypto::unlocked_key(
                vstd::utf8::encode_utf8(key),
                vstd::utf8::encode_utf8(word),
            );
            &&& key.len() > 0 && opened is Ok ==> is == was.push(opened->Ok_0)
            &&& key.len() == 0 || opened is Err ==> is == was
        }),
        ({
            let r = calendar_cards::calendar_keys_of(
                at,
                armored,
                passphrases,
                address_keys,
                member,
            );
            let given = calendar_cards::passphrase_of(passphrases, member);
            let read = crypto::first_opened(
                at,
                vstd::utf8::encode_utf8(given->Some_0),
                address_keys,
            );
            &&& given is None ==> r is Err
            &&& given is Some && read is None ==> r is Err
            &&& given is Some && read is Some && calendar_cards::keys_unlocked_by(
                armored,
                read->Some_0,
            ).len() > 0 ==> r == Ok::<Seq<Seq<Seq<u8>>>, Seq<char>>(
                calendar_cards::keys_unlocked_by(armored, read->Some_0),
            )
            &&& given is Some && read is Some && calendar_cards::keys_unlocked_by(
                armored,
                read->Some_0,
            ).len() == 0 ==> r is Err
        }),
{
    assert(armored.push(key).drop_last() =~= armored);
}

/// A clear card reads as its data. An encrypted one reads as what its key
/// packet and data open to together; where they do not, as what the data
/// opens to by itself, with the keys of the calendar before those of the
/// addresses.
pub proof fn law_card_reads(
    at: u32,
    kind: int,
    data: Seq<char>,
    packet: Seq<u8>,
    bytes: Seq<u8>,
    calendar_keys: Seq<Seq<Seq<u8>>>,
    address_keys: Seq<Seq<Seq<u8>>>,
)
    requires
        packet.len() > 0,
        bytes.len() > 0,
    ensures
        kind == 0 || kind == 2 ==> calendar_cards::card_text(
            at,
            kind,
            data,
            None,
            calendar_keys,
            address_keys,
        ) == Some(data),
        kind == 1 || kind == 3 ==> {
            let together = crypto::first_opened(at, packet + bytes, calendar_keys);
            let sent = encoding::base64_text(bytes);
            together is Some ==> calendar_cards::card_text(
                at,
                kind,
                sent,
                Some(encoding::base64_text(packet)),
                calendar_keys,
                address_keys,
            ) == together
        },
        kind == 1 || kind == 3 ==> {
            let by_calendar = crypto::first_opened(
                at,
                vstd::utf8::encode_utf8(data),
                calendar_keys,
            );
            let by_address = crypto::first_opened(at, vstd::utf8::encode_utf8(data), address_keys);
            let r = calendar_cards::card_text(at, kind, data, None, calendar_keys, address_keys);
            &&& by_calendar is Some ==> r == by_calendar
            &&& by_calendar is None ==> r == by_address
        },
{
    encoding::law_base64_round_trip(packet);
    encoding::law_base64_round_trip(bytes);
    lemma_base64_some(packet);
    lemma_base64_some(bytes);
}

proof fn lemma_base64_some(b: Seq<u8>)
    requires
        b.len() > 0,
    ensures
        encoding::base64_text(b).len() > 0,
{
    assert(encoding::sextets(b).len() > 0);
}

// ---------------------------------------------------------------------
// New events
// ---------------------------------------------------------------------

/// A new event goes out with a clear and an encrypted card of each kind, the
/// two key packets, and neither attendees nor reminders nor a color of its
/// own.
pub proof fn law_new_event_body(
    cards: Option<NewCards>,
    cal_keys: Seq<Seq<Seq<u8>>>,
    addr_keys: Seq<Seq<Seq<u8>>>,
    at: u32,
    body: SyncEventBody,
)
    requires
        calendar_seal::create_written(cards, cal_keys, addr_keys, at, Ok(Some(body))),
    ensures
        cards is Some,
        body.Permissions == 1,
        body.SharedKeyPacket is Some,
        body.CalendarKeyPacket is Some,
        body.SharedEventContent@.len() == 2,
        body.SharedEventContent@[0].Type == 2,
        body.SharedEventContent@[0].Data@ == cards->Some_0.shared_signed,
        body.SharedEventContent@[1].Type == 3,
        body.CalendarEventContent@.len() == 2,
        body.CalendarEventContent@[0].Type == 2,
        body.CalendarEventContent@[0].Data@ == cards->Some_0.calendar_signed,
        body.CalendarEventContent@[1].Type == 3,
        body.AttendeesEventContent@.len() == 0,
        body.Attendees@ == JsonModel::Array(seq![]),
        body.Notifications is Null,
        body.Color is Null,
{
}

} // verus!
