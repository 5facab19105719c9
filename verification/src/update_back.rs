//! What an update of an event sends of the row that it starts from.
use vstd::prelude::*;

use crate::calendar_cards;
use crate::calendar_seal;
use crate::calendar_seal::UpdatePlan;
use crate::calendar_write::{FieldsModel, SyncContentPart, SyncEventBody, UpdateOverrides};
use crate::error::ProtonError;
use crate::json::{Json, JsonModel};
use crate::models::{CalendarEvent, CalendarEventPart};

verus! {

// ---------------------------------------------------------------------
// What stands in the clear
// ---------------------------------------------------------------------

/// The color of an update is the one that the caller names, else the row's
/// own, as a text; an empty one, or none at all, goes out as null, which
/// stands for the color of the calendar.
pub proof fn law_update_sends_color(
    row: CalendarEvent,
    overrides: Option<&UpdateOverrides>,
    plan: Option<UpdatePlan>,
    signer: Option<Seq<u8>>,
    at: u32,
    body: SyncEventBody,
)
    requires
        calendar_seal::update_written(
            plan,
            row@,
            calendar_seal::deref(overrides),
            signer,
            at,
            Ok(Some(body)),
        ),
    ensures
        overrides is None || overrides->Some_0.color is None ==> {
            &&& row.Color is Some && row.Color->Some_0@.len() > 0 ==> {
                &&& body.Color@ == JsonModel::Text(row.Color->Some_0@)
                &&& body.Color matches Json::Text(t) && t@ == row.Color->Some_0@
            }
            &&& row.Color is None || row.Color->Some_0@.len() == 0 ==> body.Color is Null
        },
        overrides is Some && overrides->Some_0.color is Some ==> {
            let named = overrides->Some_0.color->Some_0;
            &&& named@.len() > 0 ==> {
                &&& body.Color@ == JsonModel::Text(named@)
                &&& body.Color matches Json::Text(t) && t@ == named@
            }
            &&& named@.len() == 0 ==> body.Color is Null
        },
{
}

/// The reminders of an update are those that the caller names, else the
/// row's own, in their order; null goes out where there is no list, and where
/// the caller asks for the reminders of the calendar.
pub proof fn law_update_sends_reminders(
    row: CalendarEvent,
    overrides: Option<&UpdateOverrides>,
    plan: Option<UpdatePlan>,
    signer: Option<Seq<u8>>,
    at: u32,
    body: SyncEventBody,
)
    requires
        calendar_seal::update_written(
            plan,
            row@,
            calendar_seal::deref(overrides),
            signer,
            at,
            Ok(Some(body)),
        ),
    ensures
        overrides is None || overrides->Some_0.notifications is None ==> (match row.Notifications {
            Some(list) => body.Notifications matches Json::Array(sent) && sent@.len()
                == list@.len() && forall|i: int|
                0 <= i < list@.len() ==> (#[trigger] sent@[i])@ == list@[i]@,
            None => body.Notifications is Null,
        }),
        overrides is Some && overrides->Some_0.notifications is Some ==> (
        match overrides->Some_0.notifications->Some_0 {
            Some(list) => body.Notifications matches Json::Array(sent) && sent@.len()
                == list@.len() && forall|i: int|
                0 <= i < list@.len() ==> (#[trigger] sent@[i])@ == list@[i]@,
            None => body.Notifications is Null,
        }),
{
    let named = if overrides is Some {
        overrides->Some_0.notifications
    } else {
        None
    };
    let list = match named {
        None => row.Notifications,
        Some(l) => l,
    };
    if let Some(l) = list {
        let all = crate::json::models(l@);
        assert(body.Notifications@ == JsonModel::Array(all));
        let sent = body.Notifications->Array_0;
        let seen = body.Notifications@->Array_0;
        assert(seen.len() == sent@.len());
        assert forall|i: int| 0 <= i < l@.len() implies (#[trigger] sent@[i])@ == l@[i]@ by {
            assert(seen[i] == sent@[i]@);
            assert(all[i] == l@[i]@);
        }
    }
}

/// An update sends a row for each attendee of the event again, in their
/// order, with the token and the answer that the attendee has.
pub proof fn law_update_sends_attendees(
    row: CalendarEvent,
    overrides: Option<&UpdateOverrides>,
    plan: Option<UpdatePlan>,
    signer: Option<Seq<u8>>,
    at: u32,
    body: SyncEventBody,
)
    requires
        calendar_seal::update_written(
            plan,
            row@,
            calendar_seal::deref(overrides),
            signer,
            at,
            Ok(Some(body)),
        ),
    ensures
        body.Attendees@ matches JsonModel::Array(sent) && {
            &&& sent.len() == row.Attendees@.len()
            &&& forall|i: int|
                0 <= i < sent.len() ==> {
                    &&& crate::json::get(#[trigger] sent[i], "Token"@) == Some(
                        JsonModel::Text(row.Attendees@[i].Token@),
                    )
                    &&& crate::json::get(sent[i], "Status"@) matches Some(JsonModel::Number(n))
                        && n.int == Some(row.Attendees@[i].Status as int)
                    &&& crate::json::get(sent[i], "Comment"@) == Some(JsonModel::Null)
                }
        },
{
    lemma_row_names();
    let sent = body.Attendees@->Array_0;
    assert forall|i: int| 0 <= i < sent.len() implies {
        &&& crate::json::get(#[trigger] sent[i], "Token"@) == Some(
            JsonModel::Text(row.Attendees@[i].Token@),
        )
        &&& crate::json::get(sent[i], "Status"@) matches Some(JsonModel::Number(n)) && n.int
            == Some(row.Attendees@[i].Status as int)
        &&& crate::json::get(sent[i], "Comment"@) == Some(JsonModel::Null)
    } by {
        let o = sent[i]->Object_0;
        assert(row@.attendees[i].token == row.Attendees@[i].Token@);
        assert(o.skip(1)[0] == o[1]);
        assert(o.skip(1).skip(1)[0] == o[2]);
        reveal_with_fuel(crate::json::member, 4);
    }
}

proof fn lemma_row_names()
    ensures
        "Token"@ != "Status"@,
        "Token"@ != "Comment"@,
        "Status"@ != "Comment"@,
{
    reveal_strlit("Token");
    reveal_strlit("Status");
    reveal_strlit("Comment");
    assert("Token"@.len() == 5 && "Status"@.len() == 6 && "Comment"@.len() == 7);
}

/// An update sends no key packet, so that the session keys of the event stay,
/// and the permission to see the event in full.
pub proof fn law_update_keeps_keys(
    row: CalendarEvent,
    overrides: Option<&UpdateOverrides>,
    plan: Option<UpdatePlan>,
    signer: Option<Seq<u8>>,
    at: u32,
    body: SyncEventBody,
)
    requires
        calendar_seal::update_written(
            plan,
            row@,
            calendar_seal::deref(overrides),
            signer,
            at,
            Ok(Some(body)),
        ),
    ensures
        body.SharedKeyPacket is None,
        body.CalendarKeyPacket is None,
        body.Permissions == 1,
{
}

// ---------------------------------------------------------------------
// The cards
// ---------------------------------------------------------------------

/// A card as it stands on the server: whether it is encrypted.
pub open spec fn is_locked(part: CalendarEventPart) -> bool {
    part.Type == 1 || part.Type == 3
}

/// A card that anyone can read, signed or not.
pub open spec fn is_clear(part: CalendarEventPart) -> bool {
    part.Type == 0 || part.Type == 2
}

proof fn lemma_group(
    at: u32,
    parts: Seq<crate::models::PartModel>,
    packet: Seq<char>,
    cal_keys: Seq<Seq<Seq<u8>>>,
    addr_keys: Seq<Seq<Seq<u8>>>,
)
    ensures
        ({
            let texts = calendar_seal::group_texts(at, parts, packet, cal_keys, addr_keys);
            &&& texts is Some <==> forall|i: int|
                0 <= i < parts.len() ==> calendar_seal::part_text(
                    at,
                    #[trigger] parts[i],
                    packet,
                    cal_keys,
                    addr_keys,
                ) is Some
            &&& texts is Some ==> texts->Some_0.len() == parts.len() && forall|i: int|
                0 <= i < parts.len() ==> #[trigger] texts->Some_0[i] == (
                    calendar_cards::is_encrypted(parts[i].kind),
                    calendar_seal::part_text(
                        at,
                        parts[i],
                        packet,
                        cal_keys,
                        addr_keys,
                    )->Some_0,
                )
        }),
    decreases parts.len(),
{
    if parts.len() > 0 {
        let init = parts.drop_last();
        lemma_group(at, init, packet, cal_keys, addr_keys);
        let texts = calendar_seal::group_texts(at, parts, packet, cal_keys, addr_keys);
        let before = calendar_seal::group_texts(at, init, packet, cal_keys, addr_keys);
        assert forall|i: int| 0 <= i < init.len() implies #[trigger] init[i] == parts[i] by {}
        if texts is Some {
            assert forall|i: int| 0 <= i < parts.len() implies calendar_seal::part_text(
                at,
                #[trigger] parts[i],
                packet,
                cal_keys,
                addr_keys,
            ) is Some by {
                if i < init.len() {
                    assert(init[i] == parts[i]);
                }
            }
            assert forall|i: int| 0 <= i < parts.len() implies #[trigger] texts->Some_0[i] == (
                calendar_cards::is_encrypted(parts[i].kind),
                calendar_seal::part_text(at, parts[i], packet, cal_keys, addr_keys)->Some_0,
            ) by {
                if i < init.len() {
                    assert(before->Some_0[i] == texts->Some_0[i]);
                    assert(init[i] == parts[i]);
                }
            }
        } else if forall|i: int|
            0 <= i < parts.len() ==> calendar_seal::part_text(
                at,
                #[trigger] parts[i],
                packet,
                cal_keys,
                addr_keys,
            ) is Some {
            assert forall|i: int| 0 <= i < init.len() implies calendar_seal::part_text(
                at,
                #[trigger] init[i],
                packet,
                cal_keys,
                addr_keys,
            ) is Some by {
                assert(init[i] == parts[i]);
            }
            assert(parts[parts.len() - 1] == parts.last());
        }
    }
}

/// The shared cards of an update: as many as the event has, clear ones clear
/// and encrypted ones encrypted, a clear one with the edit of times, an
/// encrypted one with the edit of texts.
pub proof fn law_update_edits_shared_cards(
    row: CalendarEvent,
    fields: FieldsModel,
    overrides: Option<&UpdateOverrides>,
    cal_keys: Seq<Seq<Seq<u8>>>,
    addr_keys: Seq<Seq<Seq<u8>>>,
    signer: Option<Seq<u8>>,
    at: u32,
    body: SyncEventBody,
    i: int,
)
    requires
        calendar_seal::update_written(
            calendar_seal::update_plan(at, row@, fields, cal_keys, addr_keys),
            row@,
            calendar_seal::deref(overrides),
            signer,
            at,
            Ok(Some(body)),
        ),
        0 <= i < row.SharedEvents@.len(),
    ensures
        body.SharedEventContent@.len() == row.SharedEvents@.len(),
        ({
            let was = row.SharedEvents@[i];
            let is = body.SharedEventContent@[i];
            let texts = calendar_seal::group_texts(
                at,
                row@.shared_events,
                row.SharedKeyPacket@,
                cal_keys,
                addr_keys,
            );
            &&& texts is Some
            &&& is_clear(was) ==> {
                &&& is.Type == 2
                &&& texts->Some_0[i].1 == was.Data@
                &&& is.Data@ == calendar_seal::patched_text(
                    was.Data@,
                    calendar_seal::signed_model(
                        row@,
                        fields,
                        calendar_seal::group_plains(texts->Some_0),
                    ),
                )
            }
            &&& is_locked(was) ==> {
                &&& is.Type == 3
                &&& row.SharedKeyPacket@.len() > 0
                &&& calendar_cards::card_text(
                    at,
                    was.Type as int,
                    was.Data@,
                    Some(row.SharedKeyPacket@),
                    cal_keys,
                    addr_keys,
                ) == Some(texts->Some_0[i].1)
                &&& crate::sealing::stored_session(row.SharedKeyPacket@, cal_keys) is Ok
                &&& calendar_seal::encrypted_with(
                    is.Data@,
                    calendar_seal::patched_text(
                        texts->Some_0[i].1,
                        calendar_seal::texts_model(fields),
                    ),
                    crate::sealing::stored_session(row.SharedKeyPacket@, cal_keys)->Ok_0,
                )
            }
        }),
{
    let parts = row@.shared_events;
    lemma_group(at, parts, row.SharedKeyPacket@, cal_keys, addr_keys);
    let plan = calendar_seal::update_plan(at, row@, fields, cal_keys, addr_keys)->Some_0;
    let texts = calendar_seal::group_texts(
        at,
        parts,
        row.SharedKeyPacket@,
        cal_keys,
        addr_keys,
    )->Some_0;
    assert(parts[i] == row.SharedEvents@[i]@);
    assert(calendar_seal::part_text(
        at,
        parts[i],
        row.SharedKeyPacket@,
        cal_keys,
        addr_keys,
    ) is Some);
    assert(texts[i].0 == calendar_cards::is_encrypted(parts[i].kind));
    assert(plan.shared[i].0 == texts[i].0);
    assert(calendar_seal::part_sealed(
        body.SharedEventContent@[i],
        plan.shared[i],
        plan.shared_key,
        signer->Some_0,
        at,
    ));
}

/// The cards of the calendar and of the attendees come back as they were but
/// for the lines that an update strips.
pub proof fn law_update_keeps_other_cards(
    row: CalendarEvent,
    fields: FieldsModel,
    overrides: Option<&UpdateOverrides>,
    cal_keys: Seq<Seq<Seq<u8>>>,
    addr_keys: Seq<Seq<Seq<u8>>>,
    signer: Option<Seq<u8>>,
    at: u32,
    body: SyncEventBody,
)
    requires
        calendar_seal::update_written(
            calendar_seal::update_plan(at, row@, fields, cal_keys, addr_keys),
            row@,
            calendar_seal::deref(overrides),
            signer,
            at,
            Ok(Some(body)),
        ),
    ensures
        same_cards(
            row.CalendarEvents@,
            body.CalendarEventContent@,
            at,
            row.CalendarKeyPacket@,
            cal_keys,
            addr_keys,
        ),
        same_cards(
            row.AttendeesEvents@,
            body.AttendeesEventContent@,
            at,
            row.SharedKeyPacket@,
            cal_keys,
            addr_keys,
        ),
{
    let plan = calendar_seal::update_plan(at, row@, fields, cal_keys, addr_keys)->Some_0;
    lemma_group(at, row@.calendar_events, row.CalendarKeyPacket@, cal_keys, addr_keys);
    lemma_group(at, row@.attendees_events, row.SharedKeyPacket@, cal_keys, addr_keys);
    lemma_same_cards(
        row.CalendarEvents@,
        body.CalendarEventContent@,
        at,
        row.CalendarKeyPacket@,
        cal_keys,
        addr_keys,
        plan.calendar_key,
        signer,
    );
    lemma_same_cards(
        row.AttendeesEvents@,
        body.AttendeesEventContent@,
        at,
        row.SharedKeyPacket@,
        cal_keys,
        addr_keys,
        plan.shared_key,
        signer,
    );
}

/// Whether parts are cards of the server again, without the lines that an
/// update strips: a clear one in the clear, an encrypted one encrypted with
/// the session key that it had.
pub open spec fn same_cards(
    was: Seq<CalendarEventPart>,
    is: Seq<SyncContentPart>,
    at: u32,
    packet: Seq<char>,
    cal_keys: Seq<Seq<Seq<u8>>>,
    addr_keys: Seq<Seq<Seq<u8>>>,
) -> bool {
    &&& is.len() == was.len()
    &&& forall|i: int|
        0 <= i < was.len() ==> {
            &&& is_clear(#[trigger] was[i]) ==> is[i].Type == 2 && is[i].Data@
                == calendar_seal::patched_text(was[i].Data@, calendar_seal::strip_model())
            &&& is_locked(was[i]) ==> {
                let text = calendar_cards::card_text(
                    at,
                    was[i].Type as int,
                    was[i].Data@,
                    Some(packet),
                    cal_keys,
                    addr_keys,
                );
                &&& is[i].Type == 3
                &&& text is Some
                &&& crate::sealing::stored_session(packet, cal_keys) is Ok
                &&& calendar_seal::encrypted_with(
                    is[i].Data@,
                    calendar_seal::patched_text(text->Some_0, calendar_seal::strip_model()),
                    crate::sealing::stored_session(packet, cal_keys)->Ok_0,
                )
            }
        }
}

proof fn lemma_same_cards(
    was: Seq<CalendarEventPart>,
    is: Seq<SyncContentPart>,
    at: u32,
    packet: Seq<char>,
    cal_keys: Seq<Seq<Seq<u8>>>,
    addr_keys: Seq<Seq<Seq<u8>>>,
    key: Option<(u8, Seq<u8>)>,
    signer: Option<Seq<u8>>,
)
    requires
        ({
            let parts = crate::models::parts_view(was);
            let texts = calendar_seal::group_texts(at, parts, packet, cal_keys, addr_keys);
            &&& texts is Some
            &&& key matches Some(k) ==> crate::sealing::stored_session(packet, cal_keys) == Ok::<
                (u8, Seq<u8>),
                Seq<char>,
            >(k)
            &&& calendar_seal::group_sealed(
                is,
                calendar_seal::patched_group(
                    texts->Some_0,
                    calendar_seal::strip_model(),
                    calendar_seal::strip_model(),
                ),
                key,
                signer,
                at,
            )
        }),
    ensures
        same_cards(was, is, at, packet, cal_keys, addr_keys),
{
    let parts = crate::models::parts_view(was);
    let texts = calendar_seal::group_texts(at, parts, packet, cal_keys, addr_keys)->Some_0;
    lemma_group(at, parts, packet, cal_keys, addr_keys);
    let cards = calendar_seal::patched_group(
        texts,
        calendar_seal::strip_model(),
        calendar_seal::strip_model(),
    );
    assert forall|i: int| 0 <= i < was.len() implies {
        &&& is_clear(#[trigger] was[i]) ==> is[i].Type == 2 && is[i].Data@
            == calendar_seal::patched_text(was[i].Data@, calendar_seal::strip_model())
        &&& is_locked(was[i]) ==> {
            let text = calendar_cards::card_text(
                at,
                was[i].Type as int,
                was[i].Data@,
                Some(packet),
                cal_keys,
                addr_keys,
            );
            &&& is[i].Type == 3
            &&& text is Some
            &&& crate::sealing::stored_session(packet, cal_keys) is Ok
            &&& calendar_seal::encrypted_with(
                is[i].Data@,
                calendar_seal::patched_text(text->Some_0, calendar_seal::strip_model()),
                crate::sealing::stored_session(packet, cal_keys)->Ok_0,
            )
        }
    } by {
        assert(parts[i] == was[i]@);
        assert(texts[i].0 == calendar_cards::is_encrypted(parts[i].kind));
        assert(calendar_seal::part_text(at, parts[i], packet, cal_keys, addr_keys) is Some);
        assert(calendar_seal::part_sealed(is[i], cards[i], key, signer->Some_0, at));
        assert(cards[i].1 == calendar_seal::patched_text(
            texts[i].1,
            calendar_seal::strip_model(),
        ));
    }
}

// ---------------------------------------------------------------------
// When an update waits
// ---------------------------------------------------------------------

/// An update is put off, and nothing is written, where the event has cards of
/// a member, or an encrypted card that does not open.
pub proof fn law_update_waits(
    row: CalendarEvent,
    fields: FieldsModel,
    overrides: Option<&UpdateOverrides>,
    cal_keys: Seq<Seq<Seq<u8>>>,
    addr_keys: Seq<Seq<Seq<u8>>>,
    signer: Option<Seq<u8>>,
    at: u32,
    r: Result<Option<SyncEventBody>, ProtonError>,
)
    requires
        calendar_seal::update_written(
            calendar_seal::update_plan(at, row@, fields, cal_keys, addr_keys),
            row@,
            calendar_seal::deref(overrides),
            signer,
            at,
            r,
        ),
    ensures
        row.PersonalEvents@.len() > 0 ==> r == Ok::<Option<SyncEventBody>, ProtonError>(None),
        forall|i: int|
            0 <= i < row.SharedEvents@.len() && is_locked(#[trigger] row.SharedEvents@[i])
                && does_not_open(
                row.SharedEvents@[i],
                row.SharedKeyPacket@,
                at,
                cal_keys,
                addr_keys,
            ) ==> r == Ok::<Option<SyncEventBody>, ProtonError>(None),
        forall|i: int|
            0 <= i < row.CalendarEvents@.len() && is_locked(#[trigger] row.CalendarEvents@[i])
                && does_not_open(
                row.CalendarEvents@[i],
                row.CalendarKeyPacket@,
                at,
                cal_keys,
                addr_keys,
            ) ==> r == Ok::<Option<SyncEventBody>, ProtonError>(None),
        forall|i: int|
            0 <= i < row.AttendeesEvents@.len() && is_locked(#[trigger] row.AttendeesEvents@[i])
                && does_not_open(
                row.AttendeesEvents@[i],
                row.SharedKeyPacket@,
                at,
                cal_keys,
                addr_keys,
            ) ==> r == Ok::<Option<SyncEventBody>, ProtonError>(None),
{
    lemma_group(at, row@.shared_events, row.SharedKeyPacket@, cal_keys, addr_keys);
    lemma_group(at, row@.calendar_events, row.CalendarKeyPacket@, cal_keys, addr_keys);
    lemma_group(at, row@.attendees_events, row.SharedKeyPacket@, cal_keys, addr_keys);
    assert forall|i: int| 0 <= i < row.SharedEvents@.len() implies (#[trigger] row.SharedEvents@[i])@
        == row@.shared_events[i] by {}
    assert forall|i: int|
        0 <= i < row.CalendarEvents@.len() implies (#[trigger] row.CalendarEvents@[i])@
        == row@.calendar_events[i] by {}
    assert forall|i: int|
        0 <= i < row.AttendeesEvents@.len() implies (#[trigger] row.AttendeesEvents@[i])@
        == row@.attendees_events[i] by {}
}

/// Whether a card stays closed: there is no key packet, or its data does not
/// decrypt.
pub open spec fn does_not_open(
    part: CalendarEventPart,
    packet: Seq<char>,
    at: u32,
    cal_keys: Seq<Seq<Seq<u8>>>,
    addr_keys: Seq<Seq<Seq<u8>>>,
) -> bool {
    packet.len() == 0 || calendar_cards::card_text(
        at,
        part.Type as int,
        part.Data@,
        Some(packet),
        cal_keys,
        addr_keys,
    ) is None
}

/// An update of an event without cards of members whose cards are all in the
/// clear is never put off.
pub proof fn law_clear_update_goes_out(
    row: CalendarEvent,
    fields: FieldsModel,
    overrides: Option<&UpdateOverrides>,
    cal_keys: Seq<Seq<Seq<u8>>>,
    addr_keys: Seq<Seq<Seq<u8>>>,
    signer: Option<Seq<u8>>,
    at: u32,
    r: Result<Option<SyncEventBody>, ProtonError>,
)
    requires
        calendar_seal::update_written(
            calendar_seal::update_plan(at, row@, fields, cal_keys, addr_keys),
            row@,
            calendar_seal::deref(overrides),
            signer,
            at,
            r,
        ),
        row.PersonalEvents@.len() == 0,
        forall|i: int|
            0 <= i < row.SharedEvents@.len() ==> is_clear(#[trigger] row.SharedEvents@[i]),
        forall|i: int|
            0 <= i < row.CalendarEvents@.len() ==> is_clear(#[trigger] row.CalendarEvents@[i]),
        forall|i: int|
            0 <= i < row.AttendeesEvents@.len() ==> is_clear(#[trigger] row.AttendeesEvents@[i]),
    ensures
        r != Ok::<Option<SyncEventBody>, ProtonError>(None),
{
    lemma_group(at, row@.shared_events, row.SharedKeyPacket@, cal_keys, addr_keys);
    lemma_group(at, row@.calendar_events, row.CalendarKeyPacket@, cal_keys, addr_keys);
    lemma_group(at, row@.attendees_events, row.SharedKeyPacket@, cal_keys, addr_keys);
    assert forall|i: int|
        0 <= i < row@.shared_events.len() implies !calendar_cards::is_encrypted(
        (#[trigger] row@.shared_events[i]).kind,
    ) by {
        assert(is_clear(row.SharedEvents@[i]));
    }
    assert forall|i: int|
        0 <= i < row@.calendar_events.len() implies !calendar_cards::is_encrypted(
        (#[trigger] row@.calendar_events[i]).kind,
    ) by {
        assert(is_clear(row.CalendarEvents@[i]));
    }
    assert forall|i: int|
        0 <= i < row@.attendees_events.len() implies !calendar_cards::is_encrypted(
        (#[trigger] row@.attendees_events[i]).kind,
    ) by {
        assert(is_clear(row.AttendeesEvents@[i]));
    }
}

} // verus!
