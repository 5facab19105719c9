//! Contact and calendar cards of an encrypted account: how they are read,
//! edited, folded, sealed and sent.
pub mod answer_back;
pub mod auth;
pub mod bridge;
pub mod calendar;
pub mod calendar_back;
pub mod calendar_cards;
pub mod calendar_seal;
pub mod calendar_write;
pub mod card_back;
pub mod contact_back;
pub mod contact_seal;
pub mod contacts;
pub mod crypto;
pub mod dates;
pub mod diag;
pub mod edits;
pub mod encoding;
pub mod error;
pub mod escape;
pub mod event_back;
pub mod fields;
pub mod guard_back;
pub mod ical;
pub mod json;
pub mod keygroups;
pub mod keys;
pub mod lines;
pub mod listing;
pub mod lists;
pub mod models;
pub mod naturals;
pub mod numbers;
pub mod openpgp;
pub mod outcome_back;
pub mod ordered;
pub mod rows;
pub mod rows_back;
pub mod rrule;
pub mod rule_back;
pub mod sealing;
pub mod srp;
pub mod text;
pub mod text_back;
pub mod tokens;
pub mod trigger_back;
pub mod update_back;
pub mod utf8;
pub mod vcard;
pub mod vcard_back;
pub mod wire;
pub mod wire_back;

pub use crate::auth::LoginState;
pub use crate::calendar::{parse_notification_trigger, CalNotification};
pub use crate::calendar_write::{
    exception_sequence_ok, marshal_attendees, marshal_color, marshal_notifications, next_sequence,
    patch_card, resolve_color, valid_color, AttendeeClear, CardPatch, LocalFields,
    SyncBatchRequest, SyncBatchResponse, SyncContentPart, SyncEventBody, SyncEventOp,
    SyncOpResponse, SyncOpResult, UpdateOverrides, COLOR_DEFAULT_SENTINEL, SYNC_CODE_SUCCESS,
    SYNC_CODE_SUCCESS_MULTI,
};
pub use crate::contacts::generate_contact_uid;
pub use crate::crypto::{decrypt_contact_card, derive_mailbox_password, UnlockedKey};
pub use crate::dates::{format_ical_date_end_exclusive, format_ical_dt};
pub use crate::error::ProtonError;
pub use crate::ical::CalAttendee;
pub use crate::models::{
    Address, AddressKey, AddressesResponse, AttendeeToken, AuthRequest, AuthResponse, AuthTokens,
    Calendar, CalendarBootstrap, CalendarEvent, CalendarEventPart, CalendarEventsListResponse,
    CalendarKey, CalendarMember, CalendarPassphrase, CalendarSettings, Contact, ContactCard,
    ContactEmail, ContactSettings, ContactsListResponse, CreateContactCards, CreateContactResponse,
    CreateContactResult, CreateContactsRequest, CreateContactsResponse, KeySalt, KeySaltsResponse,
    MemberPassphrase, UpdateContactRequest, User, UserKey, UserResponse,
};
pub use crate::rrule::{parse_rrule, RecurrenceSpec, RruleByDay};
pub use crate::tokens::TokenManager;
pub use crate::vcard::{
    format_bday, parse_vcard, ParsedAddress, ParsedContact, ParsedEmail, ParsedPhone,
};
