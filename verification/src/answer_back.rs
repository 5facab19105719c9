//! What functions hand back for the answers of a server, and for the times
//! and texts of a client.
use vstd::prelude::*;

use crate::auth;
use crate::auth::{LoginResponse, LoginState};
use crate::bridge;
use crate::bridge::AuthOutcome;
use crate::calendar;
use crate::calendar_cards;
use crate::calendar_seal;
use crate::calendar_write;
use crate::calendar_write::{SyncBatchRequest, SyncContentPart, SyncEventBody, SyncEventOp};
use crate::contact_seal;
use crate::contacts;
use crate::crypto::UnlockedKey;
use crate::diag;
use crate::encoding;
use crate::error::ProtonError;
use crate::json;
use crate::json::{Json, JsonModel};
use crate::keys;
use crate::models;
use crate::models::{
    AuthTokens, CalendarBootstrap, CalendarKey, CalendarMember, CalendarPassphrase, CalendarSettings,
    ContactCard,
};
use crate::text;
use crate::tokens::TokenManager;
use crate::vcard;
use crate::wire;

verus! {

// ---------------------------------------------------------------------
// Times
// ---------------------------------------------------------------------

/// The rows of a year before and a year behind the present are listed.
pub proof fn law_listed_years(now: i64, r: (i64, i64))
    requires
        call_ensures(calendar::default_window, (now,), r),
        -0x4000_0000_0000_0000 < now < 0x4000_0000_0000_0000,
    ensures
        now - r.0 == 365 * 86400,
        r.1 - now == 365 * 86400,
{
}

/// A time of no more than ninety-one days is asked for at once, with a day
/// more on either side.
pub proof fn law_short_time_is_one_window(start: i64, end: i64, r: Vec<(i64, i64)>)
    requires
        call_ensures(calendar::query_windows, (start, end), r),
        -0x4000_0000_0000_0000 < start < end < 0x4000_0000_0000_0000,
        end - start <= 91 * 86400,
    ensures
        r@.len() == 1,
        r@[0].0 == start - 86400,
        r@[0].1 == end + 86400,
{
    let span = calendar::CALENDAR_MAX_WINDOW_SECS - 2 * 86400;
    let w = calendar::windows(start as int, end as int, span);
    assert(calendar::windows(end as int, end as int, span).len() == 0);
    assert(w =~= seq![(start, end)]);
}

// ---------------------------------------------------------------------
// Logins
// ---------------------------------------------------------------------

/// A login goes on with a code of a device, ends with the tokens of the
/// answer, or is refused where only a security key would do.
pub proof fn law_login_goes_on(resp: LoginResponse, r: Result<LoginState, ProtonError>)
    requires
        call_ensures(auth::login_state, (resp,), r),
    ensures
        auth::fido2_only(resp.TwoFA, resp.TwoFactor) ==> r is Err,
        !auth::fido2_only(resp.TwoFA, resp.TwoFactor) ==> r is Ok,
        r is Ok && auth::totp_required(resp.TwoFA, resp.TwoFactor) ==> (r->Ok_0 matches
            LoginState::Requires2FA { access_token, refresh_token, uid, .. } && access_token@
            == resp.AccessToken@ && refresh_token@ == resp.RefreshToken@ && uid@ == resp.UID@),
        r is Ok && !auth::totp_required(resp.TwoFA, resp.TwoFactor) ==> (r->Ok_0 matches
            LoginState::Authenticated { tokens, .. } && tokens.access_token@ == resp.AccessToken@
            && tokens.refresh_token@ == resp.RefreshToken@ && tokens.uid@ == resp.UID@),
{
}

/// A finished login has the status 0, one that waits for a code the status 1,
/// both with their tokens; a failed one has no tokens.
pub proof fn law_login_outcomes(state: Result<LoginState, ProtonError>, r: AuthOutcome)
    requires
        call_ensures(bridge::login_result, (state,), r),
    ensures
        state matches Ok(LoginState::Authenticated { tokens, .. }) ==> r@.status == 0
            && r@.tokens == Some((tokens.access_token@, tokens.refresh_token@, tokens.uid@)),
        state matches Ok(LoginState::Requires2FA { access_token, refresh_token, uid, .. })
            ==> r@.status == 1 && r@.tokens == Some((access_token@, refresh_token@, uid@)),
        state is Ok ==> r@.error is None && r@.captcha is None,
        state is Err ==> r@.tokens is None,
{
}

/// Tokens from a code or a refresh have the status 0.
pub proof fn law_token_outcomes(tokens: Result<AuthTokens, ProtonError>, r: AuthOutcome)
    requires
        call_ensures(bridge::tokens_result, (tokens,), r),
    ensures
        tokens matches Ok(t) ==> r@.status == 0 && r@.tokens == Some(
            (t.access_token@, t.refresh_token@, t.uid@),
        ) && r@.error is None && r@.captcha is None,
        tokens is Err ==> r@.tokens is None,
{
}

/// A code that is taken leaves the tokens of the login as they are; a code
/// that is not taken, or a refused request, gives no tokens.
pub proof fn law_taken_code_keeps_tokens(
    success: bool,
    status: &str,
    body: &str,
    access_token: &str,
    refresh_token: &str,
    uid: &str,
    r: Result<AuthTokens, ProtonError>,
    j: JsonModel,
    code: int,
)
    requires
        call_ensures(
            auth::two_fa_answer,
            (success, status, body, access_token, refresh_token, uid),
            r,
        ),
        json::json_of_text(body@) == Ok::<JsonModel, Seq<char>>(j),
        auth::two_fa_answer_of(j) is Ok && auth::two_fa_answer_of(j)->Ok_0.0 == code,
    ensures
        success && code == 1000 ==> (r matches Ok(t) && t.access_token@ == access_token@
            && t.refresh_token@ == refresh_token@ && t.uid@ == uid@),
        !success || code != 1000 ==> r is Err,
{
}

/// A refused refresh or login gives an error, whatever its answer holds.
pub proof fn law_refused_requests(
    status: &str,
    body: &str,
    refreshed: Result<(AuthTokens, Option<String>, Vec<String>), ProtonError>,
    login: Result<LoginResponse, ProtonError>,
)
    requires
        call_ensures(auth::refresh_answer, (false, status, body), refreshed),
        call_ensures(auth::login_answer, (false, status, body), login),
    ensures
        refreshed is Err && refreshed->Err_0 is Auth,
        login is Err && (login->Err_0 is Auth || login->Err_0 is Captcha),
{
}

/// A refresh gives the tokens and scopes of its answer.
pub proof fn law_refreshed_tokens(
    status: &str,
    body: &str,
    r: Result<(AuthTokens, Option<String>, Vec<String>), ProtonError>,
    j: JsonModel,
)
    requires
        call_ensures(auth::refresh_answer, (true, status, body), r),
        json::json_of_text(body@) == Ok::<JsonModel, Seq<char>>(j),
        auth::refresh_of(j) is Ok,
    ensures
        r is Ok,
        r->Ok_0.0.access_token@ == auth::refresh_of(j)->Ok_0.access_token,
        r->Ok_0.0.refresh_token@ == auth::refresh_of(j)->Ok_0.refresh_token,
        r->Ok_0.0.uid@ == auth::refresh_of(j)->Ok_0.uid,
        auth::refresh_of(j)->Ok_0.scopes matches Some(s) ==> text::texts(r->Ok_0.2@) == s,
{
}

/// The scopes of the last refresh are shown behind its scope.
pub proof fn law_last_scopes(t: &TokenManager, r: Option<String>)
    requires
        call_ensures(TokenManager::last_refresh_scopes, (t,), r),
    ensures
        t@.scopes is None <==> r is None,
        t@.scopes matches Some((Some(s), l)) ==> r->Some_0@ == s + "|"@ + text::join(l, ","@),
        t@.scopes matches Some((None, l)) ==> r->Some_0@ == "?"@ + "|"@ + text::join(l, ","@),
{
}

/// Of an access token a failure shows six characters at most: it is the same
/// for any two longer tokens that start alike.
pub proof fn law_failure_hides_token(
    status: &str,
    one: &str,
    other: &str,
    uid: &str,
    body: &str,
    a: ProtonError,
    b: ProtonError,
)
    requires
        call_ensures(keys::salts_failure, (status, one, uid, body), a),
        call_ensures(keys::salts_failure, (status, other, uid, body), b),
        one@.len() > 6 && other@.len() > 6 && one@.take(6) == other@.take(6),
    ensures
        a matches ProtonError::Auth(m) && b matches ProtonError::Auth(n) && m@ == n@,
{
}

// ---------------------------------------------------------------------
// Requests
// ---------------------------------------------------------------------

/// The questions of a login say who logs in, the code, and the token to
/// renew, under the names that the server knows, and nothing else.
pub proof fn law_login_questions(
    username: &str,
    info: Json,
    code: &str,
    two_fa: Json,
    token: &str,
    refresh: Json,
)
    requires
        call_ensures(wire::auth_info_request, (username,), info),
        call_ensures(wire::two_fa_request, (code,), two_fa),
        call_ensures(wire::refresh_request, (token,), refresh),
    ensures
        info@ matches JsonModel::Object(o) && o.len() == 1 && o[0] == ("Username"@, JsonModel::Text(
            username@,
        )),
        two_fa@ matches JsonModel::Object(o) && o.len() == 1 && o[0] == (
            "TwoFactorCode"@,
            JsonModel::Text(code@),
        ),
        refresh@ matches JsonModel::Object(o) && o.len() == 2 && o[0] == (
            "GrantType"@,
            JsonModel::Text("refresh_token"@),
        ) && o[1] == ("RefreshToken"@, JsonModel::Text(token@)),
{
}

// ---------------------------------------------------------------------
// Cards
// ---------------------------------------------------------------------

/// A contact goes out with its signed card first, and the encrypted one
/// behind it where there is one; where either was not made, nothing goes out.
pub proof fn law_contact_cards_in_order(
    signed: String,
    signature: Result<String, ProtonError>,
    sealed: Option<Result<(String, String), ProtonError>>,
    r: Result<Vec<ContactCard>, ProtonError>,
)
    requires
        call_ensures(contact_seal::contact_cards_of, (signed, signature, sealed), r),
    ensures
        signature is Err ==> r is Err,
        sealed is Some && sealed->Some_0 is Err ==> r is Err,
        r is Ok ==> r->Ok_0@.len() == (if sealed is Some {
            2int
        } else {
            1
        }),
        r is Ok ==> r->Ok_0@[0].Type == 2 && r->Ok_0@[0].Data@ == signed@
            && r->Ok_0@[0].Signature@ == signature->Ok_0@,
        r is Ok && sealed is Some ==> r->Ok_0@[1].Type == 3 && r->Ok_0@[1].Data@
            == sealed->Some_0->Ok_0.0@ && r->Ok_0@[1].Signature@ == sealed->Some_0->Ok_0.1@,
        signature is Ok && (sealed is None || sealed->Some_0 is Ok) ==> r is Ok,
{
}

/// A part of an event goes out as it came: encrypted with its data in base64,
/// or clear with the text itself.
pub proof fn law_part_stays_of_its_kind(
    encrypted: bool,
    plain: &str,
    data: Option<Vec<u8>>,
    signature: Result<String, ProtonError>,
    r: Result<SyncContentPart, ProtonError>,
)
    requires
        call_ensures(calendar_seal::resealed_part, (encrypted, plain, data, signature), r),
    ensures
        signature is Err ==> r is Err,
        encrypted && data is None ==> r is Err,
        signature is Ok && !(encrypted && data is None) ==> r is Ok,
        r is Ok ==> r->Ok_0.Signature@ == signature->Ok_0@,
        r is Ok && !encrypted ==> r->Ok_0.Type == 2 && r->Ok_0.Data@ == plain@,
        r is Ok && encrypted ==> r->Ok_0.Type == 3 && r->Ok_0.Data@ == encoding::base64_text(
            data->Some_0@,
        ),
{
}

/// A photo becomes a data address: its kind, a JPEG where none is given, and
/// its bytes in base64.
pub proof fn law_photo_address(kind: Option<&str>, bytes: &Vec<u8>, r: String)
    requires
        call_ensures(vcard::photo_data_uri, (kind, bytes), r),
    ensures
        kind matches Some(t) ==> r@ == "data:"@ + t@ + ";base64,"@ + encoding::base64_text(bytes@),
        kind is None ==> r@ == "data:"@ + "image/jpeg"@ + ";base64,"@ + encoding::base64_text(bytes@),
{
}

// ---------------------------------------------------------------------
// Operations on rows
// ---------------------------------------------------------------------

/// A creation has a body and no identifier, an update has both, and a
/// deletion has the identifier alone.
pub proof fn law_operations_tell_apart(
    id: &str,
    body: SyncEventBody,
    created: SyncEventOp,
    updated: SyncEventOp,
    deleted: SyncEventOp,
)
    requires
        call_ensures(SyncEventOp::create, (body,), created),
        call_ensures(SyncEventOp::update, (id, body), updated),
        call_ensures(SyncEventOp::delete, (id,), deleted),
    ensures
        created.ID is None && created.Event == Some(body) && created.Overwrite == Some(0i32),
        updated.ID is Some && updated.ID->Some_0@ == id@ && updated.Event == Some(body),
        updated.Overwrite is None,
        deleted.ID is Some && deleted.ID->Some_0@ == id@ && deleted.Event is None,
        deleted.Overwrite is None,
{
}

/// A deletion of several rows names each of them, in their order, and brings
/// nothing else.
pub proof fn law_deletion_names_rows(member: &str, ids: &[String], r: SyncBatchRequest, i: int)
    requires
        call_ensures(SyncBatchRequest::delete_batch, (member, ids), r),
        0 <= i < ids@.len(),
    ensures
        r.MemberID@ == member@,
        r.IsImport is None,
        r.Events@.len() == ids@.len(),
        r.Events@[i].ID is Some && r.Events@[i].ID->Some_0@ == ids@[i]@,
        r.Events@[i].Event is None && r.Events@[i].Overwrite is None,
{
    assert(text::option_text(r.Events@[i].ID) == Some(ids@[i]@));
}

/// A color is sent as its text, and none as null.
pub proof fn law_color_value(color: &str, r: Json)
    requires
        call_ensures(calendar_write::marshal_color, (color,), r),
    ensures
        color@.len() > 0 ==> r@ == JsonModel::Text(color@),
        color@.len() == 0 ==> r@ == JsonModel::Null,
{
}

/// A further page is the next one, as long as there is more and the last page
/// is not reached.
pub proof fn law_next_page(page: u32, more: bool, last: u32, r: Option<u32>)
    requires
        call_ensures(calendar::next_page, (page, more, last), r),
        page < 0xffff_ffff,
    ensures
        r is Some <==> more && page < last,
        r matches Some(p) ==> p == page + 1,
{
}

/// Contacts are asked for again after a full page of a hundred, until the
/// total is reached, where one is known.
pub proof fn law_more_contacts(so_far: usize, total: i32, last_page: usize, r: bool)
    requires
        call_ensures(contacts::more_contacts, (so_far, total, last_page), r),
    ensures
        last_page < 100 ==> !r,
        0 <= total <= so_far ==> !r,
        last_page >= 100 && (total < 0 || so_far < total) ==> r,
{
}

/// Of the signature of a card it is told whether there is one.
pub proof fn law_signature_is_there(
    data: &str,
    signature: &str,
    calendar_keys: &[UnlockedKey],
    address_keys: &[UnlockedKey],
    r: Result<bool, ProtonError>,
)
    requires
        call_ensures(
            calendar_cards::verify_signature,
            (data, signature, calendar_keys, address_keys),
            r,
        ),
    ensures
        r is Ok,
        r->Ok_0 <==> signature@.len() > 0,
{
}

// ---------------------------------------------------------------------
// Settings
// ---------------------------------------------------------------------

/// The log is verbose where the setting is there and is neither empty nor 0,
/// white space round it aside.
pub proof fn law_verbose_setting(value: Option<&str>, r: bool)
    requires
        call_ensures(diag::verbose_setting, (value,), r),
    ensures
        value is None ==> !r,
        value matches Some(v) && (text::trim(v@) == "0"@ || text::trim(v@).len() == 0) ==> !r,
        value matches Some(v) && text::trim(v@) != "0"@ && text::trim(v@).len() > 0 ==> r,
{
}

/// What the single routes of a calendar bring is put together as it came;
/// what did not come is empty, and settings without a reminder count as not
/// there.
pub proof fn law_routes_are_put_together(
    members: Option<Vec<CalendarMember>>,
    keys: Option<Vec<CalendarKey>>,
    passphrase: Option<CalendarPassphrase>,
    settings: Option<CalendarSettings>,
    r: CalendarBootstrap,
)
    requires
        call_ensures(calendar::bootstrap_from_routes, (members, keys, passphrase, settings), r),
    ensures
        members matches Some(m) ==> r.Members@ == m@,
        members is None ==> r.Members@.len() == 0,
        keys matches Some(k) ==> r.Keys@ == k@,
        keys is None ==> r.Keys@.len() == 0,
        r.Passphrase == passphrase,
        calendar::usable(settings) ==> r.Settings == settings,
        !calendar::usable(settings) ==> r.Settings is None,
{
}

/// The settings of a calendar stand under their name in an answer, or are the
/// answer itself.
pub proof fn law_settings_in_an_answer(v: &Json, status: u16, r: (CalendarSettings, String))
    requires
        call_ensures(calendar::settings_of_response, (v, status), r),
    ensures
        json::get(v@, "CalendarSettings"@) matches Some(inner) ==> r.0@
            == models::settings_of_json(inner),
        json::get(v@, "CalendarSettings"@) is None ==> r.0@ == models::settings_of_json(v@),
{
}

/// A failure of a contact request tells what was asked for, the status and
/// the answer, no more than a thousand characters of it.
pub proof fn law_contact_failure(what: &str, status: &str, body: &str, r: ProtonError)
    requires
        call_ensures(contacts::contacts_failure, (what, status, body), r),
    ensures
        r is Api && r->code == 0,
        body@.len() <= 1000 ==> r->message@ == "contacts "@ + what@ + " failed "@ + status@ + ": "@
            + body@,
        body@.len() > 1000 ==> r->message@ == "contacts "@ + what@ + " failed "@ + status@ + ": "@
            + body@.take(1000),
{
}

} // verus!
