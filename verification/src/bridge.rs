//! What crosses to C: texts in buffers of a fixed size, what a sync starts
//! from, and login results.
use vstd::prelude::*;

use crate::auth;
use crate::auth::LoginState;
use crate::error;
use crate::error::ProtonError;
use crate::json;
use crate::json::{parse_json, Json, JsonModel};
use crate::models::AuthTokens;
use crate::text;
use crate::text::{copy_text, is_empty, utf8_bytes};

verus! {

// ---------------------------------------------------------------------
// Texts in buffers
// ---------------------------------------------------------------------

/// A buffer of a size with the start of a text, and zeros behind it; the last
/// byte is always zero.
pub open spec fn buffer_of(bytes: Seq<u8>, size: nat) -> Seq<u8> {
    Seq::new(
        size,
        |i: int|
            if i < bytes.len() && i < size - 1 {
                bytes[i]
            } else {
                0
            },
    )
}

/// Puts a text in a buffer, and says whether it was cut off.
pub fn fixed_text(s: &str, size: usize) -> (r: (Vec<u8>, bool))
    requires
        size > 0,
    ensures
        r.0@ == buffer_of(vstd::utf8::encode_utf8(s@), size as nat),
        r.1 == (vstd::utf8::encode_utf8(s@).len() >= size),
{
    let bytes: Vec<u8> = utf8_bytes(s);
    let mut out: Vec<u8> = Vec::new();
    let mut i: usize = 0;
    while i < size
        invariant
            i <= size,
            size > 0,
            bytes@ == vstd::utf8::encode_utf8(s@),
            out@ =~= buffer_of(bytes@, size as nat).take(i as int),
        decreases size - i,
    {
        if i < bytes.len() && i < size - 1 {
            out.push(bytes[i]);
        } else {
            out.push(0);
        }
        i = i + 1;
    }
    assert(out@ =~= buffer_of(bytes@, size as nat));
    (out, bytes.len() >= size)
}

/// The bytes of a buffer before its first zero.
pub open spec fn until_zero(b: Seq<u8>) -> Seq<u8>
    decreases b.len(),
{
    if b.len() == 0 || b[0] == 0 {
        seq![]
    } else {
        seq![b[0]] + until_zero(b.skip(1))
    }
}

proof fn lemma_until_zero(b: Seq<u8>, bytes: Seq<u8>)
    requires
        bytes.len() < b.len(),
        forall|i: int| 0 <= i < bytes.len() ==> #[trigger] bytes[i] != 0 && b[i] == bytes[i],
        b[bytes.len() as int] == 0,
    ensures
        until_zero(b) == bytes,
    decreases bytes.len(),
{
    if bytes.len() > 0 {
        assert(bytes[0] != 0 && b[0] == bytes[0]);
        assert forall|i: int| 0 <= i < bytes.skip(1).len() implies #[trigger] bytes.skip(1)[i] != 0
            && b.skip(1)[i] == bytes.skip(1)[i] by {
            assert(bytes[i + 1] != 0 && b[i + 1] == bytes[i + 1]);
        }
        lemma_until_zero(b.skip(1), bytes.skip(1));
        assert(until_zero(b) =~= bytes);
    } else {
        assert(until_zero(b) =~= bytes);
    }
}

/// A text without zeros that was not cut off reads back from its buffer, up
/// to the first zero.
pub proof fn law_buffer_reads_back(bytes: Seq<u8>, size: nat)
    requires
        bytes.len() < size,
        forall|i: int| 0 <= i < bytes.len() ==> #[trigger] bytes[i] != 0,
    ensures
        until_zero(buffer_of(bytes, size)) == bytes,
{
    lemma_until_zero(buffer_of(bytes, size), bytes);
}

/// State and error of a sync, in buffers.
#[derive(Debug, Clone, PartialEq, Eq)]
pub struct StatusTexts {
    pub state: Vec<u8>,
    pub state_truncated: bool,
    pub error: Vec<u8>,
    pub error_truncated: bool,
}

/// Size of the buffer for a state.
pub const STATE_SIZE: usize = 16;

/// Size of the buffer for an error.
pub const ERROR_SIZE: usize = 256;

/// Puts state and error of a sync in their buffers; without an error its
/// buffer is all zeros.
pub fn status_texts(state: &str, error: Option<&str>) -> (r: StatusTexts)
    ensures
        r.state@ == buffer_of(vstd::utf8::encode_utf8(state@), STATE_SIZE as nat),
        r.state_truncated == (vstd::utf8::encode_utf8(state@).len() >= STATE_SIZE),
        match error {
            Some(e) => {
                &&& r.error@ == buffer_of(vstd::utf8::encode_utf8(e@), ERROR_SIZE as nat)
                &&& r.error_truncated == (vstd::utf8::encode_utf8(e@).len() >= ERROR_SIZE)
            },
            None => r.error@ == buffer_of(seq![], ERROR_SIZE as nat) && !r.error_truncated,
        },
{
    let (state, state_truncated): (Vec<u8>, bool) = fixed_text(state, STATE_SIZE);
    let (error, error_truncated): (Vec<u8>, bool) = match error {
        Some(e) => fixed_text(e, ERROR_SIZE),
        None => {
            proof {
                reveal_strlit("");
                assert(""@ =~= seq![]);
                assert(vstd::utf8::encode_utf8(""@) =~= seq![]);
            }
            fixed_text("", ERROR_SIZE)
        },
    };
    StatusTexts { state, state_truncated, error, error_truncated }
}

/// An argument that counts as absent when it is empty.
pub fn given(s: String) -> (r: Option<String>)
    ensures
        text::option_text(r) == given_text(s@),
{
    if is_empty(s.as_str()) {
        None
    } else {
        Some(s)
    }
}

// ---------------------------------------------------------------------
// What a sync starts from
// ---------------------------------------------------------------------

/// The kind of value that an argument in JSON holds.
#[derive(Debug, Clone, Copy, PartialEq, Eq)]
pub enum PartKind {
    /// A list.
    Rows,
    /// A list of texts.
    Texts,
    /// An object.
    Members,
    /// An object of texts.
    TextMembers,
    /// An object of integers.
    IntMembers,
}

pub open spec fn is_of_kind(j: JsonModel, kind: PartKind) -> bool {
    match (kind, j) {
        (PartKind::Rows, JsonModel::Array(_)) => true,
        (PartKind::Texts, JsonModel::Array(a)) => forall|i: int|
            0 <= i < a.len() ==> #[trigger] a[i] is Text,
        (PartKind::Members, JsonModel::Object(_)) => true,
        (PartKind::TextMembers, JsonModel::Object(o)) => forall|i: int|
            0 <= i < o.len() ==> (#[trigger] o[i]).1 is Text,
        (PartKind::IntMembers, JsonModel::Object(o)) => forall|i: int|
            0 <= i < o.len() ==> is_integer((#[trigger] o[i]).1),
        _ => false,
    }
}

pub open spec fn is_integer(j: JsonModel) -> bool {
    j matches JsonModel::Number(n) && n.int is Some
}

/// The value of an argument in JSON: none where the argument is empty, is no
/// JSON or holds another kind of value, never a part of it.
pub open spec fn part_of(s: Seq<char>, kind: PartKind) -> Option<JsonModel> {
    match json::json_of_text(s) {
        Ok(j) => if s.len() > 0 && is_of_kind(j, kind) {
            Some(j)
        } else {
            None
        },
        Err(_) => None,
    }
}

fn all_texts(a: &Vec<Json>) -> (r: bool)
    ensures
        r == (forall|i: int| 0 <= i < a@.len() ==> (#[trigger] a@[i]) is Text),
{
    let mut i: usize = 0;
    while i < a.len()
        invariant
            i <= a@.len(),
            forall|k: int| 0 <= k < i ==> (#[trigger] a@[k]) is Text,
        decreases a@.len() - i,
    {
        match &a[i] {
            Json::Text(_) => {},
            _ => {
                assert(!(a@[i as int] is Text));
                return false;
            },
        }
        i = i + 1;
    }
    true
}

fn all_text_members(o: &Vec<(String, Json)>) -> (r: bool)
    ensures
        r == (forall|i: int| 0 <= i < o@.len() ==> (#[trigger] o@[i]).1 is Text),
{
    let mut i: usize = 0;
    while i < o.len()
        invariant
            i <= o@.len(),
            forall|k: int| 0 <= k < i ==> (#[trigger] o@[k]).1 is Text,
        decreases o@.len() - i,
    {
        match &o[i].1 {
            Json::Text(_) => {},
            _ => {
                assert(!(o@[i as int].1 is Text));
                return false;
            },
        }
        i = i + 1;
    }
    true
}

fn all_int_members(o: &Vec<(String, Json)>) -> (r: bool)
    ensures
        r == (forall|i: int| 0 <= i < o@.len() ==> is_integer((#[trigger] o@[i]).1@)),
{
    let mut i: usize = 0;
    while i < o.len()
        invariant
            i <= o@.len(),
            forall|k: int| 0 <= k < i ==> is_integer((#[trigger] o@[k]).1@),
        decreases o@.len() - i,
    {
        let whole: bool = match &o[i].1 {
            Json::Number(n) => n.int.is_some(),
            _ => false,
        };
        assert(whole == is_integer(o@[i as int].1@));
        if !whole {
            return false;
        }
        i = i + 1;
    }
    true
}

fn of_kind(j: &Json, kind: PartKind) -> (r: bool)
    ensures
        r == is_of_kind(j@, kind),
{
    match j {
        Json::Array(a) => {
            proof {
                json::lemma_array_model(*a);
                assert(forall|i: int|
                    0 <= i < a@.len() ==> ((#[trigger] json::models(a@)[i]) is Text <==> a@[i]
                        is Text));
            }
            match kind {
                PartKind::Rows => true,
                PartKind::Texts => {
                    let r: bool = all_texts(a);
                    proof {
                        if r {
                            assert(is_of_kind(j@, kind));
                        } else {
                            let k = choose|k: int|
                                0 <= k < a@.len() && !((#[trigger] a@[k]) is Text);
                            assert(!(json::models(a@)[k] is Text));
                        }
                    }
                    r
                },
                _ => false,
            }
        },
        Json::Object(o) => {
            proof {
                json::lemma_object_model(*o);
            }
            match kind {
                PartKind::Members => true,
                PartKind::TextMembers => {
                    let r: bool = all_text_members(o);
                    proof {
                        let m = json::member_models(o@);
                        assert(forall|i: int|
                            0 <= i < o@.len() ==> ((#[trigger] m[i]).1 is Text <==> o@[i].1
                                is Text));
                        if !r {
                            let k = choose|k: int|
                                0 <= k < o@.len() && !((#[trigger] o@[k]).1 is Text);
                            assert(!(m[k].1 is Text));
                        }
                    }
                    r
                },
                PartKind::IntMembers => {
                    let r: bool = all_int_members(o);
                    proof {
                        let m = json::member_models(o@);
                        assert(forall|i: int|
                            0 <= i < o@.len() ==> (#[trigger] m[i]).1 == o@[i].1@);
                        if !r {
                            let k = choose|k: int|
                                0 <= k < o@.len() && !is_integer((#[trigger] o@[k]).1@);
                            assert(!is_integer(m[k].1));
                        }
                    }
                    r
                },
                _ => false,
            }
        },
        _ => false,
    }
}

fn part(s: &str, kind: PartKind) -> (r: Option<Json>)
    ensures
        json::option_model(r) == part_of(s@, kind),
{
    if is_empty(s) {
        return None;
    }
    match parse_json(s) {
        Ok(j) => if of_kind(&j, kind) {
            Some(j)
        } else {
            None
        },
        Err(_) => None,
    }
}

/// What a sync starts from: who it is for, and what earlier runs and the
/// phone left. Arguments that are empty or malformed are absent, so that a
/// damaged inventory only downloads and never uploads.
#[derive(Debug)]
pub struct SyncConfig {
    pub username: String,
    pub password: String,
    pub derived_passwords: Option<Json>,
    pub access_token: Option<String>,
    pub refresh_token: Option<String>,
    pub uid: Option<String>,
    pub totp_code: Option<String>,
    pub calendar_defaults: Option<Json>,
    pub local_inventory: Option<Json>,
    pub anchor_map: Option<Json>,
    pub contact_inventory: Option<Json>,
    pub contact_known_uids: Option<Json>,
    pub contact_anchors: Option<Json>,
}

/// What a [`SyncConfig`] holds.
#[verifier::ext_equal]
pub struct ConfigModel {
    pub username: Seq<char>,
    pub password: Seq<char>,
    pub derived_passwords: Option<JsonModel>,
    pub access_token: Option<Seq<char>>,
    pub refresh_token: Option<Seq<char>>,
    pub uid: Option<Seq<char>>,
    pub totp_code: Option<Seq<char>>,
    pub calendar_defaults: Option<JsonModel>,
    pub local_inventory: Option<JsonModel>,
    pub anchor_map: Option<JsonModel>,
    pub contact_inventory: Option<JsonModel>,
    pub contact_known_uids: Option<JsonModel>,
    pub contact_anchors: Option<JsonModel>,
}

impl View for SyncConfig {
    type V = ConfigModel;

    open spec fn view(&self) -> ConfigModel {
        ConfigModel {
            username: self.username@,
            password: self.password@,
            derived_passwords: json::option_model(self.derived_passwords),
            access_token: text::option_text(self.access_token),
            refresh_token: text::option_text(self.refresh_token),
            uid: text::option_text(self.uid),
            totp_code: text::option_text(self.totp_code),
            calendar_defaults: json::option_model(self.calendar_defaults),
            local_inventory: json::option_model(self.local_inventory),
            anchor_map: json::option_model(self.anchor_map),
            contact_inventory: json::option_model(self.contact_inventory),
            contact_known_uids: json::option_model(self.contact_known_uids),
            contact_anchors: json::option_model(self.contact_anchors),
        }
    }
}

/// An argument that counts as absent when it is empty.
pub open spec fn given_text(s: Seq<char>) -> Option<Seq<char>> {
    if s.len() == 0 {
        None
    } else {
        Some(s)
    }
}

/// What a sync of contacts starts from.
pub fn contact_config_from_parts(
    username: String,
    password: String,
    access_token: String,
    refresh_token: String,
    uid: String,
    totp_code: String,
    derived_json: String,
    inventory_json: String,
    known_uids_json: String,
    anchors_json: String,
) -> (r: SyncConfig)
    ensures
        r@ == (ConfigModel {
            username: username@,
            password: password@,
            derived_passwords: part_of(derived_json@, PartKind::TextMembers),
            access_token: given_text(access_token@),
            refresh_token: given_text(refresh_token@),
            uid: given_text(uid@),
            totp_code: given_text(totp_code@),
            calendar_defaults: None,
            local_inventory: None,
            anchor_map: None,
            contact_inventory: part_of(inventory_json@, PartKind::Rows),
            contact_known_uids: part_of(known_uids_json@, PartKind::Texts),
            contact_anchors: part_of(anchors_json@, PartKind::IntMembers),
        }),
{
    SyncConfig {
        username,
        password,
        derived_passwords: part(derived_json.as_str(), PartKind::TextMembers),
        access_token: given(access_token),
        refresh_token: given(refresh_token),
        uid: given(uid),
        totp_code: given(totp_code),
        calendar_defaults: None,
        local_inventory: None,
        anchor_map: None,
        contact_inventory: part(inventory_json.as_str(), PartKind::Rows),
        contact_known_uids: part(known_uids_json.as_str(), PartKind::Texts),
        contact_anchors: part(anchors_json.as_str(), PartKind::IntMembers),
    }
}

/// What a sync of a calendar starts from; it never holds a password.
pub fn calendar_config_from_parts(
    username: String,
    access_token: String,
    refresh_token: String,
    uid: String,
    derived_json: String,
    defaults_json: String,
    inventory_json: String,
    anchors_json: String,
) -> (r: SyncConfig)
    ensures
        r@ == (ConfigModel {
            username: username@,
            password: seq![],
            derived_passwords: part_of(derived_json@, PartKind::TextMembers),
            access_token: given_text(access_token@),
            refresh_token: given_text(refresh_token@),
            uid: given_text(uid@),
            totp_code: None,
            calendar_defaults: part_of(defaults_json@, PartKind::Members),
            local_inventory: part_of(inventory_json@, PartKind::Rows),
            anchor_map: part_of(anchors_json@, PartKind::IntMembers),
            contact_inventory: None,
            contact_known_uids: None,
            contact_anchors: None,
        }),
{
    SyncConfig {
        username,
        password: String::new(),
        derived_passwords: part(derived_json.as_str(), PartKind::TextMembers),
        access_token: given(access_token),
        refresh_token: given(refresh_token),
        uid: given(uid),
        totp_code: None,
        calendar_defaults: part(defaults_json.as_str(), PartKind::Members),
        local_inventory: part(inventory_json.as_str(), PartKind::Rows),
        anchor_map: part(anchors_json.as_str(), PartKind::IntMembers),
        contact_inventory: None,
        contact_known_uids: None,
        contact_anchors: None,
    }
}

// ---------------------------------------------------------------------
// Login results
// ---------------------------------------------------------------------

/// The result of a login: status 0 with tokens, 1 with the tokens of a
/// session that waits for the second factor, 2 with an error, 3 with a human
/// verification challenge.
#[derive(Debug)]
pub struct AuthOutcome {
    pub status: i32,
    pub access_token: Option<String>,
    pub refresh_token: Option<String>,
    pub uid: Option<String>,
    pub error: Option<String>,
    pub captcha_url: Option<String>,
    pub captcha_methods: Option<String>,
    pub captcha_token: Option<String>,
}

/// What an [`AuthOutcome`] holds.
#[verifier::ext_equal]
pub struct OutcomeModel {
    pub status: int,
    pub tokens: Option<(Seq<char>, Seq<char>, Seq<char>)>,
    pub error: Option<Seq<char>>,
    pub captcha: Option<(Seq<char>, Seq<char>, Seq<char>)>,
}

pub open spec fn three(
    a: Option<String>,
    b: Option<String>,
    c: Option<String>,
) -> Option<(Seq<char>, Seq<char>, Seq<char>)> {
    match (a, b, c) {
        (Some(a), Some(b), Some(c)) => Some((a@, b@, c@)),
        _ => None,
    }
}

impl AuthOutcome {
    /// Tokens, or what stands for the challenge, are there all three or not
    /// at all.
    pub open spec fn whole(self) -> bool {
        &&& self.access_token is Some == self.refresh_token is Some
        &&& self.access_token is Some == self.uid is Some
        &&& self.captcha_url is Some == self.captcha_methods is Some
        &&& self.captcha_url is Some == self.captcha_token is Some
    }
}

impl View for AuthOutcome {
    type V = OutcomeModel;

    open spec fn view(&self) -> OutcomeModel {
        OutcomeModel {
            status: self.status as int,
            tokens: three(self.access_token, self.refresh_token, self.uid),
            error: text::option_text(self.error),
            captcha: three(self.captcha_url, self.captcha_methods, self.captcha_token),
        }
    }
}

/// The result of an error: the challenge with its page, its methods and its
/// token, or the text of the error.
pub open spec fn error_outcome(e: ProtonError) -> OutcomeModel {
    match e {
        ProtonError::Captcha(c) => OutcomeModel {
            status: 3,
            tokens: None,
            error: None,
            captcha: Some(
                (c.web_url@, text::join(text::texts(c.methods@), ", "@), c.token@),
            ),
        },
        _ => OutcomeModel {
            status: 2,
            tokens: None,
            error: Some(error::error_text(e)),
            captcha: None,
        },
    }
}

pub open spec fn tokens_outcome(status: int, t: (Seq<char>, Seq<char>, Seq<char>)) -> OutcomeModel {
    OutcomeModel { status, tokens: Some(t), error: None, captcha: None }
}

fn with_tokens(status: i32, access_token: String, refresh_token: String, uid: String) -> (r:
    AuthOutcome)
    ensures
        r.whole(),
        r@ == tokens_outcome(status as int, (access_token@, refresh_token@, uid@)),
{
    AuthOutcome {
        status,
        access_token: Some(access_token),
        refresh_token: Some(refresh_token),
        uid: Some(uid),
        error: None,
        captcha_url: None,
        captcha_methods: None,
        captcha_token: None,
    }
}

/// The result of an error.
pub fn auth_error_result(e: &ProtonError) -> (r: AuthOutcome)
    ensures
        r.whole(),
        r@ == error_outcome(*e),
{
    match e {
        ProtonError::Captcha(c) => AuthOutcome {
            status: 3,
            access_token: None,
            refresh_token: None,
            uid: None,
            error: None,
            captcha_url: Some(copy_text(c.web_url.as_str())),
            captcha_methods: Some(c.methods_display()),
            captcha_token: Some(copy_text(c.token.as_str())),
        },
        _ => AuthOutcome {
            status: 2,
            access_token: None,
            refresh_token: None,
            uid: None,
            error: Some(e.message()),
            captcha_url: None,
            captcha_methods: None,
            captcha_token: None,
        },
    }
}

/// The result of a login.
pub fn login_result(state: Result<LoginState, ProtonError>) -> (r: AuthOutcome)
    ensures
        r.whole(),
        r@ == (match state {
            Ok(LoginState::Authenticated { tokens, .. }) => tokens_outcome(
                0,
                auth::tokens_view(tokens),
            ),
            Ok(LoginState::Requires2FA { access_token, refresh_token, uid, .. }) => tokens_outcome(
                1,
                (access_token@, refresh_token@, uid@),
            ),
            Err(e) => error_outcome(e),
        }),
{
    match state {
        Ok(LoginState::Authenticated { tokens, .. }) => with_tokens(
            0,
            tokens.access_token,
            tokens.refresh_token,
            tokens.uid,
        ),
        Ok(LoginState::Requires2FA { access_token, refresh_token, uid, .. }) => with_tokens(
            1,
            access_token,
            refresh_token,
            uid,
        ),
        Err(e) => auth_error_result(&e),
    }
}

/// The result of a code of the second factor, or of a refresh.
pub fn tokens_result(tokens: Result<AuthTokens, ProtonError>) -> (r: AuthOutcome)
    ensures
        r.whole(),
        r@ == (match tokens {
            Ok(t) => tokens_outcome(0, auth::tokens_view(t)),
            Err(e) => error_outcome(e),
        }),
{
    match tokens {
        Ok(t) => with_tokens(0, t.access_token, t.refresh_token, t.uid),
        Err(e) => auth_error_result(&e),
    }
}

/// An argument in JSON counts where it holds the kind of value that is asked
/// for, and then as a whole; any other value, and what is no JSON, counts as
/// absent.
pub proof fn law_arguments_of_a_kind(s: Seq<char>, j: JsonModel)
    requires
        json::json_of_text(s) == Ok::<JsonModel, Seq<char>>(j),
        s.len() > 0,
    ensures
        part_of(s, PartKind::Rows) == if j is Array {
            Some(j)
        } else {
            None
        },
        part_of(s, PartKind::Members) == if j is Object {
            Some(j)
        } else {
            None
        },
        part_of(s, PartKind::Texts) == if j is Array && forall|i: int|
            0 <= i < j->Array_0.len() ==> #[trigger] j->Array_0[i] is Text {
            Some(j)
        } else {
            None
        },
        part_of(s, PartKind::TextMembers) == if j is Object && forall|i: int|
            0 <= i < j->Object_0.len() ==> (#[trigger] j->Object_0[i]).1 is Text {
            Some(j)
        } else {
            None
        },
        part_of(s, PartKind::IntMembers) == if j is Object && forall|i: int|
            0 <= i < j->Object_0.len() ==> (#[trigger] j->Object_0[i]).1 is Number
                && j->Object_0[i].1->Number_0.int is Some {
            Some(j)
        } else {
            None
        },
{
    if let JsonModel::Object(o) = j {
        assert forall|i: int| 0 <= i < o.len() implies is_integer((#[trigger] o[i]).1) == (o[i].1
            is Number && o[i].1->Number_0.int is Some) by {}
    }
}

/// A challenge is told apart from every other error: it has a status of its
/// own, the page, the methods and the token, and no message; any other error
/// has its message and nothing of a challenge. No error has tokens.
pub proof fn law_error_outcomes(e: ProtonError)
    ensures
        e matches ProtonError::Captcha(c) ==> {
            let r = error_outcome(e);
            &&& r.status == 3
            &&& r.error is None
            &&& r.captcha == Some((c.web_url@, text::join(text::texts(c.methods@), ", "@), c.token@))
        },
        !(e is Captcha) ==> {
            let r = error_outcome(e);
            &&& r.status == 2
            &&& r.captcha is None
            &&& r.error == Some(error::error_text(e))
        },
        error_outcome(e).tokens is None,
{
}

/// A text that is too long for its buffer keeps its start; what is behind it
/// is zero, and the last byte always is.
pub proof fn law_buffer_keeps_the_start(bytes: Seq<u8>, size: nat, i: int)
    requires
        0 <= i < size,
    ensures
        buffer_of(bytes, size).len() == size,
        i < bytes.len() && i < size - 1 ==> buffer_of(bytes, size)[i] == bytes[i],
        i >= bytes.len() || i == size - 1 ==> buffer_of(bytes, size)[i] == 0,
        STATE_SIZE == 16,
        ERROR_SIZE == 256,
{
}

} // verus!
